//! The request line of an HTTP request, and the parts of its target that a
//! redirect carries: the provider in the path and the query after `?`.

use crate::text::{
    find, first_index_of, first_line, is_whitespace, leading_line, lemma_first_index_absent,
    lemma_nth_piece_unfold, lemma_span_bounds, lemma_span_is, nth_piece, nth_word, piece,
    starts_with, word, CharSet,
};
use vstd::prelude::*;
use vstd::string::*;

verus! {

/// The first two words of a request's first line.
#[derive(Debug, PartialEq, Eq)]
pub struct RequestLine {
    /// The method, such as `GET`.
    pub method: String,
    /// The request target: the path and, after a `?`, the query.
    pub target: String,
}

/// The method and the target of the request `text`: the first and the second
/// word of its first line. A first line of fewer than two words has neither.
pub open spec fn request_words(text: Seq<char>) -> Option<(Seq<char>, Seq<char>)> {
    let line = first_line(text);
    match (nth_word(line, 0), nth_word(line, 1)) {
        (Some(method), Some(target)) => Some((method, target)),
        _ => None,
    }
}

/// Reads the request line of `text`. Only the first line counts, and what
/// follows its second word is not looked at.
pub fn parse_request_line(text: &str) -> (line: Option<RequestLine>)
    ensures
        match line {
            Some(found) => request_words(text@) == Some((found.method@, found.target@)),
            None => request_words(text@) is None,
        },
{
    let line: &str = leading_line(text);
    match word(line, 0) {
        Some(method) => match word(line, 1) {
            Some(target) => Some(
                RequestLine { method: method.to_owned(), target: target.to_owned() },
            ),
            None => None,
        },
        None => None,
    }
}

/// Whether a text holds no white space.
pub open spec fn is_spaceless(s: Seq<char>) -> bool {
    forall|i: int| 0 <= i < s.len() ==> !is_whitespace(#[trigger] s[i])
}

/// A word: a text that is not empty and holds no white space.
pub open spec fn is_word(s: Seq<char>) -> bool {
    s.len() > 0 && is_spaceless(s)
}

/// A request that begins with a method, a space and a target is read as that
/// method and that target, whatever follows the target after white space.
pub proof fn lemma_request_words_of_line(method: Seq<char>, target: Seq<char>, tail: Seq<char>)
    requires
        is_word(method),
        is_word(target),
        tail.len() == 0 || is_whitespace(tail[0]),
    ensures
        request_words(method + seq![' '] + target + tail) == Some((method, target)),
{
    let text = method + seq![' '] + target + tail;
    let m = method.len() as int;
    let t = target.len() as int;
    let space = CharSet::Whitespace;
    assert(is_whitespace(' ') && is_whitespace('\n'));

    // The first line holds the method, the space and the target whole.
    lemma_span_bounds(text, CharSet::Just('\n'), false);
    let end = first_index_of(text, '\n');
    if end < m + 1 + t {
        if end < m {
            assert(text[end] == method[end]);
        } else if end > m {
            assert(text[end] == target[end - m - 1]);
        } else {
            assert(text[end] == ' ');
        }
    }
    let line = first_line(text);
    assert(line.len() == end);

    // Its first word is the method.
    assert(line[0] == method[0]);
    lemma_span_is(line, space, true, 0);
    let from_method = line.skip(0);
    assert forall|j: int| 0 <= j < m implies space.has(#[trigger] from_method[j]) == false by {
        assert(from_method[j] == method[j]);
    }
    assert(from_method[m] == ' ');
    lemma_span_is(from_method, space, false, m);
    assert(from_method.take(m) =~= method);

    // Its second word is the target.
    let after_method = from_method.skip(m);
    assert(after_method[0] == ' ');
    assert(after_method[1] == target[0]);
    lemma_span_is(after_method, space, true, 1);
    let from_target = after_method.skip(1);
    assert forall|j: int| 0 <= j < t implies space.has(#[trigger] from_target[j]) == false by {
        assert(from_target[j] == target[j]);
    }
    if t < from_target.len() {
        assert(from_target[t] == tail[0]);
    }
    lemma_span_is(from_target, space, false, t);
    assert(from_target.take(t) =~= target);

    assert(nth_word(line, 0) == Some(method));
    assert(nth_word(after_method, 0) == Some(target));
    assert(nth_word(line, 1) == nth_word(after_method, 0));
}

/// The path of a target: what stands before its first `?`.
pub open spec fn path_part(target: Seq<char>) -> Seq<char> {
    target.take(first_index_of(target, '?'))
}

/// The query of a target: what stands after its first `?`, where it has one.
pub open spec fn query_part(target: Seq<char>) -> Option<Seq<char>> {
    let mark = first_index_of(target, '?');
    if 0 <= mark < target.len() {
        Some(target.skip(mark + 1))
    } else {
        None
    }
}

/// Whether a target lies under `/callback/`.
pub open spec fn is_callback(target: Seq<char>) -> bool {
    "/callback/"@.is_prefix_of(target)
}

/// The provider that a target names: the segment of its path between the second
/// and the third `/`, or `unknown` where the path has no second `/` or nothing
/// stands in that segment.
pub open spec fn provider_of(target: Seq<char>) -> Seq<char> {
    match nth_piece(path_part(target), '/', 2) {
        Some(segment) => if segment.len() > 0 {
            segment
        } else {
            "unknown"@
        },
        None => "unknown"@,
    }
}

/// The path of `target`.
pub fn path_of<'a>(target: &'a str) -> (path: &'a str)
    ensures
        path@ == path_part(target@),
{
    let mark: usize = find(target, '?');
    target.substring_char(0, mark)
}

/// The query of `target`, where it has one.
pub fn query_of<'a>(target: &'a str) -> (query: Option<&'a str>)
    ensures
        match query {
            Some(text) => query_part(target@) == Some(text@),
            None => query_part(target@) is None,
        },
{
    let len: usize = target.unicode_len();
    let mark: usize = find(target, '?');
    if mark < len {
        Some(target.substring_char(mark + 1, len))
    } else {
        None
    }
}

/// Whether `target` lies under `/callback/`.
pub fn under_callback(target: &str) -> (found: bool)
    ensures
        found == is_callback(target@),
{
    starts_with(target, "/callback/")
}

/// The provider that `target` names.
pub fn extract_provider(target: &str) -> (provider: String)
    ensures
        provider@ == provider_of(target@),
{
    match piece(path_of(target), '/', 2) {
        Some(segment) => if segment.is_empty() {
            "unknown".to_owned()
        } else {
            segment.to_owned()
        },
        None => "unknown".to_owned(),
    }
}

/// In a target `/callback/<s>` followed by nothing, by `/...` or by `?...`, the
/// segment of the path between the second and the third `/` is `<s>`, be it
/// empty or not.
pub proof fn lemma_segment_of_callback(segment: Seq<char>, rest: Seq<char>)
    requires
        !segment.contains('/'),
        !segment.contains('?'),
        rest.len() == 0 || rest[0] == '/' || rest[0] == '?',
    ensures
        is_callback("/callback/"@ + segment + rest),
        nth_piece(path_part("/callback/"@ + segment + rest), '/', 2) == Some(segment),
{
    reveal_strlit("/callback/");
    let prefix = "/callback/"@;
    let target = prefix + segment + rest;
    assert(prefix.len() == 10);
    assert(target.take(10) =~= prefix);
    assert(prefix.is_prefix_of(target));

    // The path holds the prefix and the segment whole.
    lemma_span_bounds(target, CharSet::Just('?'), false);
    let mark = first_index_of(target, '?');
    if mark < 10 + segment.len() {
        if mark >= 10 {
            assert(target[mark] == segment[mark - 10]);
            assert(segment.contains(segment[mark - 10]));
        } else {
            assert(target[mark] == prefix[mark]);
        }
    }
    let path = path_part(target);
    assert(path.len() == mark);

    // Its first part is empty, its second is `callback`.
    assert(path[0] == '/');
    lemma_span_is(path, CharSet::Just('/'), false, 0);
    lemma_nth_piece_unfold(path, '/', 2);
    let after_first = path.skip(1);
    assert forall|j: int| 0 <= j < 8 implies CharSet::Just('/').has(#[trigger] after_first[j])
        == false by {
        assert(after_first[j] == prefix[j + 1]);
    }
    assert(after_first[8] == prefix[9]);
    lemma_span_is(after_first, CharSet::Just('/'), false, 8);
    lemma_nth_piece_unfold(after_first, '/', 1);

    // Its third begins where the segment begins, and ends where it ends.
    let after_second = after_first.skip(9);
    assert forall|j: int| 0 <= j < segment.len() implies CharSet::Just('/').has(
        #[trigger] after_second[j],
    ) == false by {
        assert(after_second[j] == segment[j]);
        assert(segment.contains(segment[j]));
    }
    if segment.len() < after_second.len() {
        assert(after_second[segment.len() as int] == rest[0]);
        assert(mark > 10 + segment.len());
        assert(target[10 + segment.len() as int] == rest[0]);
        assert(rest[0] != '?');
    }
    lemma_span_is(after_second, CharSet::Just('/'), false, segment.len() as int);
    lemma_nth_piece_unfold(after_second, '/', 0);
    assert(after_second.take(segment.len() as int) =~= segment);
}

/// In a target `/callback/<p>` followed by nothing, by `/...` or by `?...`, the
/// provider is `<p>` exactly, where `<p>` is not empty.
pub proof fn lemma_provider_of_callback(provider: Seq<char>, rest: Seq<char>)
    requires
        provider.len() > 0,
        !provider.contains('/'),
        !provider.contains('?'),
        rest.len() == 0 || rest[0] == '/' || rest[0] == '?',
    ensures
        is_callback("/callback/"@ + provider + rest),
        provider_of("/callback/"@ + provider + rest) == provider,
{
    lemma_segment_of_callback(provider, rest);
}

/// In a target `/callback/` followed by nothing, by `/...` or by `?...`, no
/// segment follows the prefix: the provider is `unknown`.
pub proof fn lemma_provider_of_bare_callback(rest: Seq<char>)
    requires
        rest.len() == 0 || rest[0] == '/' || rest[0] == '?',
    ensures
        is_callback("/callback/"@ + rest),
        provider_of("/callback/"@ + rest) == "unknown"@,
{
    let none = Seq::<char>::empty();
    lemma_segment_of_callback(none, rest);
    assert("/callback/"@ + none + rest =~= "/callback/"@ + rest);
}

/// A target whose path holds fewer than two `/` names no provider: the provider
/// is `unknown`.
pub proof fn lemma_provider_unknown(target: Seq<char>)
    requires
        forall|i: int, j: int|
            0 <= i < j < path_part(target).len() ==> !(#[trigger] path_part(target)[i] == '/'
                && #[trigger] path_part(target)[j] == '/'),
    ensures
        provider_of(target) == "unknown"@,
{
    let path = path_part(target);
    lemma_span_bounds(path, CharSet::Just('/'), false);
    lemma_nth_piece_unfold(path, '/', 2);
    let first = first_index_of(path, '/');
    if first < path.len() {
        let later = path.skip(first + 1);
        if later.contains('/') {
            let at = choose|at: int| 0 <= at < later.len() && later[at] == '/';
            assert(path[first] == '/' && path[first + 1 + at] == '/');
        }
        lemma_first_index_absent(later, '/');
        lemma_nth_piece_unfold(later, '/', 1);
    }
}

} // verus!
