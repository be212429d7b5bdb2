//! Scanning and splitting of text, character by character.
//!
//! Everything here is stated over `Seq<char>`, the view of `str` and `String`.
//! Positions count characters, not bytes.

use vstd::prelude::*;
use vstd::string::*;

verus! {

/// Whether `c` is white space in the sense of Unicode's `White_Space` property.
pub open spec fn is_whitespace(c: char) -> bool {
    let u = c as u32;
    ||| 0x09 <= u <= 0x0d
    ||| u == 0x20
    ||| u == 0x85
    ||| u == 0xa0
    ||| u == 0x1680
    ||| 0x2000 <= u <= 0x200a
    ||| u == 0x2028
    ||| u == 0x2029
    ||| u == 0x202f
    ||| u == 0x205f
    ||| u == 0x3000
}

/// A set of characters that a scan stops at or runs through.
#[derive(Clone, Copy, Debug)]
pub enum CharSet {
    /// The one given character.
    Just(char),
    /// Every white-space character.
    Whitespace,
}

impl CharSet {
    /// Membership of `c` in the set.
    pub open spec fn has(self, c: char) -> bool {
        match self {
            CharSet::Just(x) => c == x,
            CharSet::Whitespace => is_whitespace(c),
        }
    }

    /// Tests membership of `c` in the set.
    pub fn contains(&self, c: char) -> (found: bool)
        ensures
            found == self.has(c),
    {
        match self {
            CharSet::Just(x) => c == *x,
            CharSet::Whitespace => {
                let u: u32 = c as u32;
                (0x09 <= u && u <= 0x0d) || u == 0x20 || u == 0x85 || u == 0xa0 || u == 0x1680 || (
                0x2000 <= u && u <= 0x200a) || u == 0x2028 || u == 0x2029 || u == 0x202f || u
                    == 0x205f || u == 0x3000
            },
        }
    }
}

/// Length of the longest prefix of `s` all of whose characters lie inside `set`
/// (`inside == true`) or all of whose characters lie outside it (`inside == false`).
pub open spec fn span(s: Seq<char>, set: CharSet, inside: bool) -> int
    decreases s.len(),
{
    if s.len() > 0 && set.has(s[0]) == inside {
        1 + span(s.drop_first(), set, inside)
    } else {
        0
    }
}

/// Position of the first `c` in `s`, or `s.len()` where `s` holds no `c`.
pub open spec fn first_index_of(s: Seq<char>, c: char) -> int {
    span(s, CharSet::Just(c), false)
}

/// `span` ends inside the text, runs over matching characters only, and stops at
/// the first character that does not match.
pub proof fn lemma_span_bounds(s: Seq<char>, set: CharSet, inside: bool)
    ensures
        0 <= span(s, set, inside) <= s.len(),
        forall|j: int| 0 <= j < span(s, set, inside) ==> set.has(#[trigger] s[j]) == inside,
        span(s, set, inside) < s.len() ==> set.has(s[span(s, set, inside)]) != inside,
    decreases s.len(),
{
    if s.len() > 0 && set.has(s[0]) == inside {
        let rest = s.drop_first();
        lemma_span_bounds(rest, set, inside);
        assert forall|j: int| 0 <= j < span(s, set, inside) implies set.has(#[trigger] s[j])
            == inside by {
            if j > 0 {
                assert(s[j] == rest[j - 1]);
            }
        }
        if span(s, set, inside) < s.len() {
            assert(s[span(s, set, inside)] == rest[span(rest, set, inside)]);
        }
    }
}

/// The only position with the properties of `lemma_span_bounds` is `span` itself.
pub proof fn lemma_span_is(s: Seq<char>, set: CharSet, inside: bool, n: int)
    requires
        0 <= n <= s.len(),
        forall|j: int| 0 <= j < n ==> set.has(#[trigger] s[j]) == inside,
        n < s.len() ==> set.has(s[n]) != inside,
    ensures
        span(s, set, inside) == n,
    decreases s.len(),
{
    if n > 0 {
        let rest = s.drop_first();
        assert(set.has(s[0]) == inside);
        assert forall|j: int| 0 <= j < n - 1 implies set.has(#[trigger] rest[j]) == inside by {
            assert(rest[j] == s[j + 1]);
        }
        if n - 1 < rest.len() {
            assert(rest[n - 1] == s[n]);
        }
        lemma_span_is(rest, set, inside, n - 1);
    }
}

/// Measures the span of `s` with respect to `set`.
pub fn scan(s: &str, set: CharSet, inside: bool) -> (n: usize)
    ensures
        n == span(s@, set, inside),
        n <= s@.len(),
{
    let len: usize = s.unicode_len();
    let mut i: usize = 0;
    while i < len && set.contains(s.get_char(i)) == inside
        invariant
            i <= len,
            len == s@.len(),
            forall|j: int| 0 <= j < i ==> set.has(#[trigger] s@[j]) == inside,
        decreases len - i,
    {
        i += 1;
    }
    proof {
        lemma_span_is(s@, set, inside, i as int);
    }
    i
}

/// Position of the first `c` in `s`, or the length of `s` where it holds none.
pub fn find(s: &str, c: char) -> (i: usize)
    ensures
        i == first_index_of(s@, c),
        i <= s@.len(),
{
    scan(s, CharSet::Just(c), false)
}

/// The parts of `s` between occurrences of `sep`, in order. A text without `sep`
/// is one part, and so is the empty text.
pub open spec fn pieces(s: Seq<char>, sep: char) -> Seq<Seq<char>>
    decreases s.len(),
{
    let cut = first_index_of(s, sep);
    if 0 <= cut < s.len() {
        seq![s.take(cut)] + pieces(s.skip(cut + 1), sep)
    } else {
        seq![s]
    }
}

/// The part of `s` with index `n`, counted from 0, where `s` has that many parts.
pub open spec fn nth_piece(s: Seq<char>, sep: char, n: nat) -> Option<Seq<char>> {
    let all = pieces(s, sep);
    if n < all.len() {
        Some(all[n as int])
    } else {
        None
    }
}

/// The first part ends at the first separator; the later parts are the parts of
/// what follows that separator.
pub proof fn lemma_nth_piece_unfold(s: Seq<char>, sep: char, n: nat)
    ensures
        n == 0 ==> nth_piece(s, sep, n) == Some(s.take(first_index_of(s, sep))),
        n > 0 && first_index_of(s, sep) < s.len() ==> nth_piece(s, sep, n) == nth_piece(
            s.skip(first_index_of(s, sep) + 1),
            sep,
            (n - 1) as nat,
        ),
        n > 0 && first_index_of(s, sep) >= s.len() ==> nth_piece(s, sep, n) is None,
{
    let cut = first_index_of(s, sep);
    lemma_span_bounds(s, CharSet::Just(sep), false);
    if cut < s.len() {
        let later = pieces(s.skip(cut + 1), sep);
        assert(pieces(s, sep) == seq![s.take(cut)] + later);
        if n > 0 && n < later.len() + 1 {
            assert(pieces(s, sep)[n as int] == later[n - 1]);
        }
    } else {
        assert(s.take(cut) == s);
    }
}

/// A text that holds no `c` has its first `c` at its end.
pub proof fn lemma_first_index_absent(s: Seq<char>, c: char)
    requires
        !s.contains(c),
    ensures
        first_index_of(s, c) == s.len(),
{
    assert forall|j: int| 0 <= j < s.len() implies CharSet::Just(c).has(#[trigger] s[j])
        == false by {
        assert(s.contains(s[j]));
    }
    lemma_span_is(s, CharSet::Just(c), false, s.len() as int);
}

/// Where `c` follows a text that holds no `c`, the first `c` stands right after
/// that text, and splitting there gives back what stood on either side.
pub proof fn lemma_first_index_after(before: Seq<char>, c: char, after: Seq<char>)
    requires
        !before.contains(c),
    ensures
        first_index_of(before + seq![c] + after, c) == before.len(),
        (before + seq![c] + after).take(before.len() as int) == before,
        (before + seq![c] + after).skip(before.len() as int + 1) == after,
{
    let s = before + seq![c] + after;
    assert forall|j: int| 0 <= j < before.len() implies CharSet::Just(c).has(#[trigger] s[j])
        == false by {
        assert(s[j] == before[j]);
        assert(before.contains(before[j]));
    }
    assert(s[before.len() as int] == c);
    lemma_span_is(s, CharSet::Just(c), false, before.len() as int);
    assert(s.take(before.len() as int) =~= before);
    assert(s.skip(before.len() as int + 1) =~= after);
}

/// The texts of `items` written one after the other with `sep` between each two.
pub open spec fn joined(items: Seq<Seq<char>>, sep: char) -> Seq<char>
    decreases items.len(),
{
    if items.len() == 0 {
        Seq::empty()
    } else if items.len() == 1 {
        items[0]
    } else {
        items[0] + seq![sep] + joined(items.drop_first(), sep)
    }
}

/// Splitting undoes joining: texts that hold no separator, joined and split
/// again, come back as they were.
pub proof fn lemma_pieces_of_joined(items: Seq<Seq<char>>, sep: char)
    requires
        items.len() > 0,
        forall|i: int| 0 <= i < items.len() ==> !(#[trigger] items[i]).contains(sep),
    ensures
        pieces(joined(items, sep), sep) == items,
    decreases items.len(),
{
    if items.len() == 1 {
        lemma_first_index_absent(items[0], sep);
        assert(pieces(items[0], sep) =~= items);
    } else {
        let later = items.drop_first();
        assert forall|i: int| 0 <= i < later.len() implies !(#[trigger] later[i]).contains(
            sep,
        ) by {
            assert(later[i] == items[i + 1]);
        }
        lemma_pieces_of_joined(later, sep);
        lemma_first_index_after(items[0], sep, joined(later, sep));
        assert(pieces(joined(items, sep), sep) =~= items);
    }
}

/// The part of `s` with index `n` among those that `sep` separates.
pub fn piece<'a>(s: &'a str, sep: char, n: usize) -> (found: Option<&'a str>)
    ensures
        match found {
            Some(part) => nth_piece(s@, sep, n as nat) == Some(part@),
            None => nth_piece(s@, sep, n as nat) is None,
        },
{
    let mut rest: &str = s;
    let mut k: usize = 0;
    loop
        invariant
            k <= n,
            nth_piece(s@, sep, n as nat) == nth_piece(rest@, sep, (n - k) as nat),
        decreases n - k,
    {
        let len: usize = rest.unicode_len();
        let cut: usize = find(rest, sep);
        proof {
            lemma_nth_piece_unfold(rest@, sep, (n - k) as nat);
        }
        if k == n {
            return Some(rest.substring_char(0, cut));
        }
        if cut == len {
            return None;
        }
        rest = rest.substring_char(cut + 1, len);
        k += 1;
    }
}

/// The word of `s` with index `n`, counted from 0: words are the longest runs of
/// characters that are not white space.
pub open spec fn nth_word(s: Seq<char>, n: nat) -> Option<Seq<char>>
    decreases n,
{
    let from_word = s.skip(span(s, CharSet::Whitespace, true));
    let width = span(from_word, CharSet::Whitespace, false);
    if from_word.len() == 0 {
        None
    } else if n == 0 {
        Some(from_word.take(width))
    } else {
        nth_word(from_word.skip(width), (n - 1) as nat)
    }
}

/// The word of `s` with index `n`, where `s` has that many words.
pub fn word<'a>(s: &'a str, n: usize) -> (found: Option<&'a str>)
    ensures
        match found {
            Some(w) => nth_word(s@, n as nat) == Some(w@),
            None => nth_word(s@, n as nat) is None,
        },
{
    let mut rest: &str = s;
    let mut k: usize = 0;
    loop
        invariant
            k <= n,
            nth_word(s@, n as nat) == nth_word(rest@, (n - k) as nat),
        decreases n - k,
    {
        let len: usize = rest.unicode_len();
        let start: usize = scan(rest, CharSet::Whitespace, true);
        if start == len {
            return None;
        }
        let from_word: &str = rest.substring_char(start, len);
        let width: usize = scan(from_word, CharSet::Whitespace, false);
        if k == n {
            return Some(from_word.substring_char(0, width));
        }
        rest = from_word.substring_char(width, len - start);
        k += 1;
    }
}

/// The text before the first line feed: the whole text where it holds none.
pub open spec fn first_line(s: Seq<char>) -> Seq<char> {
    s.take(first_index_of(s, '\n'))
}

/// The first line of `s`, without its line feed.
pub fn leading_line<'a>(s: &'a str) -> (line: &'a str)
    ensures
        line@ == first_line(s@),
{
    let end: usize = find(s, '\n');
    s.substring_char(0, end)
}

/// Whether `a` and `b` hold the same characters.
pub fn same_text(a: &str, b: &str) -> (same: bool)
    ensures
        same == (a@ == b@),
{
    let left: String = a.to_owned();
    let right: String = b.to_owned();
    left == right
}

/// Whether `s` begins with `prefix`.
pub fn starts_with(s: &str, prefix: &str) -> (found: bool)
    ensures
        found == prefix@.is_prefix_of(s@),
{
    let len: usize = s.unicode_len();
    let width: usize = prefix.unicode_len();
    if len < width {
        false
    } else {
        same_text(s.substring_char(0, width), prefix)
    }
}

} // verus!
