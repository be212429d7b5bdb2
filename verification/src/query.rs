//! Query strings: `key=value` items joined by `&`, collected into an ordered
//! mapping in which a key occurs once.

use crate::decode::{decode_value, decoded_value};
use crate::text::{
    find, first_index_of, joined, lemma_first_index_after, lemma_pieces_of_joined, pieces, same_text,
};
use vstd::prelude::*;
use vstd::string::*;

verus! {

/// Position of the first entry of `entries` whose key is `key`, or
/// `entries.len()` where no entry has that key.
pub open spec fn key_index(entries: Seq<(Seq<char>, Seq<char>)>, key: Seq<char>) -> int
    decreases entries.len(),
{
    if entries.len() > 0 && entries[0].0 != key {
        1 + key_index(entries.drop_first(), key)
    } else {
        0
    }
}

/// The value that `entries` holds for `key`.
pub open spec fn lookup(entries: Seq<(Seq<char>, Seq<char>)>, key: Seq<char>) -> Option<
    Seq<char>,
> {
    let at = key_index(entries, key);
    if 0 <= at < entries.len() {
        Some(entries[at].1)
    } else {
        None
    }
}

/// `entries` with `key` set to `value`: an entry that has the key keeps its
/// place and takes the new value, a new key goes to the end.
pub open spec fn assign(
    entries: Seq<(Seq<char>, Seq<char>)>,
    key: Seq<char>,
    value: Seq<char>,
) -> Seq<(Seq<char>, Seq<char>)> {
    let at = key_index(entries, key);
    if 0 <= at < entries.len() {
        entries.update(at, (key, value))
    } else {
        entries.push((key, value))
    }
}

/// No two entries share a key.
pub open spec fn distinct_keys(entries: Seq<(Seq<char>, Seq<char>)>) -> bool {
    forall|i: int, j: int|
        0 <= i < j < entries.len() ==> (#[trigger] entries[i]).0 != (#[trigger] entries[j]).0
}

/// An item read as a pair: the key before its first `=` and the raw value after
/// it. An item without `=` is no pair.
pub open spec fn split_pair(item: Seq<char>) -> Option<(Seq<char>, Seq<char>)> {
    let cut = first_index_of(item, '=');
    if 0 <= cut < item.len() {
        Some((item.take(cut), item.skip(cut + 1)))
    } else {
        None
    }
}

/// `entries` after one item: a pair sets its key to its decoded value, anything
/// else changes nothing.
pub open spec fn with_item(entries: Seq<(Seq<char>, Seq<char>)>, item: Seq<char>) -> Seq<
    (Seq<char>, Seq<char>),
> {
    match split_pair(item) {
        Some((key, raw)) => assign(entries, key, decoded_value(raw)),
        None => entries,
    }
}

/// `entries` after the items of `items`, taken in order.
pub open spec fn with_items(entries: Seq<(Seq<char>, Seq<char>)>, items: Seq<Seq<char>>) -> Seq<
    (Seq<char>, Seq<char>),
>
    decreases items.len(),
{
    if items.len() == 0 {
        entries
    } else {
        with_items(with_item(entries, items[0]), items.drop_first())
    }
}

/// The mapping that the query string `query` stands for.
pub open spec fn parsed_query(query: Seq<char>) -> Seq<(Seq<char>, Seq<char>)> {
    with_items(Seq::empty(), pieces(query, '&'))
}

/// `key_index` ends inside the entries, passes over other keys only, and stops
/// at the key.
pub proof fn lemma_key_index_bounds(entries: Seq<(Seq<char>, Seq<char>)>, key: Seq<char>)
    ensures
        0 <= key_index(entries, key) <= entries.len(),
        forall|j: int| 0 <= j < key_index(entries, key) ==> (#[trigger] entries[j]).0 != key,
        key_index(entries, key) < entries.len() ==> entries[key_index(entries, key)].0 == key,
    decreases entries.len(),
{
    if entries.len() > 0 && entries[0].0 != key {
        let rest = entries.drop_first();
        lemma_key_index_bounds(rest, key);
        assert forall|j: int| 0 <= j < key_index(entries, key) implies (#[trigger] entries[j]).0
            != key by {
            if j > 0 {
                assert(entries[j] == rest[j - 1]);
            }
        }
        if key_index(entries, key) < entries.len() {
            assert(entries[key_index(entries, key)] == rest[key_index(rest, key)]);
        }
    }
}

/// The only position with the properties of `lemma_key_index_bounds` is
/// `key_index` itself.
pub proof fn lemma_key_index_is(entries: Seq<(Seq<char>, Seq<char>)>, key: Seq<char>, at: int)
    requires
        0 <= at <= entries.len(),
        forall|j: int| 0 <= j < at ==> (#[trigger] entries[j]).0 != key,
        at < entries.len() ==> entries[at].0 == key,
    ensures
        key_index(entries, key) == at,
    decreases entries.len(),
{
    if at > 0 {
        let rest = entries.drop_first();
        assert(entries[0].0 != key);
        assert forall|j: int| 0 <= j < at - 1 implies (#[trigger] rest[j]).0 != key by {
            assert(rest[j] == entries[j + 1]);
        }
        if at - 1 < rest.len() {
            assert(rest[at - 1] == entries[at]);
        }
        lemma_key_index_is(rest, key, at - 1);
    }
}

/// Setting a key keeps the keys distinct.
pub proof fn lemma_assign_keeps_distinct(
    entries: Seq<(Seq<char>, Seq<char>)>,
    key: Seq<char>,
    value: Seq<char>,
)
    requires
        distinct_keys(entries),
    ensures
        distinct_keys(assign(entries, key, value)),
{
    lemma_key_index_bounds(entries, key);
    let after = assign(entries, key, value);
    let at = key_index(entries, key);
    assert forall|i: int, j: int| 0 <= i < j < after.len() implies (#[trigger] after[i]).0 != (
    #[trigger] after[j]).0 by {
        if at < entries.len() {
            assert(after[i].0 == entries[i].0);
            assert(after[j].0 == entries[j].0);
        } else if j < entries.len() {
            assert(after[i] == entries[i]);
            assert(after[j] == entries[j]);
        } else {
            assert(after[i] == entries[i]);
        }
    }
}

/// After `key` is set to `value`, looking `key` up gives `value`, and every
/// other key gives what it gave before.
pub proof fn lemma_lookup_after_assign(
    entries: Seq<(Seq<char>, Seq<char>)>,
    key: Seq<char>,
    value: Seq<char>,
    other: Seq<char>,
)
    ensures
        lookup(assign(entries, key, value), key) == Some(value),
        other != key ==> lookup(assign(entries, key, value), other) == lookup(entries, other),
{
    lemma_key_index_bounds(entries, key);
    lemma_key_index_bounds(entries, other);
    let after = assign(entries, key, value);
    let at = key_index(entries, key);
    assert forall|j: int| 0 <= j < at implies (#[trigger] after[j]).0 != key by {
        assert(after[j] == entries[j]);
    }
    lemma_key_index_is(after, key, at);
    if other != key {
        let at_other = key_index(entries, other);
        assert forall|j: int| 0 <= j < at_other implies (#[trigger] after[j]).0 != other by {
            assert(after[j].0 == entries[j].0);
        }
        if at_other < entries.len() {
            assert(after[at_other] == entries[at_other]);
            lemma_key_index_is(after, other, at_other);
        } else {
            lemma_key_index_is(after, other, after.len() as int);
        }
    }
}

/// The decoded value of the last pair among `items` whose key is `key`.
pub open spec fn last_value(items: Seq<Seq<char>>, key: Seq<char>) -> Option<Seq<char>>
    decreases items.len(),
{
    if items.len() == 0 {
        None
    } else {
        match split_pair(items.last()) {
            Some((k, raw)) => if k == key {
                Some(decoded_value(raw))
            } else {
                last_value(items.drop_last(), key)
            },
            None => last_value(items.drop_last(), key),
        }
    }
}

/// Taking one more item at the end is one more step after all the others.
pub proof fn lemma_with_items_push(
    entries: Seq<(Seq<char>, Seq<char>)>,
    items: Seq<Seq<char>>,
    item: Seq<char>,
)
    ensures
        with_items(entries, items.push(item)) == with_item(with_items(entries, items), item),
    decreases items.len(),
{
    let all = items.push(item);
    if items.len() == 0 {
        assert(all.drop_first() =~= items);
        assert(all[0] == item);
        assert(with_items(with_item(entries, item), all.drop_first()) == with_item(entries, item));
    } else {
        assert(all.drop_first() =~= items.drop_first().push(item));
        assert(all[0] == items[0]);
        lemma_with_items_push(with_item(entries, items[0]), items.drop_first(), item);
    }
}

/// Items leave the keys distinct.
pub proof fn lemma_with_items_keeps_distinct(
    entries: Seq<(Seq<char>, Seq<char>)>,
    items: Seq<Seq<char>>,
)
    requires
        distinct_keys(entries),
    ensures
        distinct_keys(with_items(entries, items)),
    decreases items.len(),
{
    if items.len() > 0 {
        match split_pair(items[0]) {
            Some((key, raw)) => lemma_assign_keeps_distinct(entries, key, decoded_value(raw)),
            None => {},
        }
        lemma_with_items_keeps_distinct(with_item(entries, items[0]), items.drop_first());
    }
}

/// After the items of `items`, a key holds the decoded value of the last pair
/// that names it; a key that no pair names holds what it held before.
pub proof fn lemma_lookup_after_items(
    entries: Seq<(Seq<char>, Seq<char>)>,
    items: Seq<Seq<char>>,
    key: Seq<char>,
)
    ensures
        lookup(with_items(entries, items), key) == match last_value(items, key) {
            Some(value) => Some(value),
            None => lookup(entries, key),
        },
    decreases items.len(),
{
    if items.len() > 0 {
        let earlier = items.drop_last();
        let item = items.last();
        assert(items =~= earlier.push(item));
        lemma_with_items_push(entries, earlier, item);
        lemma_lookup_after_items(entries, earlier, key);
        match split_pair(item) {
            Some((k, raw)) => {
                lemma_lookup_after_assign(with_items(entries, earlier), k, decoded_value(raw), key);
            },
            None => {},
        }
    }
}

/// Parsing a query string and looking a key up gives the decoded value of the
/// last `key=value` item with that key, and nothing where no item has it: items
/// without `=` add no key, and of several items with one key the last wins.
pub proof fn lemma_parse_then_lookup(query: Seq<char>, key: Seq<char>)
    ensures
        lookup(parsed_query(query), key) == last_value(pieces(query, '&'), key),
        distinct_keys(parsed_query(query)),
{
    let none = Seq::<(Seq<char>, Seq<char>)>::empty();
    lemma_lookup_after_items(none, pieces(query, '&'), key);
    lemma_with_items_keeps_distinct(none, pieces(query, '&'));
}

/// A pair written as a query item: the key, `=`, the raw value.
pub open spec fn item_text(pair: (Seq<char>, Seq<char>)) -> Seq<char> {
    pair.0 + seq!['='] + pair.1
}

/// The query string `k1=v1&k2=v2&...` of the pairs `(k1, v1), (k2, v2), ...`.
pub open spec fn query_text(pairs: Seq<(Seq<char>, Seq<char>)>) -> Seq<char> {
    joined(pairs.map_values(|pair: (Seq<char>, Seq<char>)| item_text(pair)), '&')
}

/// Pairs that can be written as a query string and told apart again: no key
/// holds `=` or `&`, no raw value holds `&`.
pub open spec fn writable(pairs: Seq<(Seq<char>, Seq<char>)>) -> bool {
    forall|j: int|
        0 <= j < pairs.len() ==> {
            &&& !(#[trigger] pairs[j]).0.contains('=')
            &&& !pairs[j].0.contains('&')
            &&& !pairs[j].1.contains('&')
        }
}

/// Among written pairs, the last value for a key is that of the last pair with
/// the key.
proof fn lemma_last_value_of_written(pairs: Seq<(Seq<char>, Seq<char>)>, i: int)
    requires
        0 <= i < pairs.len(),
        writable(pairs),
        forall|j: int| i < j < pairs.len() ==> (#[trigger] pairs[j]).0 != pairs[i].0,
    ensures
        last_value(
            pairs.map_values(|pair: (Seq<char>, Seq<char>)| item_text(pair)),
            pairs[i].0,
        ) == Some(decoded_value(pairs[i].1)),
    decreases pairs.len(),
{
    let items = pairs.map_values(|pair: (Seq<char>, Seq<char>)| item_text(pair));
    let last = pairs.last();
    assert(items.last() == item_text(last));
    lemma_first_index_after(last.0, '=', last.1);
    assert(split_pair(items.last()) == Some(last));
    if i < pairs.len() - 1 {
        let earlier = pairs.drop_last();
        assert(items.drop_last() =~= earlier.map_values(
            |pair: (Seq<char>, Seq<char>)| item_text(pair),
        ));
        assert forall|j: int| i < j < earlier.len() implies (#[trigger] earlier[j]).0
            != earlier[i].0 by {
            assert(earlier[j] == pairs[j]);
        }
        assert forall|j: int| 0 <= j < earlier.len() implies {
            &&& !(#[trigger] earlier[j]).0.contains('=')
            &&& !earlier[j].0.contains('&')
            &&& !earlier[j].1.contains('&')
        } by {
            assert(earlier[j] == pairs[j]);
        }
        lemma_last_value_of_written(earlier, i);
    }
}

/// A query string `k1=v1&k2=v2&...`, parsed, holds for each of its keys the
/// decoded value of the last pair with that key.
pub proof fn lemma_written_query_reads_back(pairs: Seq<(Seq<char>, Seq<char>)>, i: int)
    requires
        0 <= i < pairs.len(),
        writable(pairs),
        forall|j: int| i < j < pairs.len() ==> (#[trigger] pairs[j]).0 != pairs[i].0,
    ensures
        lookup(parsed_query(query_text(pairs)), pairs[i].0) == Some(decoded_value(pairs[i].1)),
{
    let items = pairs.map_values(|pair: (Seq<char>, Seq<char>)| item_text(pair));
    assert forall|j: int| 0 <= j < items.len() implies !(#[trigger] items[j]).contains('&') by {
        let pair = pairs[j];
        let text = item_text(pair);
        if text.contains('&') {
            let at = choose|at: int| 0 <= at < text.len() && text[at] == '&';
            if at < pair.0.len() {
                assert(pair.0[at] == '&');
                assert(pair.0.contains('&'));
            } else if at > pair.0.len() {
                assert(pair.1[at - pair.0.len() - 1] == '&');
                assert(pair.1.contains('&'));
            }
        }
    }
    lemma_pieces_of_joined(items, '&');
    lemma_parse_then_lookup(query_text(pairs), pairs[i].0);
    lemma_last_value_of_written(pairs, i);
}

/// One decoded query parameter.
#[derive(Debug, PartialEq, Eq)]
struct Entry {
    /// The key, as it stood in the query string.
    key: String,
    /// The value, percent-decoded.
    value: String,
}

/// The decoded parameters of one request, in the order in which their keys first
/// occurred.
#[derive(Debug, PartialEq, Eq)]
pub struct QueryParams {
    entries: Vec<Entry>,
}

impl View for QueryParams {
    type V = Seq<(Seq<char>, Seq<char>)>;

    closed spec fn view(&self) -> Seq<(Seq<char>, Seq<char>)> {
        Seq::new(self.entries@.len(), |i: int| (self.entries@[i].key@, self.entries@[i].value@))
    }
}

impl QueryParams {
    /// The invariant of the mapping: a key occurs once.
    pub open spec fn wf(&self) -> bool {
        distinct_keys(self@)
    }

    /// A mapping without entries.
    pub fn new() -> (params: QueryParams)
        ensures
            params@ == Seq::<(Seq<char>, Seq<char>)>::empty(),
            params.wf(),
    {
        let params = QueryParams { entries: Vec::new() };
        assert(params@ =~= Seq::<(Seq<char>, Seq<char>)>::empty());
        params
    }

    /// The number of entries.
    pub fn len(&self) -> (n: usize)
        ensures
            n == self@.len(),
    {
        self.entries.len()
    }

    /// The entry at position `at`, key first, where there is one.
    pub fn entry(&self, at: usize) -> (pair: Option<(&str, &str)>)
        ensures
            match pair {
                Some((key, value)) => at < self@.len() && self@[at as int] == (key@, value@),
                None => at >= self@.len(),
            },
    {
        if at < self.entries.len() {
            Some((self.entries[at].key.as_str(), self.entries[at].value.as_str()))
        } else {
            None
        }
    }

    /// The value held for `key`.
    pub fn get(&self, key: &str) -> (value: Option<&str>)
        ensures
            match value {
                Some(text) => lookup(self@, key@) == Some(text@),
                None => lookup(self@, key@) is None,
            },
    {
        let len: usize = self.entries.len();
        let mut i: usize = 0;
        while i < len && !same_text(self.entries[i].key.as_str(), key)
            invariant
                i <= len,
                len == self.entries@.len(),
                forall|j: int| 0 <= j < i ==> (#[trigger] self@[j]).0 != key@,
            decreases len - i,
        {
            i += 1;
        }
        proof {
            lemma_key_index_is(self@, key@, i as int);
        }
        if i < len {
            Some(self.entries[i].value.as_str())
        } else {
            None
        }
    }

    /// Sets `key` to `value`. A key that is present keeps its place and loses its
    /// earlier value.
    pub fn insert(&mut self, key: String, value: String)
        ensures
            final(self)@ == assign(old(self)@, key@, value@),
            old(self).wf() ==> final(self).wf(),
    {
        let len: usize = self.entries.len();
        let mut i: usize = 0;
        while i < len && !same_text(self.entries[i].key.as_str(), key.as_str())
            invariant
                i <= len,
                len == self.entries@.len(),
                *self == *old(self),
                forall|j: int| 0 <= j < i ==> (#[trigger] self@[j]).0 != key@,
            decreases len - i,
        {
            i += 1;
        }
        proof {
            lemma_key_index_is(self@, key@, i as int);
            if self.wf() {
                lemma_assign_keeps_distinct(self@, key@, value@);
            }
        }
        let ghost before = self@;
        let ghost k = key@;
        let ghost v = value@;
        if i < len {
            self.entries.set(i, Entry { key, value });
            assert(self@ =~= before.update(i as int, (k, v)));
        } else {
            self.entries.push(Entry { key, value });
            assert(self@ =~= before.push((k, v)));
        }
    }
}

/// Splits a query item at its first `=`.
pub fn split_item<'a>(item: &'a str) -> (pair: Option<(&'a str, &'a str)>)
    ensures
        match pair {
            Some((key, raw)) => split_pair(item@) == Some((key@, raw@)),
            None => split_pair(item@) is None,
        },
{
    let len: usize = item.unicode_len();
    let cut: usize = find(item, '=');
    if cut < len {
        Some((item.substring_char(0, cut), item.substring_char(cut + 1, len)))
    } else {
        None
    }
}

/// Parses a query string: the text after the `?` of a request target.
pub fn parse_query(query: &str) -> (params: QueryParams)
    ensures
        params@ == parsed_query(query@),
        params.wf(),
{
    let mut params = QueryParams::new();
    let mut rest: &str = query;
    loop
        invariant
            params.wf(),
            with_items(params@, pieces(rest@, '&')) == parsed_query(query@),
        decreases rest@.len(),
    {
        let len: usize = rest.unicode_len();
        let cut: usize = find(rest, '&');
        let item: &str = rest.substring_char(0, cut);
        let ghost before = params@;
        match split_item(item) {
            Some((key, raw)) => {
                params.insert(key.to_owned(), decode_value(raw));
            },
            None => {},
        }
        assert(params@ == with_item(before, item@));
        if cut == len {
            proof {
                let items = pieces(rest@, '&');
                assert(item@ == rest@);
                assert(items.drop_first().len() == 0);
                assert(with_items(before, items) == with_items(
                    with_item(before, items[0]),
                    items.drop_first(),
                ));
            }
            return params;
        }
        proof {
            assert(pieces(rest@, '&').drop_first() == pieces(rest@.skip(cut + 1), '&'));
        }
        rest = rest.substring_char(cut + 1, len);
    }
}

} // verus!
