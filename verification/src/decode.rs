//! Percent-decoding of query values.

use vstd::prelude::*;

verus! {

/// The result of `urlencoding::decode` on `value`: the decoded text, or `None`
/// where the decoded bytes are not UTF-8.
pub uninterp spec fn percent_decoded(value: Seq<char>) -> Option<Seq<char>>;

/// Calls `urlencoding::decode`. Trusted, not proved: the result is the one that
/// `percent_decoded` names, and a text that holds no `%` comes back as it is.
#[verifier::external_body]
pub(crate) fn percent_decode(value: &str) -> (decoded: Option<String>)
    ensures
        match decoded {
            Some(text) => percent_decoded(value@) == Some(text@),
            None => percent_decoded(value@) is None,
        },
        !value@.contains('%') ==> decoded is Some && decoded->0@ == value@,
{
    match urlencoding::decode(value) {
        Ok(text) => Some(text.into_owned()),
        Err(_) => None,
    }
}

/// The text a decoding attempt stands for: the decoded text, or the empty text
/// where decoding failed.
pub open spec fn text_or_empty(decoded: Option<Seq<char>>) -> Seq<char> {
    match decoded {
        Some(text) => text,
        None => Seq::empty(),
    }
}

/// The value that a raw query value stands for: the raw value itself where it
/// holds no `%`, else what decoding makes of it.
pub open spec fn decoded_value(raw: Seq<char>) -> Seq<char> {
    if raw.contains('%') {
        text_or_empty(percent_decoded(raw))
    } else {
        raw
    }
}

/// Settles a decoding attempt: a failed one yields the empty text, never an error.
pub fn decoded_or_empty(decoded: Option<String>) -> (text: String)
    ensures
        text@ == text_or_empty(
            match decoded {
                Some(t) => Some(t@),
                None => None,
            },
        ),
{
    match decoded {
        Some(text) => text,
        None => String::new(),
    }
}

/// Percent-decodes a raw query value; a value that cannot be decoded becomes
/// the empty text.
pub fn decode_value(raw: &str) -> (text: String)
    ensures
        text@ == decoded_value(raw@),
{
    decoded_or_empty(percent_decode(raw))
}

} // verus!
