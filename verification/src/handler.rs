//! What to do with one accepted connection: given the bytes that were read,
//! whether to answer, and which event to publish before answering.

use crate::query::{lookup, parse_query, parsed_query, QueryParams};
use crate::request::{
    extract_provider, is_callback, is_spaceless, is_word, lemma_request_words_of_line,
    lemma_segment_of_callback, parse_request_line, path_part, provider_of, query_of, query_part,
    request_words, under_callback,
};
use crate::text::{is_whitespace, lemma_first_index_after, nth_piece};
use vstd::prelude::*;
use vstd::string::*;
use vstd::utf8::{decode_utf8, valid_utf8};

verus! {

/// The most bytes that are read from a connection.
pub const READ_LIMIT: usize = 1024;

/// The name under which a captured redirect is published.
pub fn event_name() -> (name: &'static str)
    ensures
        name@ == "oauth-callback"@,
{
    "oauth-callback"
}

/// What a redirect carried: the provider from the path, and of the query
/// parameters the four that an authorization response can hold.
#[derive(Debug, PartialEq, Eq)]
pub struct CallbackPayload {
    /// The provider that the request path names.
    pub provider: String,
    /// The authorization code.
    pub code: Option<String>,
    /// The state that the application sent along.
    pub state: Option<String>,
    /// The error code, where the provider refused.
    pub error: Option<String>,
    /// The provider's words on that error.
    pub error_description: Option<String>,
}

/// A `CallbackPayload` as plain text values.
pub struct PayloadModel {
    pub provider: Seq<char>,
    pub code: Option<Seq<char>>,
    pub state: Option<Seq<char>>,
    pub error: Option<Seq<char>>,
    pub error_description: Option<Seq<char>>,
}

/// The characters of an optional text.
pub open spec fn text_view(text: Option<String>) -> Option<Seq<char>> {
    match text {
        Some(t) => Some(t@),
        None => None,
    }
}

impl View for CallbackPayload {
    type V = PayloadModel;

    open spec fn view(&self) -> PayloadModel {
        PayloadModel {
            provider: self.provider@,
            code: text_view(self.code),
            state: text_view(self.state),
            error: text_view(self.error),
            error_description: text_view(self.error_description),
        }
    }
}

/// The payload for a provider and the parameters of a query.
pub open spec fn payload_of(
    provider: Seq<char>,
    params: Seq<(Seq<char>, Seq<char>)>,
) -> PayloadModel {
    PayloadModel {
        provider,
        code: lookup(params, "code"@),
        state: lookup(params, "state"@),
        error: lookup(params, "error"@),
        error_description: lookup(params, "error_description"@),
    }
}

/// The event that a request target gives rise to: one for a target under
/// `/callback/` that has a query, none for any other.
pub open spec fn callback_of(target: Seq<char>) -> Option<PayloadModel> {
    if is_callback(target) {
        match query_part(target) {
            Some(query) => Some(payload_of(provider_of(target), parsed_query(query))),
            None => None,
        }
    } else {
        None
    }
}

/// How a connection is dealt with.
#[derive(Debug, PartialEq, Eq)]
pub enum Outcome {
    /// Nothing is written; the connection is closed as it is.
    NoResponse,
    /// The confirmation page is written. Where `event` holds a payload, it is
    /// published first.
    Respond { event: Option<CallbackPayload> },
}

/// An `Outcome` as plain values.
pub enum OutcomeModel {
    NoResponse,
    Respond { event: Option<PayloadModel> },
}

impl View for Outcome {
    type V = OutcomeModel;

    open spec fn view(&self) -> OutcomeModel {
        match self {
            Outcome::NoResponse => OutcomeModel::NoResponse,
            Outcome::Respond { event } => OutcomeModel::Respond {
                event: match event {
                    Some(payload) => Some(payload@),
                    None => None,
                },
            },
        }
    }
}

/// The outcome for a request text: no response unless its first line has a
/// method and a target; else the response, with the event of the target.
pub open spec fn outcome_of(text: Seq<char>) -> OutcomeModel {
    match request_words(text) {
        Some((_, target)) => OutcomeModel::Respond { event: callback_of(target) },
        None => OutcomeModel::NoResponse,
    }
}

/// The text that `String::from_utf8_lossy` makes of `bytes`.
pub uninterp spec fn lossy_text(bytes: Seq<u8>) -> Seq<char>;

/// Calls `String::from_utf8_lossy`. Trusted, not proved: the result is the one
/// that `lossy_text` names, and bytes that are UTF-8 give the text they encode.
#[verifier::external_body]
pub(crate) fn text_of(bytes: &[u8]) -> (text: String)
    ensures
        text@ == lossy_text(bytes@),
        valid_utf8(bytes@) ==> text@ == decode_utf8(bytes@),
{
    String::from_utf8_lossy(bytes).into_owned()
}

/// An owned copy of the value that `params` holds for `key`.
fn param(params: &QueryParams, key: &str) -> (value: Option<String>)
    ensures
        text_view(value) == lookup(params@, key@),
{
    match params.get(key) {
        Some(text) => Some(text.to_owned()),
        None => None,
    }
}

/// Builds the payload for `provider` from the parameters of a query.
pub fn build_payload(provider: String, params: &QueryParams) -> (payload: CallbackPayload)
    ensures
        payload@ == payload_of(provider@, params@),
{
    CallbackPayload {
        provider,
        code: param(params, "code"),
        state: param(params, "state"),
        error: param(params, "error"),
        error_description: param(params, "error_description"),
    }
}

/// The event to publish for a request target, if any.
pub fn callback_event(target: &str) -> (event: Option<CallbackPayload>)
    ensures
        match event {
            Some(payload) => callback_of(target@) == Some(payload@),
            None => callback_of(target@) is None,
        },
{
    if !under_callback(target) {
        return None;
    }
    match query_of(target) {
        Some(query) => {
            let params = parse_query(query);
            Some(build_payload(extract_provider(target), &params))
        },
        None => None,
    }
}

/// Decides what to do with a request that was read as text.
pub fn handle_text(text: &str) -> (outcome: Outcome)
    ensures
        outcome@ == outcome_of(text@),
{
    match parse_request_line(text) {
        Some(line) => Outcome::Respond { event: callback_event(line.target.as_str()) },
        None => Outcome::NoResponse,
    }
}

/// Decides what to do with the bytes that one read from a connection gave.
/// Bytes that are not UTF-8 are read as `String::from_utf8_lossy` reads them.
/// An empty read gets no response.
pub fn handle_request(bytes: &[u8]) -> (outcome: Outcome)
    ensures
        outcome@ == outcome_of(lossy_text(bytes@)),
        valid_utf8(bytes@) ==> outcome@ == outcome_of(decode_utf8(bytes@)),
        bytes@.len() == 0 ==> outcome@ == OutcomeModel::NoResponse,
{
    let text: String = text_of(bytes);
    handle_text(text.as_str())
}

/// An event is published for a target under `/callback/` that has a query, and
/// for no other.
pub proof fn lemma_event_iff_callback(target: Seq<char>)
    ensures
        callback_of(target) is Some <==> is_callback(target) && query_part(target) is Some,
        callback_of(target) is Some ==> callback_of(target)->0.provider == provider_of(target),
{
}

/// A request is answered exactly when its first line has a method and a
/// target, whatever the target is and whether or not an event is published.
pub proof fn lemma_response_iff_request_line(text: Seq<char>)
    ensures
        outcome_of(text) is Respond <==> request_words(text) is Some,
        request_words(text) is None ==> outcome_of(text) == OutcomeModel::NoResponse,
{
}

/// The target of a redirect to `provider` that carries `query`.
pub open spec fn callback_target(provider: Seq<char>, query: Seq<char>) -> Seq<char> {
    "/callback/"@ + provider + seq!['?'] + query
}

/// A request for `/callback/<segment>?<query>` is answered, and the event
/// published for it holds the provider of that target and the parameters of
/// that query.
proof fn lemma_request_under_callback(
    method: Seq<char>,
    segment: Seq<char>,
    query: Seq<char>,
    tail: Seq<char>,
)
    requires
        is_word(method),
        is_spaceless(segment),
        is_spaceless(query),
        !segment.contains('/'),
        !segment.contains('?'),
        tail.len() == 0 || is_whitespace(tail[0]),
    ensures
        outcome_of(method + seq![' '] + callback_target(segment, query) + tail)
            == (OutcomeModel::Respond {
            event: Some(
                payload_of(provider_of(callback_target(segment, query)), parsed_query(query)),
            ),
        }),
        nth_piece(path_part(callback_target(segment, query)), '/', 2) == Some(segment),
{
    reveal_strlit("/callback/");
    let prefix = "/callback/"@;
    let target = callback_target(segment, query);
    let path = prefix + segment;
    assert(!is_whitespace('/') && !is_whitespace('?') && !is_whitespace('c') && !is_whitespace('a')
        && !is_whitespace('l') && !is_whitespace('b') && !is_whitespace('k'));
    assert forall|i: int| 0 <= i < target.len() implies !is_whitespace(#[trigger] target[i]) by {
        if i < 10 {
            assert(target[i] == prefix[i]);
        } else if i < 10 + segment.len() {
            assert(target[i] == segment[i - 10]);
        } else if i > 10 + segment.len() {
            assert(target[i] == query[i - 11 - segment.len()]);
        }
    }
    lemma_request_words_of_line(method, target, tail);

    assert(target =~= prefix + segment + (seq!['?'] + query));
    lemma_segment_of_callback(segment, seq!['?'] + query);

    if path.contains('?') {
        let at = choose|at: int| 0 <= at < path.len() && path[at] == '?';
        if at < 10 {
            assert(path[at] == prefix[at]);
        } else {
            assert(path[at] == segment[at - 10]);
            assert(segment.contains(segment[at - 10]));
        }
    }
    lemma_first_index_after(path, '?', query);
    assert(target =~= path + seq!['?'] + query);
}

/// A request for `/callback/<provider>?<query>` is answered, and the event
/// published for it holds that provider and the parameters of that query.
pub proof fn lemma_callback_request(
    method: Seq<char>,
    provider: Seq<char>,
    query: Seq<char>,
    tail: Seq<char>,
)
    requires
        is_word(method),
        is_word(provider),
        is_spaceless(query),
        !provider.contains('/'),
        !provider.contains('?'),
        tail.len() == 0 || is_whitespace(tail[0]),
    ensures
        outcome_of(method + seq![' '] + callback_target(provider, query) + tail)
            == (OutcomeModel::Respond {
            event: Some(payload_of(provider, parsed_query(query))),
        }),
{
    lemma_request_under_callback(method, provider, query, tail);
}

/// A request for `/callback/?<query>`, where no segment follows the prefix, is
/// answered, and the event published for it holds the provider `unknown` and
/// the parameters of that query.
pub proof fn lemma_bare_callback_request(method: Seq<char>, query: Seq<char>, tail: Seq<char>)
    requires
        is_word(method),
        is_spaceless(query),
        tail.len() == 0 || is_whitespace(tail[0]),
    ensures
        outcome_of(method + seq![' '] + callback_target(Seq::empty(), query) + tail)
            == (OutcomeModel::Respond {
            event: Some(payload_of("unknown"@, parsed_query(query))),
        }),
{
    lemma_request_under_callback(method, Seq::empty(), query, tail);
}

/// A request for a target that is not under `/callback/`, or that has no
/// query, is answered and publishes nothing.
pub proof fn lemma_other_request(method: Seq<char>, target: Seq<char>, tail: Seq<char>)
    requires
        is_word(method),
        is_word(target),
        tail.len() == 0 || is_whitespace(tail[0]),
        !is_callback(target) || query_part(target) is None,
    ensures
        outcome_of(method + seq![' '] + target + tail) == (OutcomeModel::Respond { event: None }),
{
    lemma_request_words_of_line(method, target, tail);
}

/// The status line and the blank line that ends the headers.
pub open spec fn response_head() -> Seq<char> {
    "HTTP/1.1 200 OK\r\n\r\n"@
}

/// The page that tells the user that the flow is complete, and closes the window.
pub open spec fn response_page() -> Seq<char> {
    "<html><body><h1>认证完成</h1><p>您可以关闭此窗口</p><script>window.close();</script></body></html>"@
}

/// The response that every request with a readable request line gets.
pub fn confirmation_response() -> (response: String)
    ensures
        response@ == response_head() + response_page(),
{
    let head: String = "HTTP/1.1 200 OK\r\n\r\n".to_owned();
    head.concat(
        "<html><body><h1>认证完成</h1><p>您可以关闭此窗口</p><script>window.close();</script></body></html>",
    )
}

} // verus!
