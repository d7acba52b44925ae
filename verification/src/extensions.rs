//! Session affinity as a request carries it.

use vstd::prelude::*;

verus! {

/// The key under which a request context holds the session id.
pub const SESSION_AFFINITY_CONTEXT_KEY: &'static str = "dynamo.llm.session_affinity";

/// The header that names a session.
pub const HEADER_DYNAMO_SESSION_ID: &'static str = "x-dynamo-session-id";

/// The id of a session that is to stay on one worker.
#[derive(Debug, Clone, PartialEq, Eq)]
pub struct SessionAffinityId(String);

impl View for SessionAffinityId {
    type V = Seq<char>;

    closed spec fn view(&self) -> Seq<char> {
        self.0@
    }
}

impl SessionAffinityId {
    /// The session with the given id.
    pub fn new(value: String) -> (id: SessionAffinityId)
        ensures
            id@ == value@,
    {
        SessionAffinityId(value)
    }

    /// The id.
    pub fn as_str(&self) -> (text: &str)
        ensures
            text@ == self@,
    {
        self.0.as_str()
    }
}

/// The session that a value names: none where there is no value or an empty one.
pub open spec fn named_session(value: Option<Seq<char>>) -> Option<Seq<char>> {
    match value {
        Some(text) if text.len() > 0 => Some(text),
        _ => None,
    }
}

/// The headers of a request. Only `http` looks inside them.
#[verifier::external_type_specification]
#[verifier::external_body]
#[verifier::reject_recursive_types(T)]
pub struct ExHeaderMap<T>(http::HeaderMap<T>);

/// The value of a header. Only `http` looks inside it.
#[verifier::external_type_specification]
#[verifier::external_body]
pub struct ExHeaderValue(http::HeaderValue);

/// The headers that hold text: for each name under which `http::HeaderMap::get` finds a value
/// of visible ASCII characters, spaces and tabs, those characters.
pub uninterp spec fn header_texts(headers: http::HeaderMap<http::HeaderValue>) -> Map<
    Seq<char>,
    Seq<char>,
>;

/// `http::HeaderMap::get` and, on what it finds, `http::HeaderValue::to_str`: the text of the
/// first header of that name, and nothing where there is none or where it holds anything but
/// visible ASCII characters, spaces and tabs.
#[verifier::external_body]
fn header_text(headers: &http::HeaderMap<http::HeaderValue>, name: &str) -> (text: Option<String>)
    ensures
        text is Some <==> header_texts(*headers).dom().contains(name@),
        text matches Some(found) ==> found@ == header_texts(*headers)[name@],
{
    headers.get(name).and_then(|value| value.to_str().ok()).map(|value| value.to_owned())
}

/// The text of a header, where there is one.
pub open spec fn header_named(
    headers: http::HeaderMap<http::HeaderValue>,
    name: Seq<char>,
) -> Option<Seq<char>> {
    if header_texts(headers).dom().contains(name) {
        Some(header_texts(headers)[name])
    } else {
        None
    }
}

/// The session that a value names.
pub fn session_named(value: Option<String>) -> (session: Option<SessionAffinityId>)
    ensures
        session matches Some(id) ==> named_session(value.deep_view()) == Some(id@),
        session is None ==> named_session(value.deep_view()) is None,
{
    match value {
        Some(text) => if text.as_str().is_empty() {
            None
        } else {
            Some(SessionAffinityId::new(text))
        },
        None => None,
    }
}

/// The session that the session header names.
pub fn session_affinity_from_headers(headers: &http::HeaderMap<http::HeaderValue>) -> (session:
    Option<SessionAffinityId>)
    ensures
        session matches Some(id) ==> named_session(
            header_named(*headers, HEADER_DYNAMO_SESSION_ID@),
        ) == Some(id@),
        session is None ==> named_session(header_named(*headers, HEADER_DYNAMO_SESSION_ID@)) is None,
{
    session_named(header_text(headers, HEADER_DYNAMO_SESSION_ID))
}

/// The session of a request: what its context holds, or else what its metadata names. The
/// metadata survives a hop to another process, the context does not.
pub fn session_affinity_from_context(
    typed: Option<SessionAffinityId>,
    metadata: Option<String>,
) -> (session: Option<SessionAffinityId>)
    ensures
        typed is Some ==> session == typed,
        typed is None ==> {
            &&& session matches Some(id) ==> named_session(metadata.deep_view()) == Some(id@)
            &&& session is None ==> named_session(metadata.deep_view()) is None
        },
{
    match typed {
        Some(id) => Some(id),
        None => session_named(metadata),
    }
}

} // verus!
