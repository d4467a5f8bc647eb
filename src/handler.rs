//! The request handler's decisions: which requests reach a provider, and what
//! a lookup's outcome turns into.
use vstd::prelude::*;
use crate::path::{normalize_path, normalized};
use crate::provider::{served, Content, StaticProvider};

verus! {

/// A request's method, as far as serving content cares.
#[derive(PartialEq, Eq, Structural, Clone, Copy, Debug)]
pub enum Method {
    /// Retrieval.
    Get,
    /// Any other method; none of them is supported.
    Other,
}

/// The status of a response.
#[derive(PartialEq, Eq, Structural, Clone, Copy, Debug)]
pub enum Status {
    Success,
    NotFound,
    MethodNotAllowed,
    InternalError,
}

/// Why a lookup of the one-shot provider could not be answered: the task
/// that owns the registered sources is gone.
#[derive(PartialEq, Eq, Structural, Clone, Copy, Debug)]
pub struct ProviderLost;

/// The response to `method` on `uri` from a provider that serves `m`: the
/// content served, or the status of a response without it.
pub open spec fn response_spec(
    m: Map<Seq<char>, (Seq<char>, Seq<u8>)>,
    method: Method,
    uri: Seq<char>,
) -> Result<(Seq<char>, Seq<u8>), Status> {
    if method != Method::Get {
        Err(Status::MethodNotAllowed)
    } else if m.contains_key(normalized(uri)) {
        Ok(m[normalized(uri)])
    } else {
        Err(Status::NotFound)
    }
}

/// The key that a request looks up, or the status that refuses it before any
/// provider is asked.
pub fn request_key(method: Method, uri: &str) -> (r: Result<String, Status>)
    ensures
        method == Method::Get ==> (r matches Ok(k) && k@ == normalized(uri@)),
        method != Method::Get ==> r == Err::<String, Status>(Status::MethodNotAllowed),
{
    match method {
        Method::Get => Ok(normalize_path(uri)),
        Method::Other => Err(Status::MethodNotAllowed),
    }
}

/// Answers a request from an in-memory provider: the content to send with
/// status `Ok` and its MIME type, or the status of an empty response.
pub fn respond<'a, P: StaticProvider + ?Sized>(provider: &'a P, method: Method, uri: &str) -> (r: Result<
    &'a Content,
    Status,
>)
    requires
        provider.ready(),
    ensures
        r matches Ok(c) ==> response_spec(provider.serves(), method, uri@) == Ok::<
            (Seq<char>, Seq<u8>),
            Status,
        >(served(*c)),
        r matches Err(s) ==> response_spec(provider.serves(), method, uri@) == Err::<
            (Seq<char>, Seq<u8>),
            Status,
        >(s),
{
    match request_key(method, uri) {
        Ok(key) => match provider.get_content(key.as_str()) {
            Some(c) => Ok(c),
            None => Err(Status::NotFound),
        },
        Err(s) => Err(s),
    }
}

/// What a lookup of the one-shot provider turns into: a source to stream, or
/// the status of an empty response.
pub fn stream_reply<S>(found: Result<Option<S>, ProviderLost>) -> (r: Result<S, Status>)
    ensures
        found matches Ok(Some(s)) ==> r == Ok::<S, Status>(s),
        found matches Ok(None) ==> r == Err::<S, Status>(Status::NotFound),
        found is Err ==> r == Err::<S, Status>(Status::InternalError),
{
    match found {
        Ok(Some(s)) => Ok(s),
        Ok(None) => Err(Status::NotFound),
        Err(_) => Err(Status::InternalError),
    }
}

/// The status of a streamed response once its job was offered to the
/// workers: sent as soon as the job is accepted, an internal error if the
/// intake refused it.
pub fn enqueue_status(accepted: bool) -> (r: Status)
    ensures
        r == (if accepted {
            Status::Success
        } else {
            Status::InternalError
        }),
{
    if accepted {
        Status::Success
    } else {
        Status::InternalError
    }
}

/// A retrieval of a key that a provider does not serve is answered
/// `NotFound`; the answer depends on the provider's content alone, so asking
/// again gives the same answer.
pub proof fn lemma_absent_is_not_found(
    m: Map<Seq<char>, (Seq<char>, Seq<u8>)>,
    uri: Seq<char>,
)
    requires
        !m.contains_key(normalized(uri)),
    ensures
        response_spec(m, Method::Get, uri) == Err::<(Seq<char>, Seq<u8>), Status>(Status::NotFound),
{
}

} // verus!
