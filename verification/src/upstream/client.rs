//! What goes to an upstream, and how its answer is judged.
use crate::config::Backend;
use crate::text;
use bytes::Bytes;
use vstd::prelude::*;

verus! {

/// How many characters of an error response are kept.
pub const MAX_ERROR_BODY: usize = 2048;

/// Seconds allowed for connecting to an upstream. There is no limit on a whole
/// request: streams legitimately run for minutes, and stall detection is the
/// relay's job.
pub const CONNECT_TIMEOUT_SECS: u64 = 10;

/// Why an upstream gave no stream.
#[derive(Debug)]
pub enum UpstreamError {
    /// The request could not be made, or its answer not be read.
    Http(String),
    /// The upstream answered with a status other than 2xx.
    BadStatus { backend: String, status: u16, body: String },
}

/// A `POST` to an upstream.
pub struct UpstreamRequest {
    pub url: String,
    /// The `Content-Type` header.
    pub content_type: &'static str,
    /// The `Accept` header.
    pub accept: &'static str,
    /// The token of the `Authorization: Bearer` header, if there is one.
    pub bearer: Option<String>,
    pub body: Bytes,
}

/// Thin client for OpenAI-compatible upstreams.
#[derive(Debug, Clone, Copy)]
pub struct UpstreamClient {
    pub connect_timeout_secs: u64,
}

/// The status is a 2xx one.
pub open spec fn is_success_status(status: u16) -> bool {
    200 <= status < 300
}

impl UpstreamClient {
    pub fn new() -> (r: Self)
        ensures
            r.connect_timeout_secs == CONNECT_TIMEOUT_SECS,
    {
        UpstreamClient { connect_timeout_secs: CONNECT_TIMEOUT_SECS }
    }

    /// The request that posts `body` (the client's payload, forwarded verbatim)
    /// to `{base_url}{path}` with the backend's credentials.
    pub fn open_sse(&self, backend: &Backend, path: &str, body: Bytes) -> (r: UpstreamRequest)
        ensures
            r.url@ == backend.base_url@ + path@,
            r.content_type@ == "application/json"@,
            r.accept@ == "text/event-stream"@,
            r.bearer is Some <==> backend.api_key is Some,
            backend.api_key matches Some(key) ==> r.bearer->0@ == key@,
            r.body == body,
    {
        let mut url = backend.base_url.clone();
        url.append(path);
        let bearer = match &backend.api_key {
            Some(key) => Some(key.expose().to_owned()),
            None => None,
        };
        UpstreamRequest {
            url,
            content_type: "application/json",
            accept: "text/event-stream",
            bearer,
            body,
        }
    }

    /// Whether an answer with this status is a stream to relay. The body of any
    /// other answer is read for [`UpstreamClient::check_response`].
    pub fn is_success(&self, status: u16) -> (r: bool)
        ensures
            r == is_success_status(status),
    {
        200 <= status && status < 300
    }

    /// Judge an answer: a status other than 2xx is an error that carries the
    /// beginning of the body.
    pub fn check_response(&self, backend: &Backend, status: u16, body: &str) -> (r: Result<
        (),
        UpstreamError,
    >)
        ensures
            r is Ok <==> is_success_status(status),
            !is_success_status(status) ==> (r matches Err(
                UpstreamError::BadStatus { backend: name, status: code, body: kept },
            ) && name@ == backend.name@ && code == status && kept@ == body@.take(
                if body@.len() < MAX_ERROR_BODY {
                    body@.len() as int
                } else {
                    MAX_ERROR_BODY as int
                },
            )),
    {
        if self.is_success(status) {
            return Ok(());
        }
        Err(
            UpstreamError::BadStatus {
                backend: backend.name.clone(),
                status,
                body: text::truncate_chars(body, MAX_ERROR_BODY),
            },
        )
    }
}

/// The statuses that carry a stream are those from 200 to 299. Of an error body
/// 2048 characters are kept, and connecting may take ten seconds.
pub proof fn lemma_limits(status: u16)
    ensures
        is_success_status(status) <==> 200 <= status <= 299,
        MAX_ERROR_BODY == 2048,
        CONNECT_TIMEOUT_SECS == 10,
{
}

}
