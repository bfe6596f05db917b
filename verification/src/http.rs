//! The data carried between the execution unit, the translator and the
//! notifier: response objects, outcome messages, stream signals and
//! telemetry events, together with the fixed error pages.
//!
//! All elapsed times are plain microsecond counts.

use vstd::prelude::*;
use vstd::string::StrSliceExecFns;
use vstd::string::StringSliceAdditionalSpecFns;

verus! {

/// An HTTP-shaped response: status code, header pairs and body bytes.
#[derive(Debug, PartialEq, Eq)]
pub struct Response {
    pub status: u16,
    pub headers: Vec<(String, String)>,
    pub body: Vec<u8>,
}

impl Response {
    /// A response with the given body, status 200 and no headers.
    pub fn from_body(body: Vec<u8>) -> (r: Response)
        ensures
            r.status == 200,
            r.headers@.len() == 0,
            r.body == body,
    {
        Response { status: 200, headers: Vec::new(), body }
    }
}

/// One fragment of a streamed response, ordered per stream.
#[derive(Debug, PartialEq, Eq)]
pub enum StreamResult {
    /// Announces the response metadata; no body bytes yet.
    Start(Response),
    /// One chunk of body payload.
    Data(Vec<u8>),
    /// Terminal signal, carrying the elapsed time in microseconds.
    Done(u128),
}

/// A message produced by the execution unit on the result channel.
#[derive(Debug, PartialEq, Eq)]
pub enum RunResult {
    /// A complete, buffered result with its optional elapsed time in
    /// microseconds.
    Response(Response, Option<u128>),
    /// One fragment of a streamed result.
    Stream(StreamResult),
    /// Execution exceeded its time budget.
    Timeout,
    /// Execution exceeded its memory budget.
    MemoryLimit,
    /// Execution failed with an application-level error.
    Error(String),
    /// No handler matched the request.
    NotFound,
}

/// The outcome reported to the event notifier, at most once per translation.
#[derive(Debug, PartialEq, Eq)]
pub enum ResponseEvent {
    /// Success: total body bytes and optional elapsed microseconds.
    Bytes(usize, Option<u128>),
    /// The stream finished without ever announcing a response.
    StreamDoneNoDataError,
    /// A non-stream message arrived after streaming mode was entered.
    UnexpectedStreamResult(RunResult),
    /// `Timeout` or `MemoryLimit`.
    LimitsReached(RunResult),
    /// `Error`.
    Error(RunResult),
}

/// Content of the fixed not-found page.
pub open spec fn spec_page_404() -> Seq<u8> {
    "404 Not Found".spec_bytes()
}

/// The fixed not-found page.
pub fn page_404() -> (r: Vec<u8>)
    ensures
        r@ == spec_page_404(),
{
    "404 Not Found".as_bytes_vec()
}

/// Content of the fixed forbidden page.
pub open spec fn spec_page_403() -> Seq<u8> {
    "403 Forbidden".spec_bytes()
}

/// The fixed forbidden page. Recognised content, not used by the
/// translation paths themselves.
pub fn page_403() -> (r: Vec<u8>)
    ensures
        r@ == spec_page_403(),
{
    "403 Forbidden".as_bytes_vec()
}

/// Content of the fixed bad-gateway page.
pub open spec fn spec_page_502() -> Seq<u8> {
    "502 Bad Gateway".spec_bytes()
}

/// The fixed bad-gateway page.
pub fn page_502() -> (r: Vec<u8>)
    ensures
        r@ == spec_page_502(),
{
    "502 Bad Gateway".as_bytes_vec()
}

/// Content of the fixed internal-error page.
pub open spec fn spec_page_500() -> Seq<u8> {
    "500 Internal Server Error".spec_bytes()
}

/// The fixed internal-error page.
pub fn page_500() -> (r: Vec<u8>)
    ensures
        r@ == spec_page_500(),
{
    "500 Internal Server Error".as_bytes_vec()
}

/// The well-known favicon path, recognised for the benefit of an external
/// router; the translation itself does not act on it.
pub fn favicon_url() -> (r: &'static str)
    ensures
        r@ == "/favicon.ico"@,
{
    "/favicon.ico"
}

} // verus!
