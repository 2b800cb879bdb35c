use vstd::prelude::*;
use crate::db::{check_db_connection, connection_check_log, DbPool, SqlRequest};

verus! {

#[verifier::external_type_specification]
#[verifier::external_body]
pub struct ExRequestError(reqwest::Error);

/// The answer to the frontend's ping.
#[derive(Debug, Clone)]
pub struct PingResponse {
    pub message: String,
    pub db_ok: bool,
}

/// The reply to a ping, given whether the database answered.
pub fn ping_response(db_ok: bool) -> (r: PingResponse)
    ensures
        r.message@ == "pong"@,
        r.db_ok == db_ok,
{
    PingResponse { message: "pong".to_owned(), db_ok }
}

/// Answers the frontend's ping: "pong", and whether a pooled database
/// connection answers a trivial query (`check_db_connection`), with what
/// that check sent.
pub fn ping(pool: &DbPool) -> (r: (PingResponse, Ghost<Seq<SqlRequest>>))
    ensures
        r.0.message@ == "pong"@,
        connection_check_log(r.1@, r.0.db_ok),
{
    let (db_ok, sent) = check_db_connection(pool);
    (ping_response(db_ok), sent)
}

/// The backend's own answer to `GET /health`.
#[derive(Debug, Clone)]
pub struct SidecarHealth {
    pub status: String,
}

/// The health of the backend, as reported to the frontend.
#[derive(Debug, Clone)]
pub struct SidecarHealthResponse {
    pub status: String,
}

/// Why the backend's health could not be read.
#[derive(Debug)]
pub enum SidecarHealthError {
    /// The backend is not running yet (no port handshake observed), or is
    /// being restarted.
    NotRunning,
    /// The request to the backend failed.
    Request(reqwest::Error),
}

/// What the frontend is told while the backend is not running.
pub const NOT_RUNNING_MESSAGE: &'static str =
    "sidecar is not running yet (no port handshake observed)";

/// The start of what the frontend is told when the request failed; the
/// request's own error follows.
pub const REQUEST_FAILED_PREFIX: &'static str = "request to the sidecar failed: ";

/// Calls `reqwest::Error`'s `Display` through `to_string`. Nothing is
/// claimed of the text.
#[verifier::external_body]
fn request_error_text(e: &reqwest::Error) -> (text: String) {
    e.to_string()
}

impl SidecarHealthError {
    /// The message that the frontend is given for this error.
    pub fn message(&self) -> (m: String)
        ensures
            self is NotRunning ==> m@ == NOT_RUNNING_MESSAGE@,
            self is Request ==> m@.len() >= REQUEST_FAILED_PREFIX@.len() && m@.take(
                REQUEST_FAILED_PREFIX@.len() as int,
            ) == REQUEST_FAILED_PREFIX@,
    {
        match self {
            SidecarHealthError::NotRunning => NOT_RUNNING_MESSAGE.to_owned(),
            SidecarHealthError::Request(e) => {
                let text = request_error_text(e);
                let m = REQUEST_FAILED_PREFIX.to_owned().concat(text.as_str());
                assert(m@.take(REQUEST_FAILED_PREFIX@.len() as int) =~= REQUEST_FAILED_PREFIX@);
                m
            },
        }
    }
}

/// The path of the backend's health endpoint.
pub const HEALTH_PATH: &'static str = "/health";

/// The URL of the backend's health endpoint, given the base URL recorded
/// for it: `NotRunning` while no base URL is recorded.
pub fn health_url(base_url: Option<String>) -> (r: Result<String, SidecarHealthError>)
    ensures
        base_url is None <==> (r matches Err(e) && e is NotRunning),
        base_url matches Some(base) ==> r matches Ok(url) && url@ == base@ + HEALTH_PATH@,
{
    match base_url {
        Some(base) => Ok(base.concat(HEALTH_PATH)),
        None => Err(SidecarHealthError::NotRunning),
    }
}

/// The frontend's view of the backend's health answer.
pub fn health_response(health: SidecarHealth) -> (r: SidecarHealthResponse)
    ensures
        r.status == health.status,
{
    SidecarHealthResponse { status: health.status }
}

} // verus!
