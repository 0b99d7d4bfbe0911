//! The gateway's error taxonomy.
//!
//! Every request-time failure is one of these values; the HTTP shell turns
//! each into a plain-text 500 response carrying [`AppError::message`].
//! Start-up failures (configuration, bind) are fatal instead.

use vstd::prelude::*;
use vstd::string::StringExecFns;

use crate::response::RpcResponseError;

verus! {

/// One error kind per failure condition the gateway distinguishes.
#[derive(Debug)]
pub enum AppError {
    /// A required environment value is missing or unreadable.
    EnvVar(String),
    /// The listen address does not parse.
    InvalidAddr(String),
    /// The listen address cannot be taken.
    Bind,
    /// The backend socket cannot be opened: the backend is unreachable.
    SocketConnect(String),
    /// I/O failed after the connection was open: a transport error.
    Socket(String),
    /// A required query parameter is absent.
    Params,
    /// The requested user id has no key in the registry.
    SessionNotFound(String),
    /// The response bytes are not a well-formed envelope.
    BackendInvalidResponse(String),
    /// The backend answered with a well-formed error object.
    RpcResponse(RpcResponseError),
    /// The session store failed.
    Database(String),
    /// Anything else.
    OtherInternal,
}

/// The display text of each error, one line, detail appended.
pub open spec fn message_spec(e: AppError) -> Seq<char> {
    match e {
        AppError::EnvVar(s) => "failed to load an environmental variable: "@ + s@,
        AppError::InvalidAddr(s) => "invalid address: "@ + s@,
        AppError::Bind => "could not bind to the address"@,
        AppError::SocketConnect(s) => "could not connect to the backend. is it running?: "@ + s@,
        AppError::Socket(s) => "socket error: "@ + s@,
        AppError::Params => "invalid parameters"@,
        AppError::SessionNotFound(s) => "session key not found for user: "@ + s@,
        AppError::BackendInvalidResponse(s) => "invalid response from backend: "@ + s@,
        AppError::RpcResponse(err) => "error response from backend: "@ + err.message@,
        AppError::Database(s) => "database error: "@ + s@,
        AppError::OtherInternal => "other error"@,
    }
}

impl AppError {
    /// The text a handler reports for this error.
    pub fn message(&self) -> (m: String)
        ensures
            m@ == message_spec(*self),
    {
        match self {
            AppError::EnvVar(s) => String::from_str(
                "failed to load an environmental variable: ",
            ).concat(s.as_str()),
            AppError::InvalidAddr(s) => String::from_str("invalid address: ").concat(s.as_str()),
            AppError::Bind => String::from_str("could not bind to the address"),
            AppError::SocketConnect(s) => String::from_str(
                "could not connect to the backend. is it running?: ",
            ).concat(s.as_str()),
            AppError::Socket(s) => String::from_str("socket error: ").concat(s.as_str()),
            AppError::Params => String::from_str("invalid parameters"),
            AppError::SessionNotFound(s) => String::from_str(
                "session key not found for user: ",
            ).concat(s.as_str()),
            AppError::BackendInvalidResponse(s) => String::from_str(
                "invalid response from backend: ",
            ).concat(s.as_str()),
            AppError::RpcResponse(err) => String::from_str(
                "error response from backend: ",
            ).concat(err.message.as_str()),
            AppError::Database(s) => String::from_str("database error: ").concat(s.as_str()),
            AppError::OtherInternal => String::from_str("other error"),
        }
    }
}

/// The transport channel's failure policy: a failure while opening the
/// connection means the backend is unreachable; a failure after that is a
/// transport error. The two are never confused.
pub fn classify_transport_failure(while_connecting: bool, detail: String) -> (e: AppError)
    ensures
        while_connecting ==> (e matches AppError::SocketConnect(d) && d@ == detail@),
        !while_connecting ==> (e matches AppError::Socket(d) && d@ == detail@),
{
    if while_connecting {
        AppError::SocketConnect(detail)
    } else {
        AppError::Socket(detail)
    }
}

} // verus!
