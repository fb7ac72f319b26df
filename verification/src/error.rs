//! The error type shared by every component of the runtime, and the
//! classification the retry engine applies to it.

use vstd::prelude::*;

use crate::plugin::PluginHook;

verus! {

/// Every failure the runtime reports. Payloads are plain values: errors of
/// outside collaborators arrive here as their rendered messages.
#[derive(Debug)]
pub enum ApiError {
    /// A connection- or protocol-level transport failure.
    Http(String),
    /// A response with a non-success status code.
    HttpStatus { status: u16 },
    /// A body could not be encoded or decoded.
    Serialization(String),
    /// A file-system failure.
    Io(String),
    Config(String),
    Plugin(String),
    Storage(String),
    Stream(String),
    /// A URL was rejected before any request was attempted.
    UrlParse(String),
    /// An attempt exceeded its deadline.
    Timeout,
    InvalidResponse,
    Authentication(String),
    /// The client's own pacing refused the request.
    RateLimit,
    /// A collected or stored stream grew past the configured maximum.
    SizeExceeded { size: u64, limit: u64 },
    /// An observer failed during hook dispatch; the failing observer's own
    /// error is carried verbatim as the cause.
    HookFailure { hook: PluginHook, plugin_name: String, cause: Box<ApiError> },
    Other(String),
}

impl ApiError {
    /// True exactly for the failures the retry engine may try again:
    /// transport errors, timeouts, and server-side status codes.
    pub open spec fn spec_retryable(&self) -> bool {
        match *self {
            ApiError::Http(_) => true,
            ApiError::Timeout => true,
            ApiError::HttpStatus { status } => 500 <= status <= 599,
            _ => false,
        }
    }

    pub fn is_retryable(&self) -> (r: bool)
        ensures
            r == self.spec_retryable(),
    {
        match self {
            ApiError::Http(_) => true,
            ApiError::Timeout => true,
            ApiError::HttpStatus { status } => 500 <= *status && *status <= 599,
            _ => false,
        }
    }

    /// True exactly for status-code failures in the client-error range,
    /// which the retry engine treats as terminal.
    pub open spec fn spec_client_error(&self) -> bool {
        match *self {
            ApiError::HttpStatus { status } => 400 <= status <= 499,
            _ => false,
        }
    }

    pub fn is_client_error(&self) -> (r: bool)
        ensures
            r == self.spec_client_error(),
    {
        match self {
            ApiError::HttpStatus { status } => 400 <= *status && *status <= 499,
            _ => false,
        }
    }

    pub fn config(msg: String) -> (r: ApiError)
        ensures
            r == ApiError::Config(msg),
    {
        ApiError::Config(msg)
    }

    pub fn plugin(msg: String) -> (r: ApiError)
        ensures
            r == ApiError::Plugin(msg),
    {
        ApiError::Plugin(msg)
    }

    pub fn storage(msg: String) -> (r: ApiError)
        ensures
            r == ApiError::Storage(msg),
    {
        ApiError::Storage(msg)
    }

    pub fn stream(msg: String) -> (r: ApiError)
        ensures
            r == ApiError::Stream(msg),
    {
        ApiError::Stream(msg)
    }

    pub fn other(msg: String) -> (r: ApiError)
        ensures
            r == ApiError::Other(msg),
    {
        ApiError::Other(msg)
    }
}

} // verus!
