//! The unified error type exposed to callers, covering every failure origin:
//! transport failures, structured API error payloads, configuration and
//! request-construction failures, and errors bubbled up from the API-request
//! layer above.

use vstd::prelude::*;

verus! {

/// Structured failure payload returned by the remote service in the body of a
/// failure-status response, carrying a human-readable message and a numeric
/// error code.
#[derive(Clone, Debug)]
pub struct ApiError {
    /// Raw bytes of the `Message` member of the payload, with JSON string
    /// escapes already resolved.
    pub message: Vec<u8>,
    /// Value of the `Code` member of the payload.
    pub code: u64,
}

/// One error type for all callers, regardless of where the failure arose.
///
/// Transport and construction errors terminate a call immediately; an
/// `Api` error is only ever produced after the failing response's body has
/// been read in full.
#[derive(Clone, Debug)]
pub enum Error {
    /// The remote service answered with a failure status and a well-formed
    /// structured error payload.
    Api { error: ApiError },
    /// Connection, TLS, timeout, malformed-response or body-read failure in
    /// the HTTP transport.
    Transport { message: String },
    /// The configured base endpoint is not a URI the transport accepts.
    Config { uri: String },
    /// The request could not be built: bad target URL or a multipart form
    /// that cannot be encoded.
    Construction { message: String },
    /// The remote service answered with a failure status but the body was
    /// not a structured error payload; the raw body is kept.
    Uncategorized { body: Vec<u8> },
    /// An error bubbled up from the API-request-definition layer above.
    Upstream { message: String },
}

impl From<ApiError> for Error {
    fn from(error: ApiError) -> (r: Error) {
        Error::Api { error }
    }
}

impl vstd::std_specs::convert::FromSpecImpl<ApiError> for Error {
    open spec fn obeys_from_spec() -> bool {
        true
    }

    open spec fn from_spec(error: ApiError) -> Error {
        Error::Api { error }
    }
}

impl Error {
    /// True exactly on the variants that report a transport-level failure.
    pub open spec fn spec_is_transport(&self) -> bool {
        self matches Error::Transport { .. }
    }

    /// Executable mirror of `spec_is_transport`.
    pub fn is_transport(&self) -> (r: bool)
        ensures
            r == self.spec_is_transport(),
    {
        match self {
            Error::Transport { .. } => true,
            _ => false,
        }
    }
}

} // verus!
