//! The gateway's error kinds and the HTTP status of each.
use vstd::prelude::*;

verus! {

/// What went wrong while serving a request.
#[derive(Debug, Clone, PartialEq, Eq)]
pub enum ProxyError {
    /// The backend settings are missing or malformed.
    Config(String),
    /// A request or response could not be converted.
    Transform(String),
    /// The backend answered with a failure status.
    Upstream(String),
    /// A payload could not be encoded or decoded.
    Serialization(String),
    /// The backend could not be reached.
    Http(String),
    /// Anything else.
    Internal(String),
}

pub open spec fn status_of(e: ProxyError) -> u16 {
    match e {
        ProxyError::Config(_) => 500,
        ProxyError::Transform(_) => 400,
        ProxyError::Upstream(_) => 502,
        ProxyError::Serialization(_) => 400,
        ProxyError::Http(_) => 502,
        ProxyError::Internal(_) => 500,
    }
}

impl ProxyError {
    /// The HTTP status that answers this error.
    pub fn status_code(&self) -> (r: u16)
        ensures
            r == status_of(*self),
    {
        match self {
            ProxyError::Config(_) => 500,
            ProxyError::Transform(_) => 400,
            ProxyError::Upstream(_) => 502,
            ProxyError::Serialization(_) => 400,
            ProxyError::Http(_) => 502,
            ProxyError::Internal(_) => 500,
        }
    }
}

/// Result type for gateway operations.
pub type ProxyResult<T> = Result<T, ProxyError>;

} // verus!
