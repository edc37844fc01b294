//! Remote cache errors and how the client treats them.
use vstd::prelude::*;
use super::protocol::ErrorCode;
use crate::text::{decimal, fmt_u64, push_str, string_of};

verus! {

/// An error of the remote cache.
#[derive(Debug)]
pub enum RemoteCacheError {
    ConnectionFailed(String),
    /// Connecting took longer than this many milliseconds.
    ConnectionTimeout(u64),
    /// A request took longer than this many milliseconds.
    RequestTimeout(u64),
    AuthFailed(String),
    ServerError { code: ErrorCode, message: String },
    RateLimited(String),
    NetworkError(String),
    ProtocolError(String),
    InvalidResponse(String),
    Shutdown,
    BlobTransferFailed(String),
    ChecksumMismatch { hash: String, expected: String, actual: String },
    ConfigError(String),
}

/// Whether an error is transient, so that the request may be retried:
/// timeouts, network errors, rate limiting, and server errors with the
/// `ServerError` code.
pub open spec fn retryable(e: RemoteCacheError) -> bool {
    match e {
        RemoteCacheError::ConnectionTimeout(_) => true,
        RemoteCacheError::RequestTimeout(_) => true,
        RemoteCacheError::NetworkError(_) => true,
        RemoteCacheError::RateLimited(_) => true,
        RemoteCacheError::ServerError { code, .. } => code == ErrorCode::ServerError,
        _ => false,
    }
}

/// Whether an error rules out further use of the remote cache:
/// authentication and configuration failures, shutdown, and server errors
/// with the `AuthFailed` or `VersionMismatch` code.
pub open spec fn fatal(e: RemoteCacheError) -> bool {
    match e {
        RemoteCacheError::AuthFailed(_) => true,
        RemoteCacheError::ConfigError(_) => true,
        RemoteCacheError::Shutdown => true,
        RemoteCacheError::ServerError { code, .. } => code == ErrorCode::AuthFailed || code
            == ErrorCode::VersionMismatch,
        _ => false,
    }
}

impl RemoteCacheError {
    /// Whether the failed request may be retried.
    pub fn is_retryable(&self) -> (b: bool)
        ensures
            b == retryable(*self),
    {
        match self {
            RemoteCacheError::ConnectionTimeout(_) => true,
            RemoteCacheError::RequestTimeout(_) => true,
            RemoteCacheError::NetworkError(_) => true,
            RemoteCacheError::RateLimited(_) => true,
            RemoteCacheError::ServerError { code, .. } => match code {
                ErrorCode::ServerError => true,
                _ => false,
            },
            _ => false,
        }
    }

    /// Whether the error is fatal for the remote cache.
    pub fn is_fatal(&self) -> (b: bool)
        ensures
            b == fatal(*self),
    {
        match self {
            RemoteCacheError::AuthFailed(_) => true,
            RemoteCacheError::ConfigError(_) => true,
            RemoteCacheError::Shutdown => true,
            RemoteCacheError::ServerError { code, .. } => match code {
                ErrorCode::AuthFailed => true,
                ErrorCode::VersionMismatch => true,
                _ => false,
            },
            _ => false,
        }
    }

    /// The message this error displays.
    pub fn message(&self) -> (s: String)
        ensures
            s@ == match self {
                RemoteCacheError::ConnectionFailed(m) => "connection failed: "@ + m@,
                RemoteCacheError::ConnectionTimeout(n) => "connection timeout after "@ + decimal(
                    *n as nat,
                ) + "ms"@,
                RemoteCacheError::RequestTimeout(n) => "request timeout after "@ + decimal(
                    *n as nat,
                ) + "ms"@,
                RemoteCacheError::AuthFailed(m) => "authentication failed: "@ + m@,
                RemoteCacheError::ServerError { code, message } => "server error ("@ + code.name_spec()
                    + "): "@ + message@,
                RemoteCacheError::RateLimited(m) => "rate limited: "@ + m@,
                RemoteCacheError::NetworkError(m) => "network error: "@ + m@,
                RemoteCacheError::ProtocolError(m) => "protocol error: "@ + m@,
                RemoteCacheError::InvalidResponse(m) => "invalid response: "@ + m@,
                RemoteCacheError::Shutdown => "client shutdown"@,
                RemoteCacheError::BlobTransferFailed(m) => "blob transfer failed: "@ + m@,
                RemoteCacheError::ChecksumMismatch { hash, expected, actual } => "checksum mismatch for blob "@
                    + hash@ + ": expected "@ + expected@ + ", got "@ + actual@,
                RemoteCacheError::ConfigError(m) => "configuration error: "@ + m@,
            },
    {
        let mut v: Vec<char> = Vec::new();
        match self {
            RemoteCacheError::ConnectionFailed(m) => {
                push_str(&mut v, "connection failed: ");
                push_str(&mut v, m.as_str());
            },
            RemoteCacheError::ConnectionTimeout(n) => {
                push_str(&mut v, "connection timeout after ");
                let t = fmt_u64(*n);
                push_str(&mut v, t.as_str());
                push_str(&mut v, "ms");
            },
            RemoteCacheError::RequestTimeout(n) => {
                push_str(&mut v, "request timeout after ");
                let t = fmt_u64(*n);
                push_str(&mut v, t.as_str());
                push_str(&mut v, "ms");
            },
            RemoteCacheError::AuthFailed(m) => {
                push_str(&mut v, "authentication failed: ");
                push_str(&mut v, m.as_str());
            },
            RemoteCacheError::ServerError { code, message } => {
                push_str(&mut v, "server error (");
                push_str(&mut v, code.name());
                push_str(&mut v, "): ");
                push_str(&mut v, message.as_str());
            },
            RemoteCacheError::RateLimited(m) => {
                push_str(&mut v, "rate limited: ");
                push_str(&mut v, m.as_str());
            },
            RemoteCacheError::NetworkError(m) => {
                push_str(&mut v, "network error: ");
                push_str(&mut v, m.as_str());
            },
            RemoteCacheError::ProtocolError(m) => {
                push_str(&mut v, "protocol error: ");
                push_str(&mut v, m.as_str());
            },
            RemoteCacheError::InvalidResponse(m) => {
                push_str(&mut v, "invalid response: ");
                push_str(&mut v, m.as_str());
            },
            RemoteCacheError::Shutdown => {
                push_str(&mut v, "client shutdown");
            },
            RemoteCacheError::BlobTransferFailed(m) => {
                push_str(&mut v, "blob transfer failed: ");
                push_str(&mut v, m.as_str());
            },
            RemoteCacheError::ChecksumMismatch { hash, expected, actual } => {
                push_str(&mut v, "checksum mismatch for blob ");
                push_str(&mut v, hash.as_str());
                push_str(&mut v, ": expected ");
                push_str(&mut v, expected.as_str());
                push_str(&mut v, ", got ");
                push_str(&mut v, actual.as_str());
            },
            RemoteCacheError::ConfigError(m) => {
                push_str(&mut v, "configuration error: ");
                push_str(&mut v, m.as_str());
            },
        }
        string_of(&v)
    }
}

/// No error is both retryable and fatal: a request that failed fatally is
/// never retried.
pub proof fn law_retryable_not_fatal(e: RemoteCacheError)
    ensures
        !(retryable(e) && fatal(e)),
{
}

} // verus!
