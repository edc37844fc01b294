//! The decisions of the cache server on each request: the checks of the envelope (protocol
//! version and authentication), blob hash checks, the storage quota and
//! entry expiry.  The program runs the socket and the storage.
use vstd::prelude::*;
use crate::cache::entry::Timestamp;
use crate::cache::remote::protocol::{ErrorCode, RequestEnvelope, Response, PROTOCOL_VERSION};
use crate::server::auth::{auth_outcome, AuthResult, TokenValidator};
use crate::text::{decimal, push_decimal, push_str, string_of};

verus! {

/// Whether `c` is an ASCII hexadecimal digit.
pub open spec fn is_hex(c: char) -> bool {
    ('0' <= c && c <= '9') || ('a' <= c && c <= 'f') || ('A' <= c && c <= 'F')
}

/// Whether `hash` is safe as a blob's file name: not empty, and only
/// hexadecimal digits.
pub fn is_valid_hash(hash: &str) -> (b: bool)
    ensures
        b == (hash@.len() > 0 && forall|i: int| 0 <= i < hash@.len() ==> is_hex(#[trigger] hash@[i])),
{
    let c = crate::text::chars_of(hash);
    if c.len() == 0 {
        return false;
    }
    let mut i: usize = 0;
    while i < c.len()
        invariant
            i <= c@.len(),
            c@ == hash@,
            forall|j: int| 0 <= j < i ==> is_hex(#[trigger] c@[j]),
        decreases c@.len() - i,
    {
        let ch = c[i];
        if !(('0' <= ch && ch <= '9') || ('a' <= ch && ch <= 'f') || ('A' <= ch && ch <= 'F')) {
            assert(!is_hex(c@[i as int]));
            return false;
        }
        i = i + 1;
    }
    true
}

/// Whether `r` is the error `code` with the message `msg`.
pub open spec fn is_error_response(r: Response, code: ErrorCode, msg: Seq<char>) -> bool {
    r matches Response::Error { code: c, message: m } && c == code && m@ == msg
}

fn error_text(code: ErrorCode, text: &str) -> (r: Response)
    ensures
        is_error_response(r, code, text@),
{
    Response::error(code, crate::text::owned(text))
}

/// The error answered to a request envelope before it is handled, if any:
/// another protocol version, then a missing or unknown token.
pub fn check_envelope(envelope: &RequestEnvelope, auth: &TokenValidator) -> (r: Option<Response>)
    ensures
        envelope.version != PROTOCOL_VERSION ==> (r matches Some(e) && is_error_response(
            e,
            ErrorCode::VersionMismatch,
            "protocol version mismatch: expected "@ + decimal(PROTOCOL_VERSION as nat) + ", got "@
                + decimal(envelope.version as nat),
        )),
        envelope.version == PROTOCOL_VERSION ==> match auth_outcome(auth@, envelope.auth.token@) {
            AuthResult::Allowed => r is None,
            AuthResult::NoToken => r matches Some(e) && is_error_response(
                e,
                ErrorCode::AuthRequired,
                "authentication required"@,
            ),
            AuthResult::InvalidToken => r matches Some(e) && is_error_response(
                e,
                ErrorCode::AuthFailed,
                "invalid token"@,
            ),
        },
{
    if envelope.version != PROTOCOL_VERSION {
        let mut v: Vec<char> = Vec::new();
        push_str(&mut v, "protocol version mismatch: expected ");
        push_decimal(&mut v, PROTOCOL_VERSION as u64);
        push_str(&mut v, ", got ");
        push_decimal(&mut v, envelope.version as u64);
        return Some(Response::error(ErrorCode::VersionMismatch, string_of(&v)));
    }
    match auth.validate(&envelope.auth) {
        AuthResult::Allowed => None,
        AuthResult::NoToken => Some(error_text(ErrorCode::AuthRequired, "authentication required")),
        AuthResult::InvalidToken => Some(error_text(ErrorCode::AuthFailed, "invalid token")),
    }
}

/// The error answered to an entry pushed when the storage is full: the
/// stored size has reached the quota.
pub fn check_quota(max_storage_size: Option<u64>, current: u64) -> (r: Option<Response>)
    ensures
        (max_storage_size matches Some(m) && current >= m) ==> (r matches Some(e)
            && is_error_response(e, ErrorCode::StorageFull, "storage quota exceeded"@)),
        !(max_storage_size matches Some(m) && current >= m) ==> r is None,
{
    match max_storage_size {
        Some(m) => if current >= m {
            Some(error_text(ErrorCode::StorageFull, "storage quota exceeded"))
        } else {
            None
        },
        None => None,
    }
}

/// What to do with a pushed blob part.
#[derive(Debug, Clone, Copy, PartialEq, Eq, Structural)]
pub enum BlobPush {
    /// The hash is not a safe file name: refuse.
    Invalid,
    /// The part is the whole blob: store it.
    Store,
    /// A part of a larger blob: acknowledge without storing.
    Skip,
}

/// The decision on a pushed blob part of `len` bytes at `offset` of a blob
/// of `total` bytes.
pub fn blob_push(hash: &str, len: usize, offset: u64, total: u64) -> (d: BlobPush)
    ensures
        !(hash@.len() > 0 && forall|i: int| 0 <= i < hash@.len() ==> is_hex(#[trigger] hash@[i]))
            ==> d == BlobPush::Invalid,
        (hash@.len() > 0 && forall|i: int| 0 <= i < hash@.len() ==> is_hex(#[trigger] hash@[i]))
            ==> d == (if offset == 0 && len as u64 == total {
            BlobPush::Store
        } else {
            BlobPush::Skip
        }),
{
    if !is_valid_hash(hash) {
        BlobPush::Invalid
    } else if offset == 0 && len as u64 == total {
        BlobPush::Store
    } else {
        BlobPush::Skip
    }
}

/// Whether an entry created at `created` has outlived `ttl_secs` at the time
/// `now`: a time-to-live is set and the entry is strictly older (an entry
/// from the future never expires).
pub fn entry_expired(ttl_secs: Option<u64>, created: Timestamp, now: Timestamp) -> (b: bool)
    ensures
        b == (ttl_secs matches Some(t) && crate::admin::cache_gc::ts_nanos(now)
            >= crate::admin::cache_gc::ts_nanos(created) && crate::admin::cache_gc::age_nanos(now, created)
            > t * 1_000_000_000),
{
    match ttl_secs {
        Some(t) => {
            let n = crate::admin::cache_gc::timestamp_nanos(now);
            let c = crate::admin::cache_gc::timestamp_nanos(created);
            n >= c && n - c > (t as u128) * 1_000_000_000
        },
        None => false,
    }
}

} // verus!
