//! Conditional requests: when a precondition fails, and when a cached copy
//! is still fresh.

use vstd::prelude::*;
use crate::http::headers::EntityTag;
use crate::server::Request;

verus! {

/// Whether `If-Match` or, in its absence, `If-Unmodified-Since` rejects the
/// validator pair.
///
/// `If-Match` rejects unless it matches `etag` by strong comparison.  Only
/// when there is no `If-Match` does `If-Unmodified-Since` count, and it
/// rejects when the resource was modified after its date.
pub open spec fn validators_rejected(req: &Request, etag: (bool, Seq<u8>), last_modified: u64) -> bool {
    match req.if_match {
        Some(condition) => !condition.strong_matches(etag),
        None => match req.if_unmodified_since {
            Some(since) => last_modified > since,
            None => false,
        },
    }
}

/// Whether `If-None-Match` forbids a request that is neither `GET` nor
/// `HEAD`: the field is there and matches `etag` by weak comparison.
pub open spec fn none_match_rejected(req: &Request, etag: (bool, Seq<u8>)) -> bool {
    match req.if_none_match {
        Some(condition) => !req.reads() && condition.weak_matches(etag),
        None => false,
    }
}

/// When the preconditions of a request fail against a validator pair.
pub open spec fn precondition_failed(req: &Request, etag: (bool, Seq<u8>), last_modified: u64) -> bool {
    validators_rejected(req, etag, last_modified) || none_match_rejected(req, etag)
}

/// When the client's copy is still fresh.  `If-None-Match` decides alone
/// where it is present: fresh when it matches `etag` by weak comparison.
/// Otherwise `If-Modified-Since` decides: fresh when the resource was not
/// modified after its date.  With neither there is nothing to be fresh.
pub open spec fn fresh(req: &Request, etag: (bool, Seq<u8>), last_modified: u64) -> bool {
    match req.if_none_match {
        Some(condition) => condition.weak_matches(etag),
        None => match req.if_modified_since {
            Some(since) => last_modified <= since,
            None => false,
        },
    }
}

/// Tells whether the preconditions in the request header fail for the
/// validator pair `(etag, last_modified)`, the date in whole seconds since
/// the epoch.
///
/// This covers what leads to a 412 only; the caller answers fresh copies
/// with a 304 by way of [`is_fresh`].
pub fn is_precondition_failed(req: &Request, etag: &EntityTag, last_modified: u64) -> (r: bool)
    ensures
        r == precondition_failed(req, etag@, last_modified),
{
    let rejected = match &req.if_match {
        Some(condition) => !condition.matches_strong(etag),
        None => match req.if_unmodified_since {
            Some(since) => last_modified > since,
            None => false,
        },
    };
    if rejected {
        return true;
    }
    match &req.if_none_match {
        Some(condition) => !req.is_get_or_head() && condition.matches_weak(etag),
        None => false,
    }
}

/// Tells whether the requested resource is fresh in the client's cache,
/// going by `If-None-Match` and `If-Modified-Since`.
pub fn is_fresh(req: &Request, etag: &EntityTag, last_modified: u64) -> (r: bool)
    ensures
        r == fresh(req, etag@, last_modified),
{
    match &req.if_none_match {
        Some(condition) => condition.matches_weak(etag),
        None => match req.if_modified_since {
            Some(since) => last_modified <= since,
            None => false,
        },
    }
}

/// A fresh copy never fails its preconditions, as long as the request reads
/// (`GET` or `HEAD`) and neither `If-Match` nor `If-Unmodified-Since`
/// rejects the validator pair.
pub proof fn lemma_fresh_read_passes(req: &Request, etag: (bool, Seq<u8>), last_modified: u64)
    requires
        req.reads(),
        !validators_rejected(req, etag, last_modified),
    ensures
        fresh(req, etag, last_modified) ==> !precondition_failed(req, etag, last_modified),
{
}

/// A copy can be fresh and fail its preconditions at once only in two ways:
/// `If-Match` or `If-Unmodified-Since` rejects the validator pair, or the
/// request does not read and `If-None-Match` matches.
pub proof fn lemma_fresh_and_failed(req: &Request, etag: (bool, Seq<u8>), last_modified: u64)
    ensures
        (fresh(req, etag, last_modified) && precondition_failed(req, etag, last_modified)) <==> (
        fresh(req, etag, last_modified) && (validators_rejected(req, etag, last_modified) || (
        !req.reads() && req.if_none_match is Some))),
{
}

} // verus!
