//! Range requests: whether a range still applies, and which bytes it asks
//! for.

use vstd::prelude::*;
use vstd::string::*;
use crate::text::decimal;
use crate::http::headers::{ByteRange, ContentRange, EntityTag, IfRange, Range};
use crate::server::Request;
use crate::text::{DASH, SLASH};

verus! {

/// When the range of a request applies to the resource as it is now.
///
/// Without a `Range` field there is nothing to apply.  With one, `If-Range`
/// decides where it is present: a tag must match `etag` by strong
/// comparison, so a weak tag never does; a date must be the second of the
/// last modification exactly.  Without `If-Range` the range applies.
pub open spec fn range_fresh(req: &Request, etag: (bool, Seq<u8>), last_modified: u64) -> bool {
    req.range is Some && match req.if_range {
        Some(IfRange::ETag(tag)) => crate::http::headers::strong_match(tag@, etag),
        Some(IfRange::Date(date)) => date == last_modified,
        None => true,
    }
}

/// The bytes that one range spec selects out of `complete_length`, first
/// and last both inclusive, if it selects any.
pub open spec fn selected(spec: ByteRange, complete_length: u64) -> Option<(u64, u64)> {
    match spec {
        ByteRange::FromTo(first, last) => if first <= last && first < complete_length {
            Some((first, if last < complete_length { last } else { (complete_length - 1) as u64 }))
        } else {
            None
        },
        ByteRange::From(first) => if first < complete_length {
            Some((first, (complete_length - 1) as u64))
        } else {
            None
        },
        ByteRange::Suffix(length) => if length > 0 && complete_length > 0 {
            Some(
                (
                    if length < complete_length { (complete_length - length) as u64 } else { 0 },
                    (complete_length - 1) as u64,
                ),
            )
        } else {
            None
        },
        ByteRange::Unbounded => None,
    }
}

/// The `Content-Range` that answers `range` for a resource of
/// `complete_length` bytes.  Only a range of exactly one spec is answered.
pub open spec fn satisfiable(range: &Range, complete_length: u64) -> Option<ContentRange> {
    if range.specs@.len() == 1 {
        match selected(range.specs@[0], complete_length) {
            Some(bytes) => Some(
                (ContentRange { range: Some(bytes), complete_length: Some(complete_length) }),
            ),
            None => None,
        }
    } else {
        None
    }
}

/// Tells whether the `Range` of the request is to be honoured, going by
/// `If-Range` and the validator pair.
pub fn is_range_fresh(req: &Request, etag: &EntityTag, last_modified: u64) -> (r: bool)
    ensures
        r == range_fresh(req, etag@, last_modified),
{
    if req.range.is_none() {
        return false;
    }
    match &req.if_range {
        Some(IfRange::ETag(tag)) => tag.strong_eq(etag),
        Some(IfRange::Date(date)) => *date == last_modified,
        None => true,
    }
}

/// Turns the `Range` of a request into the `Content-Range` of the answer.
///
/// - no spec, or two and more: `None`
/// - one spec that selects bytes of the resource: `Some`
/// - one spec that selects none: `None`
///
/// A spec selects bytes when its first position lies within the resource
/// and not behind its last position; a suffix, when its length is not zero
/// and the resource is not empty.  The last position is cut down to the end
/// of the resource.
pub fn is_satisfiable_range(range: &Range, complete_length: u64) -> (r: Option<ContentRange>)
    ensures
        r == satisfiable(range, complete_length),
{
    if range.specs.len() != 1 {
        return None;
    }
    let bytes = match range.specs[0] {
        ByteRange::FromTo(first, last) => {
            if first <= last && first < complete_length {
                Some((first, if last < complete_length { last } else { complete_length - 1 }))
            } else {
                None
            }
        },
        ByteRange::From(first) => {
            if first < complete_length {
                Some((first, complete_length - 1))
            } else {
                None
            }
        },
        ByteRange::Suffix(length) => {
            if length > 0 && complete_length > 0 {
                Some((complete_length.saturating_sub(length), complete_length - 1))
            } else {
                None
            }
        },
        ByteRange::Unbounded => None,
    };
    match bytes {
        Some(bytes) => Some(ContentRange { range: Some(bytes), complete_length: Some(complete_length) }),
        None => None,
    }
}

/// The bytes that a `Content-Range` names.
pub fn extract_range(content_range: &ContentRange) -> (r: Option<(u64, u64)>)
    ensures
        r == content_range.range,
{
    content_range.range
}

/// A range `first-last` that lies within the resource is answered as it
/// stands: the `Content-Range` names `first`, `last` and the length, and
/// reads `bytes first-last/length` on the wire.
pub proof fn lemma_range_within(first: u64, last: u64, complete_length: u64, range: &Range)
    requires
        first <= last < complete_length,
        range.specs@ == seq![ByteRange::FromTo(first, last)],
    ensures
        satisfiable(range, complete_length) == Some(
            (ContentRange { range: Some((first, last)), complete_length: Some(complete_length) }),
        ),
        satisfiable(range, complete_length).unwrap().wire() == "bytes ".spec_bytes() + decimal(
            first as nat,
        ) + seq![DASH] + decimal(last as nat) + seq![SLASH] + decimal(complete_length as nat),
{
}

/// Whatever is answered lies within the resource: first is not behind
/// last, and last is a position of the resource.
pub proof fn lemma_satisfiable_within(range: &Range, complete_length: u64)
    ensures
        match satisfiable(range, complete_length) {
            Some(c) => c.complete_length == Some(complete_length) && match c.range {
                Some((first, last)) => first <= last < complete_length,
                None => false,
            },
            None => true,
        },
{
}

} // verus!
