use sfz::http::headers::{ByteRange, ContentRange, EntityTag, IfRange, Range};
use sfz::http::range_requests::{extract_range, is_range_fresh, is_satisfiable_range};
use sfz::server::Request;

fn bytes(first: u64, last: u64, complete_length: u64) -> Option<ContentRange> {
    Some(ContentRange { range: Some((first, last)), complete_length: Some(complete_length) })
}

#[test]
fn range_requests_no_range_header() {
    // Ignore range freshness validation. Return false.
    let req = &mut Request::default();
    let last_modified = 1_600_000_000;
    let etag = &EntityTag::strong(b"strong");
    let if_range = IfRange::ETag(etag.clone());
    req.if_range = Some(if_range);
    assert!(!is_range_fresh(req, etag, last_modified));
}

#[test]
fn range_requests_no_if_range_header() {
    // Ignore if-range freshness validation. Return true.
    let req = &mut Request::default();
    req.range = Some(Range::bytes(ByteRange::From(0)));
    let last_modified = 1_600_000_000;
    let etag = &EntityTag::strong(b"strong");
    // Always be fresh if there is no validators
    assert!(is_range_fresh(req, etag, last_modified));
}

#[test]
fn range_requests_weak_validator_as_falsy() {
    let req = &mut Request::default();
    req.range = Some(Range::bytes(ByteRange::From(0)));

    let last_modified = 1_600_000_000;
    let etag = &EntityTag::weak(b"weak");
    let if_range = IfRange::ETag(etag.clone());
    req.if_range = Some(if_range);
    assert!(!is_range_fresh(req, etag, last_modified));
}

#[test]
fn range_requests_only_accept_exact_match_mtime() {
    let req = &mut Request::default();
    let etag = &EntityTag::strong(b"strong");
    let date = 1_600_000_000;
    let last_modified = date;
    req.range = Some(Range::bytes(ByteRange::From(0)));

    // Same date.
    req.if_range = Some(IfRange::Date(date));
    assert!(is_range_fresh(req, etag, last_modified));

    // Before 10 sec.
    let past = date - 10;
    req.if_range = Some(IfRange::Date(past));
    assert!(!is_range_fresh(req, etag, last_modified));

    // After 10 sec.
    let future = date + 10;
    req.if_range = Some(IfRange::Date(future));
    assert!(!is_range_fresh(req, etag, last_modified));
}

#[test]
fn range_requests_strong_validator() {
    let req = &mut Request::default();
    req.range = Some(Range::bytes(ByteRange::From(0)));

    let last_modified = 1_600_000_000;
    let etag = &EntityTag::strong(b"strong");
    let if_range = IfRange::ETag(etag.clone());
    req.if_range = Some(if_range);
    assert!(is_range_fresh(req, etag, last_modified));
}

#[test]
fn range_requests_zero_byte_range() {
    let range = &Range::bytes(ByteRange::FromTo(1, 0));
    assert!(is_satisfiable_range(range, 10).is_none());
}

#[test]
fn range_requests_one_satisfiable_byte_range() {
    let range = &Range::bytes(ByteRange::FromTo(4, 6));
    let complete_length = 10;
    let content_range = is_satisfiable_range(range, complete_length);
    assert_eq!(content_range, bytes(4, 6, complete_length));

    // only first-byte-pos and retrieve to the end
    let range = &Range::bytes(ByteRange::From(3));
    let complete_length = 10;
    let content_range = is_satisfiable_range(range, complete_length);
    assert_eq!(content_range, bytes(3, 9, complete_length));

    // last-byte-pos exceeds complete length
    let range = &Range::bytes(ByteRange::FromTo(7, 19));
    let complete_length = 10;
    let content_range = is_satisfiable_range(range, complete_length);
    assert_eq!(content_range, bytes(7, 9, complete_length));

    // suffix-byte-range-spec
    let range = &Range::bytes(ByteRange::Suffix(3));
    let complete_length = 10;
    let content_range = is_satisfiable_range(range, complete_length);
    assert_eq!(content_range, bytes(7, 9, complete_length));

    // suffix-byte-range-spec greater than complete length
    let range = &Range::bytes(ByteRange::Suffix(19));
    let complete_length = 10;
    let content_range = is_satisfiable_range(range, complete_length);
    assert_eq!(content_range, bytes(0, 9, complete_length));
}

#[test]
fn range_requests_one_unsatisfiable_byte_range() {
    // First-byte-pos is greater than complete length.
    let range = &Range::bytes(ByteRange::From(20));
    assert!(is_satisfiable_range(range, 10).is_none());

    // Last-bypte-pos is less than first-byte-pos
    let range = &Range::bytes(ByteRange::FromTo(5, 2));
    assert!(is_satisfiable_range(range, 10).is_none());

    // suffix-byte-range-spec must be non-zero
    let range = &Range::bytes(ByteRange::Suffix(0));
    assert!(is_satisfiable_range(range, 10).is_none());
}

#[test]
fn range_requests_multiple_byte_ranges() {
    let range = &Range { specs: vec![ByteRange::FromTo(0, 1), ByteRange::FromTo(30, 40)] };
    assert!(is_satisfiable_range(range, 10).is_none());
}

#[test]
fn no_spec_at_all_selects_nothing() {
    assert!(is_satisfiable_range(&Range { specs: vec![] }, 10).is_none());
}

#[test]
fn nothing_of_an_empty_file_is_selected() {
    assert!(is_satisfiable_range(&Range::bytes(ByteRange::Suffix(5)), 0).is_none());
    assert!(is_satisfiable_range(&Range::bytes(ByteRange::From(0)), 0).is_none());
    assert!(is_satisfiable_range(&Range::bytes(ByteRange::FromTo(0, 0)), 0).is_none());
}

#[test]
fn ranges_at_the_edges() {
    assert_eq!(is_satisfiable_range(&Range::bytes(ByteRange::FromTo(9, 9)), 10), bytes(9, 9, 10));
    assert!(is_satisfiable_range(&Range::bytes(ByteRange::FromTo(10, 10)), 10).is_none());
    assert_eq!(
        is_satisfiable_range(&Range::bytes(ByteRange::FromTo(0, u64::MAX)), u64::MAX),
        bytes(0, u64::MAX - 1, u64::MAX)
    );
    assert_eq!(
        is_satisfiable_range(&Range::bytes(ByteRange::Suffix(u64::MAX)), 1),
        bytes(0, 0, 1)
    );
    assert_eq!(is_satisfiable_range(&Range::bytes(ByteRange::Suffix(10)), 10), bytes(0, 9, 10));
}

#[test]
fn content_range_on_the_wire() {
    let range = is_satisfiable_range(&Range::bytes(ByteRange::FromTo(1, 4)), 8).unwrap();
    assert_eq!(range.header_value(), b"bytes 1-4/8");
    assert_eq!(extract_range(&range), Some((1, 4)));
    assert_eq!(range.bytes_range(), Some((1, 4)));
    let unknown = ContentRange { range: None, complete_length: Some(8) };
    assert_eq!(unknown.header_value(), b"bytes */8");
    assert_eq!(extract_range(&unknown), None);
    let open = ContentRange { range: Some((0, 0)), complete_length: None };
    assert_eq!(open.header_value(), b"bytes 0-0/*");
}
