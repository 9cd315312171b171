//! Header fields as they stand on the wire: a request read out of its
//! fields, and a response written into them.

use vstd::prelude::*;
use vstd::slice::slice_subrange;
use vstd::string::*;
use crate::http::content_encoding::{is_header_text, is_text};
use crate::http::headers::{
    parsed_tag, tag_condition, ByteRange, EntityTag, IfRange, IfRangeView, Range, TagCondition,
};
use crate::server::{Request, Response, ResponseView};
use crate::text::{
    append, append_decimal, decimal, find_byte, find_from, number, parse_number, split,
    split_bytes, starts_with, to_vec, trim, trim_bytes, COMMA, DASH, PLUS,
};

verus! {

/// One header field: its name and its value.
#[derive(Debug, Clone, PartialEq, Eq)]
pub struct HeaderField {
    pub name: Vec<u8>,
    pub value: Vec<u8>,
}

/// The first second that no HTTP date can name: the start of the year
/// 10000.
pub const END_OF_DATES: u64 = 253402300800;

/// The point in time that an HTTP date names, in seconds since the epoch.
pub uninterp spec fn http_date(raw: Seq<u8>) -> Option<u64>;

/// The HTTP date that names a point in time.
pub uninterp spec fn http_date_text(secs: u64) -> Seq<u8>;

/// Has `headers` decode a date as it does for `If-Modified-Since`, by its
/// `Header::decode`, and counts the seconds from the epoch to it.  What
/// comes out goes by the text alone: the point in time where the text is
/// a date in one of the three formats of HTTP, and nothing otherwise.
#[verifier::external_body]
fn decode_date(raw: &[u8]) -> (r: Option<u64>)
    ensures
        r == http_date(raw@),
{
    let value = headers::HeaderValue::from_bytes(raw).ok()?;
    let mut values = std::iter::once(&value);
    let since = <headers::IfModifiedSince as headers::Header>::decode(&mut values).ok()?;
    let time = std::time::SystemTime::from(since);
    time.duration_since(std::time::UNIX_EPOCH).ok().map(|d| d.as_secs())
}

/// Has `headers` encode a point in time as it does for `Last-Modified`,
/// by its `Header::encode`.  The date formatter behind it gives up from
/// the year 10000 on, so the time must lie before that.
#[verifier::external_body]
fn encode_date(secs: u64) -> (r: Vec<u8>)
    requires
        secs < END_OF_DATES,
    ensures
        r@ == http_date_text(secs),
{
    let time = std::time::UNIX_EPOCH + std::time::Duration::from_secs(secs);
    let mut values: Vec<headers::HeaderValue> = Vec::new();
    headers::Header::encode(&headers::LastModified::from(time), &mut values);
    values.first().map(|value| value.as_bytes().to_vec()).unwrap_or_default()
}

/// A letter in lower case, and every other byte as it is.
pub open spec fn lower(b: u8) -> u8 {
    if 65 <= b && b <= 90 {
        (b + 32) as u8
    } else {
        b
    }
}

/// Whether two names of header fields are the same, upper or lower case.
pub open spec fn same_name(a: Seq<u8>, b: Seq<u8>) -> bool {
    a.len() == b.len() && forall|i: int| 0 <= i < a.len() ==> lower(#[trigger] a[i]) == lower(b[i])
}

/// The values of the fields of one name, in the order of the fields.
pub open spec fn values_of(fields: Seq<HeaderField>, name: Seq<u8>) -> Seq<Seq<u8>>
    decreases fields.len(),
{
    if fields.len() == 0 {
        Seq::empty()
    } else if same_name(fields.last().name@, name) {
        values_of(fields.drop_last(), name).push(fields.last().value@)
    } else {
        values_of(fields.drop_last(), name)
    }
}

/// The first of some values, if there is any.
pub open spec fn first_of(values: Seq<Seq<u8>>) -> Option<Seq<u8>> {
    if values.len() > 0 {
        Some(values[0])
    } else {
        None
    }
}

/// The one value, if there is one and no more.
pub open spec fn only_of(values: Seq<Seq<u8>>) -> Option<Seq<u8>> {
    if values.len() == 1 {
        Some(values[0])
    } else {
        None
    }
}

/// Values as one list, a comma and a space between two.
pub open spec fn list_of(values: Seq<Seq<u8>>) -> Seq<u8>
    decreases values.len(),
{
    if values.len() == 0 {
        Seq::empty()
    } else if values.len() == 1 {
        values[0]
    } else {
        list_of(values.drop_last()) + ", ".spec_bytes() + values.last()
    }
}

/// A position or length in a range: nothing where the text is empty, the
/// number where it is one, with or without a plus sign before it.
/// `None` where the text is neither.
pub open spec fn range_number(s: Seq<u8>) -> Option<Option<u64>> {
    if s.len() == 0 {
        Some(None)
    } else {
        match number(
            if s[0] == PLUS {
                s.subrange(1, s.len() as int)
            } else {
                s
            },
            u64::MAX,
        ) {
            Some(n) => Some(Some(n)),
            None => None,
        }
    }
}

/// The range spec that a piece of a `Range` field stands for: white
/// space around it set aside, what stands before its first dash and what
/// stands behind it, each a number or nothing.
pub open spec fn range_spec(piece: Seq<u8>) -> Option<ByteRange> {
    let t = trim(piece);
    let dash = find_from(t, DASH, 0);
    if dash >= t.len() {
        None
    } else {
        match (range_number(t.subrange(0, dash)), range_number(t.subrange(dash + 1, t.len() as int))) {
            (Some(Some(first)), Some(Some(last))) => Some(ByteRange::FromTo(first, last)),
            (Some(Some(first)), Some(None)) => Some(ByteRange::From(first)),
            (Some(None), Some(Some(length))) => Some(ByteRange::Suffix(length)),
            (Some(None), Some(None)) => Some(ByteRange::Unbounded),
            _ => None,
        }
    }
}

/// The range specs among the pieces of a `Range` field.
pub open spec fn specs_of(pieces: Seq<Seq<u8>>) -> Seq<ByteRange>
    decreases pieces.len(),
{
    if pieces.len() == 0 {
        Seq::empty()
    } else {
        match range_spec(pieces.last()) {
            Some(spec) => specs_of(pieces.drop_last()).push(spec),
            None => specs_of(pieces.drop_last()),
        }
    }
}

/// What the value of a `Range` field stands for: the specs between the
/// commas behind `bytes=`, those left out that are none.  A value that is
/// no text or does not begin with `bytes=` stands for nothing.
pub open spec fn range_of(raw: Seq<u8>) -> Option<Seq<ByteRange>> {
    if is_header_text(raw) && "bytes=".spec_bytes().is_prefix_of(raw) {
        Some(specs_of(split(raw.subrange("bytes=".spec_bytes().len() as int, raw.len() as int), COMMA)))
    } else {
        None
    }
}

/// What the value of an `If-Range` field stands for: a tag where it is
/// one, and otherwise a date where it is one.
pub open spec fn if_range_of(raw: Seq<u8>) -> Option<IfRangeView> {
    match parsed_tag(raw) {
        Some(tag) => Some(IfRangeView::ETag(tag)),
        None => match http_date(raw) {
            Some(date) => Some(IfRangeView::Date(date)),
            None => None,
        },
    }
}

fn lower_byte(b: u8) -> (r: u8)
    ensures
        r == lower(b),
{
    if 65 <= b && b <= 90 {
        b + 32
    } else {
        b
    }
}

/// Whether two names of header fields are the same.
pub fn name_eq(a: &[u8], b: &[u8]) -> (r: bool)
    ensures
        r == same_name(a@, b@),
{
    if a.len() != b.len() {
        return false;
    }
    let mut i: usize = 0;
    while i < a.len()
        invariant
            a@.len() == b@.len(),
            i <= a@.len(),
            forall|k: int| 0 <= k < i ==> lower(#[trigger] a@[k]) == lower(b@[k]),
        decreases a@.len() - i,
    {
        if lower_byte(a[i]) != lower_byte(b[i]) {
            return false;
        }
        i += 1;
    }
    true
}

/// The values of the fields of one name, in the order of the fields.
pub fn values<'a>(fields: &'a Vec<HeaderField>, name: &[u8]) -> (r: Vec<&'a [u8]>)
    ensures
        r@.len() == values_of(fields@, name@).len(),
        forall|i: int| 0 <= i < r@.len() ==> (#[trigger] r@[i])@ == values_of(fields@, name@)[i],
{
    let mut out: Vec<&'a [u8]> = Vec::new();
    let mut i: usize = 0;
    proof {
        assert(fields@.subrange(0, 0) =~= Seq::<HeaderField>::empty());
    }
    while i < fields.len()
        invariant
            i <= fields@.len(),
            out@.len() == values_of(fields@.subrange(0, i as int), name@).len(),
            forall|k: int|
                0 <= k < out@.len() ==> (#[trigger] out@[k])@ == values_of(
                    fields@.subrange(0, i as int),
                    name@,
                )[k],
        decreases fields@.len() - i,
    {
        proof {
            let next = fields@.subrange(0, i + 1);
            assert(next.drop_last() =~= fields@.subrange(0, i as int));
            assert(next.last() == fields@[i as int]);
        }
        if name_eq(fields[i].name.as_slice(), name) {
            out.push(fields[i].value.as_slice());
        }
        i += 1;
    }
    proof {
        assert(fields@.subrange(0, i as int) =~= fields@);
    }
    out
}

/// Values as one list, a comma and a space between two.
fn list(values: &Vec<&[u8]>) -> (r: Vec<u8>)
    ensures
        r@ == list_of(Seq::new(values@.len(), |k: int| values@[k]@)),
{
    let ghost all = Seq::new(values@.len(), |k: int| values@[k]@);
    let mut out: Vec<u8> = Vec::new();
    let mut i: usize = 0;
    proof {
        assert(all.subrange(0, 0) =~= Seq::<Seq<u8>>::empty());
    }
    while i < values.len()
        invariant
            i <= values@.len(),
            all == Seq::new(values@.len(), |k: int| values@[k]@),
            out@ == list_of(all.subrange(0, i as int)),
        decreases values@.len() - i,
    {
        proof {
            let next = all.subrange(0, i + 1);
            assert(next.drop_last() =~= all.subrange(0, i as int));
            assert(next.last() == values@[i as int]@);
            if i == 0 {
                assert(next.len() == 1);
                assert(next[0] == values@[i as int]@);
            }
        }
        if i > 0 {
            append(&mut out, ", ".as_bytes());
        }
        append(&mut out, values[i]);
        i += 1;
    }
    proof {
        assert(all.subrange(0, i as int) =~= all);
    }
    out
}

fn parse_range_number(s: &[u8]) -> (r: Option<Option<u64>>)
    ensures
        r == range_number(s@),
{
    if s.len() == 0 {
        return Some(None);
    }
    let digits = if s[0] == PLUS {
        slice_subrange(s, 1, s.len())
    } else {
        s
    };
    match parse_number(digits, u64::MAX) {
        Some(n) => Some(Some(n)),
        None => None,
    }
}

fn parse_range_spec(piece: &[u8]) -> (r: Option<ByteRange>)
    ensures
        r == range_spec(piece@),
{
    let t = trim_bytes(piece);
    let dash = find_byte(t, DASH, 0);
    if dash >= t.len() {
        return None;
    }
    let first = parse_range_number(slice_subrange(t, 0, dash));
    let last = parse_range_number(slice_subrange(t, dash + 1, t.len()));
    match (first, last) {
        (Some(Some(first)), Some(Some(last))) => Some(ByteRange::FromTo(first, last)),
        (Some(Some(first)), Some(None)) => Some(ByteRange::From(first)),
        (Some(None), Some(Some(length))) => Some(ByteRange::Suffix(length)),
        (Some(None), Some(None)) => Some(ByteRange::Unbounded),
        _ => None,
    }
}

impl Range {
    /// Reads the value of a `Range` field.
    pub fn parse(raw: &[u8]) -> (r: Option<Range>)
        ensures
            match r {
                Some(range) => range_of(raw@) == Some(range.specs@),
                None => range_of(raw@) is None,
            },
    {
        let unit = "bytes=".as_bytes();
        if !is_text(raw) || !starts_with(raw, unit) {
            return None;
        }
        let pieces = split_bytes(slice_subrange(raw, unit.len(), raw.len()), COMMA);
        let ghost all = split(raw@.subrange(unit@.len() as int, raw@.len() as int), COMMA);
        let mut specs: Vec<ByteRange> = Vec::new();
        let mut i: usize = 0;
        proof {
            assert(all.subrange(0, 0) =~= Seq::<Seq<u8>>::empty());
        }
        while i < pieces.len()
            invariant
                i <= pieces@.len(),
                pieces@.len() == all.len(),
                forall|k: int| 0 <= k < pieces@.len() ==> (#[trigger] pieces@[k])@ == all[k],
                specs@ == specs_of(all.subrange(0, i as int)),
            decreases pieces@.len() - i,
        {
            proof {
                let next = all.subrange(0, i + 1);
                assert(next.drop_last() =~= all.subrange(0, i as int));
                assert(next.last() == pieces@[i as int]@);
            }
            match parse_range_spec(pieces[i]) {
                Some(spec) => {
                    specs.push(spec);
                },
                None => {},
            }
            i += 1;
        }
        proof {
            assert(all.subrange(0, i as int) =~= all);
        }
        Some(Range { specs })
    }
}

impl IfRange {
    /// Reads the value of an `If-Range` field.
    pub fn parse(raw: &[u8]) -> (r: Option<IfRange>)
        ensures
            match r {
                Some(condition) => if_range_of(raw@) == Some(condition@),
                None => if_range_of(raw@) is None,
            },
    {
        match EntityTag::parse(raw) {
            Some(tag) => Some(IfRange::ETag(tag)),
            None => match decode_date(raw) {
                Some(date) => Some(IfRange::Date(date)),
                None => None,
            },
        }
    }
}

/// The date that the one value of a field stands for; nothing where the
/// field is not there, is there more than once, or holds no date.
pub open spec fn date_of(values: Seq<Seq<u8>>) -> Option<u64> {
    match only_of(values) {
        Some(value) => http_date(value),
        None => None,
    }
}

fn date(found: &Vec<&[u8]>) -> (r: Option<u64>)
    ensures
        r == date_of(Seq::new(found@.len(), |k: int| found@[k]@)),
{
    if found.len() == 1 {
        decode_date(found[0])
    } else {
        None
    }
}

fn first<'a>(found: &Vec<&'a [u8]>) -> (r: Option<&'a [u8]>)
    ensures
        match r {
            Some(value) => first_of(Seq::new(found@.len(), |k: int| found@[k]@)) == Some(value@),
            None => first_of(Seq::new(found@.len(), |k: int| found@[k]@)) is None,
        },
{
    if found.len() > 0 {
        Some(found[0])
    } else {
        None
    }
}

fn tags(found: &Vec<&[u8]>) -> (r: Option<TagCondition>)
    ensures
        match r {
            Some(condition) => found@.len() > 0 && condition@ == tag_condition(
                list_of(Seq::new(found@.len(), |k: int| found@[k]@)),
            ),
            None => found@.len() == 0,
        },
{
    if found.len() == 0 {
        None
    } else {
        let all = list(found);
        Some(TagCondition::parse(all.as_slice()))
    }
}

impl Request {
    /// Reads a request out of its request line and its header fields.
    ///
    /// `If-Match` and `If-None-Match` count with all their fields as one
    /// list.  `If-Modified-Since` and `If-Unmodified-Since` count where
    /// they stand once and hold a date.  Of `If-Range`, `Range`,
    /// `Accept-Encoding` and `User-Agent` the first field counts.  A
    /// field whose value cannot be read counts as not there.
    pub fn from_wire(
        method: &[u8],
        path: &[u8],
        query: Option<&[u8]>,
        fields: &Vec<HeaderField>,
    ) -> (r: Request)
        ensures
            r.method@ == method@,
            r.path@ == path@,
            match query {
                Some(q) => r.query is Some && r.query.unwrap()@ == q@,
                None => r.query is None,
            },
            match r.if_match {
                Some(condition) => values_of(fields@, "if-match".spec_bytes()).len() > 0
                    && condition@ == tag_condition(
                    list_of(values_of(fields@, "if-match".spec_bytes())),
                ),
                None => values_of(fields@, "if-match".spec_bytes()).len() == 0,
            },
            match r.if_none_match {
                Some(condition) => values_of(fields@, "if-none-match".spec_bytes()).len() > 0
                    && condition@ == tag_condition(
                    list_of(values_of(fields@, "if-none-match".spec_bytes())),
                ),
                None => values_of(fields@, "if-none-match".spec_bytes()).len() == 0,
            },
            r.if_modified_since == date_of(values_of(fields@, "if-modified-since".spec_bytes())),
            r.if_unmodified_since == date_of(
                values_of(fields@, "if-unmodified-since".spec_bytes()),
            ),
            match first_of(values_of(fields@, "if-range".spec_bytes())) {
                Some(raw) => match r.if_range {
                    Some(condition) => if_range_of(raw) == Some(condition@),
                    None => if_range_of(raw) is None,
                },
                None => r.if_range is None,
            },
            match first_of(values_of(fields@, "range".spec_bytes())) {
                Some(raw) => match r.range {
                    Some(range) => range_of(raw) == Some(range.specs@),
                    None => range_of(raw) is None,
                },
                None => r.range is None,
            },
            match r.accept_encoding {
                Some(value) => first_of(values_of(fields@, "accept-encoding".spec_bytes()))
                    == Some(value@),
                None => first_of(values_of(fields@, "accept-encoding".spec_bytes())) is None,
            },
            match r.user_agent {
                Some(value) => first_of(values_of(fields@, "user-agent".spec_bytes())) == Some(
                    value@,
                ),
                None => first_of(values_of(fields@, "user-agent".spec_bytes())) is None,
            },
    {
        let if_match = values(fields, "if-match".as_bytes());
        let if_none_match = values(fields, "if-none-match".as_bytes());
        let if_modified_since = values(fields, "if-modified-since".as_bytes());
        let if_unmodified_since = values(fields, "if-unmodified-since".as_bytes());
        let if_range = values(fields, "if-range".as_bytes());
        let range = values(fields, "range".as_bytes());
        let accept_encoding = values(fields, "accept-encoding".as_bytes());
        let user_agent = values(fields, "user-agent".as_bytes());
        proof {
            assert(Seq::new(if_match@.len(), |k: int| if_match@[k]@) =~= values_of(
                fields@,
                "if-match".spec_bytes(),
            ));
            assert(Seq::new(if_none_match@.len(), |k: int| if_none_match@[k]@) =~= values_of(
                fields@,
                "if-none-match".spec_bytes(),
            ));
            assert(Seq::new(if_modified_since@.len(), |k: int| if_modified_since@[k]@)
                =~= values_of(fields@, "if-modified-since".spec_bytes()));
            assert(Seq::new(if_unmodified_since@.len(), |k: int| if_unmodified_since@[k]@)
                =~= values_of(fields@, "if-unmodified-since".spec_bytes()));
            assert(Seq::new(if_range@.len(), |k: int| if_range@[k]@) =~= values_of(
                fields@,
                "if-range".spec_bytes(),
            ));
            assert(Seq::new(range@.len(), |k: int| range@[k]@) =~= values_of(
                fields@,
                "range".spec_bytes(),
            ));
            assert(Seq::new(accept_encoding@.len(), |k: int| accept_encoding@[k]@) =~= values_of(
                fields@,
                "accept-encoding".spec_bytes(),
            ));
            assert(Seq::new(user_agent@.len(), |k: int| user_agent@[k]@) =~= values_of(
                fields@,
                "user-agent".spec_bytes(),
            ));
        }
        Request {
            method: to_vec(method),
            path: to_vec(path),
            query: match query {
                Some(q) => Some(to_vec(q)),
                None => None,
            },
            if_match: tags(&if_match),
            if_none_match: tags(&if_none_match),
            if_modified_since: date(&if_modified_since),
            if_unmodified_since: date(&if_unmodified_since),
            if_range: match first(&if_range) {
                Some(raw) => IfRange::parse(raw),
                None => None,
            },
            range: match first(&range) {
                Some(raw) => Range::parse(raw),
                None => None,
            },
            accept_encoding: match first(&accept_encoding) {
                Some(raw) => Some(to_vec(raw)),
                None => None,
            },
            user_agent: match first(&user_agent) {
                Some(raw) => Some(to_vec(raw)),
                None => None,
            },
        }
    }
}

/// One field, where there is a value for it.
pub open spec fn field(name: &str, value: Option<Seq<u8>>) -> Seq<(Seq<u8>, Seq<u8>)> {
    match value {
        Some(value) => seq![(name.spec_bytes(), value)],
        None => Seq::empty(),
    }
}

/// The text of a constant, where there is one.
pub open spec fn text_of(value: Option<&'static str>) -> Option<Seq<u8>> {
    match value {
        Some(text) => Some(text.spec_bytes()),
        None => None,
    }
}

/// `public, max-age=<seconds>`, or `max-age=<seconds>` alone.
pub open spec fn cache_control_text(public: bool, max_age: u64) -> Seq<u8> {
    if public {
        "public, max-age=".spec_bytes() + decimal(max_age as nat)
    } else {
        "max-age=".spec_bytes() + decimal(max_age as nat)
    }
}

/// The header fields of a response, in the order in which they are
/// written.  `Last-Modified` is left out where the time lies beyond what
/// an HTTP date can name.
pub open spec fn wire_fields(res: ResponseView) -> Seq<(Seq<u8>, Seq<u8>)> {
    field("server", text_of(res.server)) + field(
        "access-control-allow-origin",
        text_of(res.access_control_allow_origin),
    ) + field("access-control-allow-headers", text_of(res.access_control_allow_headers)) + field(
        "cross-origin-embedder-policy",
        text_of(res.cross_origin_embedder_policy),
    ) + field("cross-origin-opener-policy", text_of(res.cross_origin_opener_policy)) + field(
        "cache-control",
        match res.cache_control {
            Some(cache) => Some(cache_control_text(cache.public, cache.max_age)),
            None => None,
        },
    ) + field(
        "last-modified",
        match res.last_modified {
            Some(secs) => if secs < END_OF_DATES {
                Some(http_date_text(secs))
            } else {
                None
            },
            None => None,
        },
    ) + field(
        "etag",
        match res.etag {
            Some(tag) => Some(crate::http::headers::tag_text(tag)),
            None => None,
        },
    ) + field(
        "content-range",
        match res.content_range {
            Some(range) => Some(range.wire()),
            None => None,
        },
    ) + field("content-disposition", res.content_disposition) + field(
        "content-encoding",
        match res.content_encoding {
            Some(encoding) => Some(encoding.name().spec_bytes()),
            None => None,
        },
    ) + field("vary", text_of(res.vary)) + field(
        "content-length",
        match res.content_length {
            Some(length) => Some(decimal(length as nat)),
            None => None,
        },
    ) + field("accept-ranges", text_of(res.accept_ranges)) + field(
        "content-type",
        match res.content_type {
            Some(mime) => Some(crate::extensions::mime_text(mime)),
            None => None,
        },
    )
}

/// The fields as values.
pub open spec fn field_views(fields: Seq<HeaderField>) -> Seq<(Seq<u8>, Seq<u8>)> {
    Seq::new(fields.len(), |i: int| (fields[i].name@, fields[i].value@))
}

fn put(fields: &mut Vec<HeaderField>, name: &'static str, value: Option<Vec<u8>>)
    ensures
        field_views(final(fields)@) == field_views(old(fields)@) + field(
            name,
            match value {
                Some(v) => Some(v@),
                None => None,
            },
        ),
{
    let ghost before = field_views(fields@);
    match value {
        Some(value) => {
            fields.push(HeaderField { name: to_vec(name.as_bytes()), value });
            proof {
                assert(field_views(fields@) =~= before + seq![(name.spec_bytes(), value@)]);
            }
        },
        None => {
            proof {
                assert(field_views(fields@) =~= before + Seq::<(Seq<u8>, Seq<u8>)>::empty());
            }
        },
    }
}

fn text(value: Option<&'static str>) -> (r: Option<Vec<u8>>)
    ensures
        match r {
            Some(v) => text_of(value) == Some(v@),
            None => text_of(value) is None,
        },
{
    match value {
        Some(text) => Some(to_vec(text.as_bytes())),
        None => None,
    }
}

impl Response {
    /// The header fields of the response as they go onto the wire.
    #[verifier::rlimit(40)]
    pub fn header_fields(&self) -> (r: Vec<HeaderField>)
        ensures
            field_views(r@) == wire_fields(self@),
    {
        let ghost res = self@;
        let mut out: Vec<HeaderField> = Vec::new();
        proof {
            assert(field_views(out@) =~= Seq::<(Seq<u8>, Seq<u8>)>::empty());
        }
        put(&mut out, "server", text(self.server));
        let ghost f1 = field("server", text_of(res.server));
        assert(field_views(out@) =~= f1);
        put(&mut out, "access-control-allow-origin", text(self.access_control_allow_origin));
        let ghost f2 = f1 + field(
            "access-control-allow-origin",
            text_of(res.access_control_allow_origin),
        );
        assert(field_views(out@) == f2);
        put(&mut out, "access-control-allow-headers", text(self.access_control_allow_headers));
        let ghost f3 = f2 + field(
            "access-control-allow-headers",
            text_of(res.access_control_allow_headers),
        );
        assert(field_views(out@) == f3);
        put(&mut out, "cross-origin-embedder-policy", text(self.cross_origin_embedder_policy));
        let ghost f4 = f3 + field(
            "cross-origin-embedder-policy",
            text_of(res.cross_origin_embedder_policy),
        );
        assert(field_views(out@) == f4);
        put(&mut out, "cross-origin-opener-policy", text(self.cross_origin_opener_policy));
        let ghost f5 = f4 + field(
            "cross-origin-opener-policy",
            text_of(res.cross_origin_opener_policy),
        );
        assert(field_views(out@) == f5);
        let cache_control = match self.cache_control {
            Some(cache) => {
                let mut value: Vec<u8> = Vec::new();
                if cache.public {
                    append(&mut value, "public, max-age=".as_bytes());
                } else {
                    append(&mut value, "max-age=".as_bytes());
                }
                append_decimal(&mut value, cache.max_age);
                assert(value@ =~= cache_control_text(cache.public, cache.max_age));
                Some(value)
            },
            None => None,
        };
        put(&mut out, "cache-control", cache_control);
        let ghost f6 = f5 + field(
            "cache-control",
            match res.cache_control {
                Some(cache) => Some(cache_control_text(cache.public, cache.max_age)),
                None => None,
            },
        );
        assert(field_views(out@) == f6);
        let last_modified = match self.last_modified {
            Some(secs) => {
                if secs < END_OF_DATES {
                    Some(encode_date(secs))
                } else {
                    None
                }
            },
            None => None,
        };
        put(&mut out, "last-modified", last_modified);
        let ghost f7 = f6 + field(
            "last-modified",
            match res.last_modified {
                Some(secs) => if secs < END_OF_DATES {
                    Some(http_date_text(secs))
                } else {
                    None
                },
                None => None,
            },
        );
        assert(field_views(out@) == f7);
        let etag = match &self.etag {
            Some(tag) => Some(tag.header_value()),
            None => None,
        };
        put(&mut out, "etag", etag);
        let ghost f8 = f7 + field(
            "etag",
            match res.etag {
                Some(tag) => Some(crate::http::headers::tag_text(tag)),
                None => None,
            },
        );
        assert(field_views(out@) == f8);
        let content_range = match &self.content_range {
            Some(range) => Some(range.header_value()),
            None => None,
        };
        put(&mut out, "content-range", content_range);
        let ghost f9 = f8 + field(
            "content-range",
            match res.content_range {
                Some(range) => Some(range.wire()),
                None => None,
            },
        );
        assert(field_views(out@) == f9);
        let content_disposition = match &self.content_disposition {
            Some(value) => Some(to_vec(value.as_slice())),
            None => None,
        };
        put(&mut out, "content-disposition", content_disposition);
        let ghost f10 = f9 + field("content-disposition", res.content_disposition);
        assert(field_views(out@) == f10);
        let content_encoding = match self.content_encoding {
            Some(encoding) => Some(to_vec(encoding.as_str().as_bytes())),
            None => None,
        };
        put(&mut out, "content-encoding", content_encoding);
        let ghost f11 = f10 + field(
            "content-encoding",
            match res.content_encoding {
                Some(encoding) => Some(encoding.name().spec_bytes()),
                None => None,
            },
        );
        assert(field_views(out@) == f11);
        put(&mut out, "vary", text(self.vary));
        let ghost f12 = f11 + field("vary", text_of(res.vary));
        assert(field_views(out@) == f12);
        let content_length = match self.content_length {
            Some(length) => {
                let mut value: Vec<u8> = Vec::new();
                append_decimal(&mut value, length);
                assert(value@ =~= decimal(length as nat));
                Some(value)
            },
            None => None,
        };
        put(&mut out, "content-length", content_length);
        let ghost f13 = f12 + field(
            "content-length",
            match res.content_length {
                Some(length) => Some(decimal(length as nat)),
                None => None,
            },
        );
        assert(field_views(out@) == f13);
        put(&mut out, "accept-ranges", text(self.accept_ranges));
        let ghost f14 = f13 + field("accept-ranges", text_of(res.accept_ranges));
        assert(field_views(out@) == f14);
        let content_type = match &self.content_type {
            Some(mime) => Some(mime.header_value()),
            None => None,
        };
        put(&mut out, "content-type", content_type);
        let ghost f15 = f14 + field(
            "content-type",
            match res.content_type {
                Some(mime) => Some(crate::extensions::mime_text(mime)),
                None => None,
            },
        );
        assert(field_views(out@) == f15);
        assert(f15 == wire_fields(res));
        out
    }
}

} // verus!
