//! The request pipeline and what it is made of.

pub mod listing;
pub mod res;
pub mod send;
pub mod serve;

use vstd::prelude::*;
use vstd::string::*;
use crate::extensions::Mime;
use crate::http::content_encoding::Encoding;
use crate::http::headers::{ContentRange, EntityTag, IfRange, Range, TagCondition};
use crate::text::bytes_eq;

verus! {

/// What the engine reads of a request: the request line and the header
/// fields it consults, each already taken apart.
#[derive(Debug, Clone, PartialEq, Eq)]
pub struct Request {
    /// The method token, such as `GET`.
    pub method: Vec<u8>,
    /// The path of the request target, still percent-encoded.
    pub path: Vec<u8>,
    /// The query of the request target, without the question mark.
    pub query: Option<Vec<u8>>,
    pub if_match: Option<TagCondition>,
    pub if_none_match: Option<TagCondition>,
    /// Seconds since the epoch.
    pub if_modified_since: Option<u64>,
    /// Seconds since the epoch.
    pub if_unmodified_since: Option<u64>,
    pub if_range: Option<IfRange>,
    pub range: Option<Range>,
    pub accept_encoding: Option<Vec<u8>>,
    pub user_agent: Option<Vec<u8>>,
}

impl Request {
    /// Whether the method is `GET` or `HEAD`.
    pub open spec fn reads(&self) -> bool {
        self.method@ == "GET".spec_bytes() || self.method@ == "HEAD".spec_bytes()
    }

    /// A request for `path` by `method` with no header field set.
    pub fn new(method: &[u8], path: &[u8]) -> (r: Request)
        ensures
            r.method@ == method@,
            r.path@ == path@,
            r.query is None,
            r.if_match is None,
            r.if_none_match is None,
            r.if_modified_since is None,
            r.if_unmodified_since is None,
            r.if_range is None,
            r.range is None,
            r.accept_encoding is None,
            r.user_agent is None,
    {
        Request {
            method: crate::text::to_vec(method),
            path: crate::text::to_vec(path),
            query: None,
            if_match: None,
            if_none_match: None,
            if_modified_since: None,
            if_unmodified_since: None,
            if_range: None,
            range: None,
            accept_encoding: None,
            user_agent: None,
        }
    }

    /// Whether the method is `GET` or `HEAD`.
    pub fn is_get_or_head(&self) -> (r: bool)
        ensures
            r == self.reads(),
    {
        bytes_eq(self.method.as_slice(), "GET".as_bytes()) || bytes_eq(
            self.method.as_slice(),
            "HEAD".as_bytes(),
        )
    }
}

impl Default for Request {
    /// `GET /` with no header field set.
    fn default() -> (r: Request)
        ensures
            r.method@ == "GET".spec_bytes(),
            r.path@ == "/".spec_bytes(),
            r.query is None,
            r.if_match is None,
            r.if_none_match is None,
            r.if_modified_since is None,
            r.if_unmodified_since is None,
            r.if_range is None,
            r.range is None,
            r.accept_encoding is None,
            r.user_agent is None,
    {
        Request::new("GET".as_bytes(), "/".as_bytes())
    }
}

/// Where the bytes of a body come from.
#[derive(Debug, Clone, Copy, PartialEq, Eq)]
pub enum Body {
    /// No body at all.
    Empty,
    /// A fixed text.
    Text(&'static str),
    /// The listing of the directory addressed.
    Listing,
    /// The file addressed, from its first byte to its last.
    File,
    /// The bytes of the file addressed from the first position to the
    /// second, both inclusive.
    FileRange(u64, u64),
    /// An archive of the directory addressed.
    Zip,
}

/// The value of `Cache-Control`: `public`, and how many seconds a copy may
/// be kept.
#[derive(Debug, Clone, Copy, PartialEq, Eq)]
pub struct CacheControl {
    pub public: bool,
    pub max_age: u64,
}

/// A response: the status, where the body comes from, and each header
/// field the server may set, `None` where it is left out.
#[derive(Debug, Clone, PartialEq, Eq)]
pub struct Response {
    pub status: u16,
    pub body: Body,
    pub server: Option<&'static str>,
    pub access_control_allow_origin: Option<&'static str>,
    pub access_control_allow_headers: Option<&'static str>,
    pub cross_origin_embedder_policy: Option<&'static str>,
    pub cross_origin_opener_policy: Option<&'static str>,
    pub cache_control: Option<CacheControl>,
    /// Seconds since the epoch.
    pub last_modified: Option<u64>,
    pub etag: Option<EntityTag>,
    pub content_range: Option<ContentRange>,
    pub content_disposition: Option<Vec<u8>>,
    pub content_encoding: Option<Encoding>,
    pub vary: Option<&'static str>,
    pub content_length: Option<u64>,
    pub accept_ranges: Option<&'static str>,
    pub content_type: Option<Mime>,
}

/// A response as a value: every text in it as the sequence of its bytes.
pub struct ResponseView {
    pub status: u16,
    pub body: Body,
    pub server: Option<&'static str>,
    pub access_control_allow_origin: Option<&'static str>,
    pub access_control_allow_headers: Option<&'static str>,
    pub cross_origin_embedder_policy: Option<&'static str>,
    pub cross_origin_opener_policy: Option<&'static str>,
    pub cache_control: Option<CacheControl>,
    pub last_modified: Option<u64>,
    pub etag: Option<(bool, Seq<u8>)>,
    pub content_range: Option<ContentRange>,
    pub content_disposition: Option<Seq<u8>>,
    pub content_encoding: Option<Encoding>,
    pub vary: Option<&'static str>,
    pub content_length: Option<u64>,
    pub accept_ranges: Option<&'static str>,
    pub content_type: Option<(Seq<u8>, Option<&'static str>)>,
}

impl View for Response {
    type V = ResponseView;

    open spec fn view(&self) -> ResponseView {
        ResponseView {
            status: self.status,
            body: self.body,
            server: self.server,
            access_control_allow_origin: self.access_control_allow_origin,
            access_control_allow_headers: self.access_control_allow_headers,
            cross_origin_embedder_policy: self.cross_origin_embedder_policy,
            cross_origin_opener_policy: self.cross_origin_opener_policy,
            cache_control: self.cache_control,
            last_modified: self.last_modified,
            etag: match self.etag {
                Some(tag) => Some(tag@),
                None => None,
            },
            content_range: self.content_range,
            content_disposition: match self.content_disposition {
                Some(text) => Some(text@),
                None => None,
            },
            content_encoding: self.content_encoding,
            vary: self.vary,
            content_length: self.content_length,
            accept_ranges: self.accept_ranges,
            content_type: match self.content_type {
                Some(mime) => Some(mime@),
                None => None,
            },
        }
    }
}

/// The response that nothing has been said about yet: 200, no body, no
/// header field.
pub open spec fn blank() -> ResponseView {
    ResponseView {
        status: 200,
        body: Body::Empty,
        server: None,
        access_control_allow_origin: None,
        access_control_allow_headers: None,
        cross_origin_embedder_policy: None,
        cross_origin_opener_policy: None,
        cache_control: None,
        last_modified: None,
        etag: None,
        content_range: None,
        content_disposition: None,
        content_encoding: None,
        vary: None,
        content_length: None,
        accept_ranges: None,
        content_type: None,
    }
}

impl Default for Response {
    fn default() -> (r: Response)
        ensures
            r@ == blank(),
    {
        Response {
            status: 200,
            body: Body::Empty,
            server: None,
            access_control_allow_origin: None,
            access_control_allow_headers: None,
            cross_origin_embedder_policy: None,
            cross_origin_opener_policy: None,
            cache_control: None,
            last_modified: None,
            etag: None,
            content_range: None,
            content_disposition: None,
            content_encoding: None,
            vary: None,
            content_length: None,
            accept_ranges: None,
            content_type: None,
        }
    }
}

} // verus!
