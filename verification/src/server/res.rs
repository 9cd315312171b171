//! The responses that need no file: not modified, and the errors.

use vstd::prelude::*;
use crate::server::{Body, Response, ResponseView};

verus! {

/// The body of a 403.
pub const FORBIDDEN: &'static str = "403 Forbidden";

/// The body of a 404.
pub const NOT_FOUND: &'static str = "404 Not Found";

/// The body of a 412.
pub const PRECONDITION_FAILED: &'static str = "412 Precondition Failed";

/// The body of a 500.
pub const INTERNAL_SERVER_ERROR: &'static str = "500 Internal Server Error";

/// `res` turned into 304: no body and no `Content-Length`, every other
/// header field as it was.
pub open spec fn as_not_modified(res: ResponseView) -> ResponseView {
    ResponseView { status: 304, body: Body::Empty, content_length: None, ..res }
}

/// `res` turned into an error: the status, the text as the body, and
/// the length of the text as `Content-Length`; every other header field
/// as it was.
pub open spec fn as_error(res: ResponseView, code: u16, text: &'static str) -> ResponseView {
    ResponseView {
        status: code,
        body: Body::Text(text),
        content_length: Some(text.len() as u64),
        ..res
    }
}

/// Makes a 304 Not Modified of `res`.
pub fn not_modified(res: Response) -> (r: Response)
    ensures
        r@ == as_not_modified(res@),
{
    let mut res = res;
    res.status = 304;
    res.body = Body::Empty;
    res.content_length = None;
    res
}

/// Makes a 403 Forbidden of `res`.
pub fn forbidden(res: Response) -> (r: Response)
    ensures
        r@ == as_error(res@, 403, FORBIDDEN),
{
    prepare_response(res, 403, FORBIDDEN)
}

/// Makes a 404 Not Found of `res`.
pub fn not_found(res: Response) -> (r: Response)
    ensures
        r@ == as_error(res@, 404, NOT_FOUND),
{
    prepare_response(res, 404, NOT_FOUND)
}

/// Makes a 412 Precondition Failed of `res`.
pub fn precondition_failed(res: Response) -> (r: Response)
    ensures
        r@ == as_error(res@, 412, PRECONDITION_FAILED),
{
    prepare_response(res, 412, PRECONDITION_FAILED)
}

/// Makes a 500 Internal Server Error of `res`.
pub fn internal_server_error(res: Response) -> (r: Response)
    ensures
        r@ == as_error(res@, 500, INTERNAL_SERVER_ERROR),
{
    prepare_response(res, 500, INTERNAL_SERVER_ERROR)
}

fn prepare_response(res: Response, code: u16, body: &'static str) -> (r: Response)
    ensures
        r@ == as_error(res@, code, body),
{
    let mut res = res;
    res.status = code;
    res.body = Body::Text(body);
    res.content_length = Some(body.len() as u64);
    res
}

} // verus!
