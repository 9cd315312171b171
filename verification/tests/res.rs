use sfz::server::res::{
    forbidden, internal_server_error, not_found, not_modified, precondition_failed,
};
use sfz::server::{Body, Response};

#[test]
fn response_304() {
    let res = not_modified(Response::default());
    assert_eq!(res.status, 304);
}

#[test]
fn response_403() {
    let res = forbidden(Response::default());
    assert_eq!(res.status, 403);
}

#[test]
fn response_404() {
    let res = not_found(Response::default());
    assert_eq!(res.status, 404);
}

#[test]
fn response_412() {
    let res = precondition_failed(Response::default());
    assert_eq!(res.status, 412);
}

#[test]
fn response_500() {
    let res = internal_server_error(Response::default());
    assert_eq!(res.status, 500);
}

#[test]
fn errors_carry_their_text_and_its_length() {
    let res = forbidden(Response::default());
    assert_eq!(res.body, Body::Text("403 Forbidden"));
    assert_eq!(res.content_length, Some(13));
    let res = not_found(Response::default());
    assert_eq!(res.body, Body::Text("404 Not Found"));
    assert_eq!(res.content_length, Some(13));
    let res = precondition_failed(Response::default());
    assert_eq!(res.body, Body::Text("412 Precondition Failed"));
    assert_eq!(res.content_length, Some(23));
    let res = internal_server_error(Response::default());
    assert_eq!(res.body, Body::Text("500 Internal Server Error"));
    assert_eq!(res.content_length, Some(25));
}

#[test]
fn not_modified_has_no_body_and_no_length() {
    let mut res = Response::default();
    res.body = Body::File;
    res.content_length = Some(8);
    res.last_modified = Some(5);
    let res = not_modified(res);
    assert_eq!(res.body, Body::Empty);
    assert_eq!(res.content_length, None);
    assert_eq!(res.last_modified, Some(5));
}

#[test]
fn other_header_fields_stay() {
    let mut res = Response::default();
    res.server = Some("x/1");
    res.vary = Some("Accept-Encoding");
    let res = not_found(res);
    assert_eq!(res.server, Some("x/1"));
    assert_eq!(res.vary, Some("Accept-Encoding"));
    let blank = Response::default();
    assert_eq!(blank.status, 200);
    assert_eq!(blank.body, Body::Empty);
    assert_eq!(blank.content_type, None);
}
