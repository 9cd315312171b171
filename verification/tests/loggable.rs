use ignore::gitignore::Gitignore;
use sfz::cli::args::Args;
use sfz::http::loggable::{Log, LoggableBody, Polled};
use sfz::server::serve::InnerService;
use sfz::server::{Request, Response};

fn log() -> Log {
    let mut req = Request::new(b"GET", b"/file.txt");
    req.query = Some(b"a=1".to_vec());
    req.user_agent = Some(b"curl/8.0".to_vec());
    let mut res = Response::default();
    res.status = 206;
    Log::new(b"127.0.0.1", b"HTTP/1.1", &req, &res)
}

fn args(log: bool) -> Args {
    Args {
        address: b"127.0.0.1".to_vec(),
        port: 5000,
        cache: 0,
        cors: false,
        coi: false,
        compress: true,
        path: b"/srv/www".to_vec(),
        all: false,
        ignore: true,
        follow_links: false,
        render_index: false,
        log,
        path_prefix: None,
        user_style: Vec::new(),
    }
}

#[test]
fn line_of_the_log() {
    let line = log().line(b"28/Oct/2026 22:10:00 +0000", 4);
    assert_eq!(
        String::from_utf8(line).unwrap(),
        "127.0.0.1 - - [28/Oct/2026 22:10:00 +0000] \"GET /file.txt?a=1 HTTP/1.1\" 206 4 \"-\" \"curl/8.0\" \"-\""
    );
}

#[test]
fn line_without_an_address() {
    let mut log = log();
    log.remote_addr = None;
    log.uri = b"/".to_vec();
    log.status = 200;
    let line = log.line(b"now", 0);
    assert_eq!(
        String::from_utf8(line).unwrap(),
        "- - - [now] \"GET / HTTP/1.1\" 200 0 \"-\" \"curl/8.0\" \"-\""
    );
}

#[test]
fn user_agent_in_the_log() {
    let res = Response::default();
    let mut req = Request::default();
    assert_eq!(Log::new(b"::1", b"HTTP/1.0", &req, &res).user_agent, b"-");
    req.user_agent = Some(b"Mozilla/5.0 (X11)".to_vec());
    assert_eq!(Log::new(b"::1", b"HTTP/1.0", &req, &res).user_agent, b"Mozilla/5.0 (X11)");
    req.user_agent = Some(vec![0xff, 0xfe]);
    assert_eq!(Log::new(b"::1", b"HTTP/1.0", &req, &res).user_agent, b"");
    let log = Log::new(b"::1", b"HTTP/1.0", &req, &res);
    assert_eq!(log.remote_addr, Some(b"::1".to_vec()));
    assert_eq!(log.method, b"GET");
    assert_eq!(log.uri, b"/");
    assert_eq!(log.status, 200);
    assert_eq!(log.version, b"HTTP/1.0");
}

#[test]
fn logged_at_the_end_of_the_stream() {
    let mut body = LoggableBody::new(Some(log()));
    assert_eq!(body.poll_data(Polled::Data(4096)), None);
    assert_eq!(body.poll_data(Polled::Data(4)), None);
    assert_eq!(body.poll_data(Polled::Failed), None);
    assert_eq!(body.poll_data(Polled::End), Some(4100));
    assert!(body.logged);
    assert_eq!(body.bytes_sent, 4100);
}

#[test]
fn logged_when_the_length_is_reached() {
    let mut body = LoggableBody::with_content_length(Some(log()), 8);
    assert_eq!(body.poll_data(Polled::Data(5)), None);
    assert_eq!(body.poll_data(Polled::Data(3)), Some(8));
    // Not again at the end of the stream, nor when the body is dropped.
    assert_eq!(body.poll_data(Polled::End), None);
    assert_eq!(body.poll_data(Polled::Dropped), None);
    assert_eq!(body.poll_data(Polled::Data(1)), None);
    assert_eq!(body.bytes_sent, 9);
}

#[test]
fn logged_when_the_client_goes_away() {
    let mut body = LoggableBody::with_content_length(Some(log()), 100);
    assert_eq!(body.poll_data(Polled::Data(10)), None);
    assert_eq!(body.poll_data(Polled::Dropped), Some(10));
    assert_eq!(body.poll_data(Polled::Dropped), None);
}

#[test]
fn empty_body_of_known_length_is_logged_at_once() {
    let mut body = LoggableBody::with_content_length(Some(log()), 0);
    assert_eq!(body.poll_data(Polled::Failed), Some(0));
    let mut body = LoggableBody::with_content_length(Some(log()), 0);
    assert_eq!(body.poll_data(Polled::End), Some(0));
}

#[test]
fn nothing_is_logged_without_a_log() {
    let mut body = LoggableBody::new(None);
    assert_eq!(body.poll_data(Polled::Data(1)), None);
    assert_eq!(body.poll_data(Polled::End), None);
    assert!(!body.logged);
    assert_eq!(body.bytes_sent, 1);
}

#[test]
fn count_of_bytes_wraps_round() {
    let mut body = LoggableBody::new(Some(log()));
    assert_eq!(body.poll_data(Polled::Data(usize::MAX)), None);
    assert_eq!(body.poll_data(Polled::Data(2)), None);
    assert_eq!(body.bytes_sent, 1);
}

#[test]
fn watch_as_the_settings_say() {
    let req = Request::new(b"HEAD", b"/x");
    let mut res = Response::default();
    res.content_length = Some(12);
    let service = InnerService::new(args(true), Gitignore::empty());
    let watch = service.watch(b"10.0.0.1", b"HTTP/1.1", &req, &res);
    assert_eq!(watch.content_length, Some(12));
    assert_eq!(watch.bytes_sent, 0);
    assert!(!watch.logged);
    let log = watch.log.unwrap();
    assert_eq!(log.method, b"HEAD");
    assert_eq!(log.remote_addr, Some(b"10.0.0.1".to_vec()));
    res.content_length = None;
    let service = InnerService::new(args(false), Gitignore::empty());
    let watch = service.watch(b"10.0.0.1", b"HTTP/1.1", &req, &res);
    assert_eq!(watch.log, None);
    assert_eq!(watch.content_length, None);
}
