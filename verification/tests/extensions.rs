use std::time::{Duration, SystemTime};

use sfz::extensions::{is_hidden, Mime, MimeExt, PathExt, PathType, SystemTimeExt, UTF_8};

fn file_txt_path() -> Vec<u8> {
    b"/srv/sfz/./tests/file.txt".to_vec()
}

fn hidden_html_path() -> Vec<u8> {
    b"/srv/sfz/./tests/.hidden.html".to_vec()
}

#[test]
fn path_mime() {
    assert_eq!(file_txt_path().as_slice().mime(), Some(Mime::new(b"text/plain")));
    assert_eq!(hidden_html_path().as_slice().mime(), Some(Mime::new(b"text/html")));
}

#[test]
fn path_is_relatively_hidden() {
    assert!(hidden_html_path().as_slice().is_relatively_hidden());

    let path = "./.hidden/visible.html";
    assert!(path.as_bytes().is_relatively_hidden());
}

#[test]
fn path_is_not_relatively_hidden() {
    assert!(!file_txt_path().as_slice().is_relatively_hidden());

    let path = "./visible/visible.html";
    assert!(!path.as_bytes().is_relatively_hidden());
}

#[test]
fn path_filename_str() {
    assert_eq!(file_txt_path().as_slice().filename_str(), b"file.txt");
    assert_eq!(hidden_html_path().as_slice().filename_str(), b".hidden.html");
}

#[test]
fn path_type_() {
    let root = tempfile::tempdir().unwrap();
    let dir = tempfile::Builder::new().prefix("dir").tempdir_in(root.path()).unwrap();
    let file = tempfile::Builder::new().suffix(".txt").tempfile_in(root.path()).unwrap();
    let type_ = |path: &std::path::Path, is_symlink: bool| match path.symlink_metadata() {
        Ok(meta) => PathType::of(is_symlink || meta.file_type().is_symlink(), path.is_dir()),
        Err(_) => PathType::File,
    };

    assert_eq!(type_(dir.path(), false), PathType::Dir);
    assert_eq!(type_(dir.path(), true), PathType::SymlinkDir);
    assert_eq!(type_(file.path(), false), PathType::File);
    assert_eq!(type_(file.path(), true), PathType::SymlinkFile);
}

#[test]
fn path_types_by_what_the_metadata_say() {
    assert_eq!(PathType::of(false, true), PathType::Dir);
    assert_eq!(PathType::of(true, true), PathType::SymlinkDir);
    assert_eq!(PathType::of(false, false), PathType::File);
    assert_eq!(PathType::of(true, false), PathType::SymlinkFile);
    assert!(PathType::Dir < PathType::SymlinkDir);
    assert!(PathType::SymlinkDir < PathType::File);
    assert!(PathType::File < PathType::SymlinkFile);
    assert_eq!(PathType::Dir.position(), 0);
    assert_eq!(PathType::SymlinkFile.position(), 3);
}

#[test]
fn system_time_to_timestamp() {
    let secs = 1000;
    let tm = SystemTime::UNIX_EPOCH + Duration::from_secs(secs);
    assert_eq!(tm.timestamp(), secs);
}

#[test]
fn time_before_the_epoch_counts_as_the_epoch() {
    let tm = SystemTime::UNIX_EPOCH - Duration::from_secs(5);
    assert_eq!(tm.timestamp(), 0);
    let tm = SystemTime::UNIX_EPOCH + Duration::from_millis(1999);
    assert_eq!(tm.timestamp_sec(), 1);
}

#[test]
fn mime_is_compressed() {
    assert!(Mime::new(b"video/*").is_compressed_format());
    assert!(Mime::new(b"audio/*").is_compressed_format());
    assert!(Mime::new(b"*/gif").is_compressed_format());
    assert!(Mime::new(b"*/jpeg").is_compressed_format());
    assert!(Mime::new(b"*/png").is_compressed_format());
    assert!(!Mime::new(b"text/*").is_compressed_format());
}

#[test]
fn mime_is_media() {
    assert!(Mime::new(b"video/*").is_media());
    assert!(Mime::new(b"audio/*").is_media());
    assert!(!Mime::new(b"text/*").is_media());
}

#[test]
fn mime_parts() {
    let svg = Mime::new(b"image/svg+xml");
    assert_eq!(svg.type_(), b"image");
    assert_eq!(svg.subtype(), b"svg");
    assert_eq!(svg.suffix(), Some(&b"xml"[..]));
    assert!(!svg.is_compressed_format());
    let plain = Mime::utf8(b"text/plain");
    assert_eq!(plain.type_(), b"text");
    assert_eq!(plain.subtype(), b"plain");
    assert_eq!(plain.suffix(), None);
    assert_eq!(plain.header_value(), b"text/plain; charset=utf-8");
    assert_eq!(svg.header_value(), b"image/svg+xml");
    let odd = Mime::new(b"nonsense");
    assert_eq!(odd.type_(), b"nonsense");
    assert_eq!(odd.subtype(), b"");
    assert_eq!(odd.suffix(), None);
    assert_eq!(Mime::new(b"audiovisual/png+gif").subtype(), b"png");
}

#[test]
fn charset_of_text() {
    assert_eq!(Mime::new(b"text/css").guess_charset(), Some(UTF_8));
    assert_eq!(Mime::new(b"application/json").guess_charset(), Some(UTF_8));
    assert_eq!(Mime::new(b"application/javascript").guess_charset(), Some(UTF_8));
    assert_eq!(Mime::new(b"application/xml").guess_charset(), Some(UTF_8));
    assert_eq!(Mime::new(b"image/svg+xml").guess_charset(), Some(UTF_8));
    assert_eq!(Mime::new(b"application/ld+json").guess_charset(), Some(UTF_8));
    assert_eq!(Mime::new(b"application/wasm").guess_charset(), None);
    assert_eq!(Mime::new(b"image/png").guess_charset(), None);
}

#[test]
fn mime_goes_by_the_extension() {
    assert_eq!(b"a/b/picture.PNG"[..].mime(), Some(Mime::new(b"image/png")));
    assert_eq!(b"archive.tar.gz"[..].mime(), b"x.gz"[..].mime());
    assert_eq!(b"no-extension"[..].mime(), None);
    assert_eq!(b"dir.txt/"[..].mime(), Some(Mime::new(b"text/plain")));
    assert_eq!(b".txt"[..].mime(), None);
    assert_eq!(b""[..].mime(), None);
}

#[test]
fn hidden_components() {
    assert!(b".a"[..].is_relatively_hidden());
    assert!(b"a/.b/c"[..].is_relatively_hidden());
    assert!(b"/a/b/..."[..].is_relatively_hidden());
    assert!(b"a//.b"[..].is_relatively_hidden());
    assert!(!b"."[..].is_relatively_hidden());
    assert!(!b".."[..].is_relatively_hidden());
    assert!(!b"a/../b/./c"[..].is_relatively_hidden());
    assert!(!b"a.b/c."[..].is_relatively_hidden());
    assert!(!b""[..].is_relatively_hidden());
    assert!(!b"/"[..].is_relatively_hidden());
}

#[test]
fn file_names() {
    assert_eq!(b"/a/b/"[..].filename_str(), b"b");
    assert_eq!(b"/a/b/."[..].filename_str(), b"b");
    assert_eq!(b"/a/b/.."[..].filename_str(), b"");
    assert_eq!(b"/"[..].filename_str(), b"");
    assert_eq!(b""[..].filename_str(), b"");
    assert_eq!(b"."[..].filename_str(), b"");
    assert_eq!(b"name"[..].filename_str(), b"name");
    assert_eq!("/tmp/你好".as_bytes().filename_str(), "你好".as_bytes());
    assert_eq!(b"/tmp/\xff\xfe"[..].filename_str(), b"");
}

#[test]
fn hidden_file_names() {
    assert!(is_hidden(b"/a/.b"));
    assert!(is_hidden(b".b/"));
    assert!(!is_hidden(b"/.a/b"));
    assert!(!is_hidden(b"/a/.."));
    assert!(!is_hidden(b""));
    assert!(b"/a/.b"[..].is_hidden());
}
