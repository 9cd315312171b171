use sfz::extensions::PathType;
use sfz::server::listing::{bytes_le, item_precedes, sort_items, Item};
use sfz::server::send::{
    create_breadcrumbs, send_dir, send_dir_as_zip, send_file_with_range, Entry, FileStream,
    RangeBody, ZipEntry, BUFFER_SIZE, ZIP_PERMISSIONS,
};
use sfz::server::serve::SendError;

fn entry(path: &str, path_type: PathType) -> Entry {
    Entry { path: path.as_bytes().to_vec(), path_type, ignored: false }
}

fn item(path_type: PathType, name: &str, path: &str) -> Item {
    Item { path_type, name: name.as_bytes().to_vec(), path: path.as_bytes().to_vec() }
}

#[test]
fn breadcrumbs() {
    // Only one level
    let breadcrumbs = create_breadcrumbs(b"/a", b"/a", b"");
    assert_eq!(breadcrumbs.len(), 1);
    assert_eq!(breadcrumbs[0].name, b"a");
    assert_eq!(breadcrumbs[0].path, b"/");

    // Nested two levels
    let breadcrumbs = create_breadcrumbs(b"/a/b", b"/a", b"");
    assert_eq!(breadcrumbs.len(), 2);
    assert_eq!(breadcrumbs[0].name, b"a");
    assert_eq!(breadcrumbs[0].path, b"/");
    assert_eq!(breadcrumbs[1].name, b"b");
    assert_eq!(breadcrumbs[1].path, b"/b");

    // Nested four levels
    let breadcrumbs = create_breadcrumbs(b"/a/b/c/d", b"/a", b"");
    assert_eq!(breadcrumbs.len(), 4);
    assert_eq!(breadcrumbs[0].name, b"a");
    assert_eq!(breadcrumbs[0].path, b"/");
    assert_eq!(breadcrumbs[1].name, b"b");
    assert_eq!(breadcrumbs[1].path, b"/b");
    assert_eq!(breadcrumbs[2].name, b"c");
    assert_eq!(breadcrumbs[2].path, b"/b/c");
    assert_eq!(breadcrumbs[3].name, b"d");
    assert_eq!(breadcrumbs[3].path, b"/b/c/d");
}

#[test]
fn breadcrumbs_with_slashes() {
    let breadcrumbs =
        create_breadcrumbs(b"////////a//////b///c////////////", b"////a/b", b"");
    assert_eq!(breadcrumbs.len(), 2);
    assert_eq!(breadcrumbs[0].name, b"b");
    assert_eq!(breadcrumbs[0].path, b"/");
    assert_eq!(breadcrumbs[1].name, b"c");
    assert_eq!(breadcrumbs[1].path, b"/c");
}

#[test]
fn prefixed_breadcrumbs() {
    let breadcrumbs = create_breadcrumbs(b"/a/b/c", b"/a", "/xdd~帥//".as_bytes());
    assert_eq!(breadcrumbs.len(), 3);
    assert_eq!(breadcrumbs[0].name, b"a");
    assert_eq!(breadcrumbs[0].path, "/xdd~帥///".as_bytes());
    assert_eq!(breadcrumbs[1].name, b"b");
    assert_eq!(breadcrumbs[1].path, "/xdd~帥///b".as_bytes());
    assert_eq!(breadcrumbs[2].name, b"c");
    assert_eq!(breadcrumbs[2].path, "/xdd~帥///b/c".as_bytes());
}

#[test]
fn breadcrumbs_from_root() {
    let breadcrumbs = create_breadcrumbs(b"/a/b", b"/", b"");
    assert_eq!(breadcrumbs.len(), 3);
    assert_eq!(breadcrumbs[0].name, b"");
    assert_eq!(breadcrumbs[0].path, b"/");
    assert_eq!(breadcrumbs[1].name, b"a");
    assert_eq!(breadcrumbs[1].path, b"/a");
    assert_eq!(breadcrumbs[2].name, b"b");
    assert_eq!(breadcrumbs[2].path, b"/a/b");
}

#[test]
fn t_send_file_with_range_one_byte() {
    for i in 0..=7 {
        let body = send_file_with_range(8, (i, i)).unwrap();
        assert_eq!(body.start, i);
        assert_eq!(body.take, 1);
        assert_eq!(body.size, 1);
    }
}

#[test]
fn t_send_file_with_range_multiple_bytes() {
    let body = send_file_with_range(8, (0, 1)).unwrap();
    assert_eq!(body, RangeBody { start: 0, take: 2, size: 2 });
    let body = send_file_with_range(8, (1, 2)).unwrap();
    assert_eq!(body, RangeBody { start: 1, take: 2, size: 2 });
    let body = send_file_with_range(8, (1, 4)).unwrap();
    assert_eq!(body, RangeBody { start: 1, take: 4, size: 4 });
    let body = send_file_with_range(8, (7, 65535)).unwrap();
    assert_eq!(body, RangeBody { start: 7, take: 65529, size: 1 });
    let body = send_file_with_range(8, (8, 8)).unwrap();
    assert_eq!(body, RangeBody { start: 8, take: 1, size: 0 });
}

#[test]
fn t_send_file_with_range_invalid_range() {
    let body = send_file_with_range(8, (1, 0));
    assert_eq!(body.unwrap_err(), SendError::InvalidInput);
}

#[test]
fn ranges_of_odd_files() {
    assert_eq!(
        send_file_with_range(0, (0, 0)),
        Ok(RangeBody { start: 0, take: 1, size: 0 })
    );
    assert_eq!(
        send_file_with_range(u64::MAX, (0, u64::MAX)),
        Ok(RangeBody { start: 0, take: u64::MAX, size: u64::MAX })
    );
    assert_eq!(
        send_file_with_range(5, (u64::MAX, u64::MAX)),
        Ok(RangeBody { start: u64::MAX, take: 1, size: 0 })
    );
}

#[test]
fn t_send_dir_as_zip() {
    let entries = vec![
        entry("", PathType::Dir),
        entry("file.txt", PathType::File),
        entry("dir_a", PathType::Dir),
        entry("dir_a/file_a.txt", PathType::File),
        entry("dir_a/.hidden", PathType::File),
        entry("link", PathType::SymlinkDir),
        entry("link.txt", PathType::SymlinkFile),
    ];
    let plan = send_dir_as_zip(&entries, true, false);
    assert!(plan.len() > 0);
    let names: Vec<(&[u8], bool)> = plan.iter().map(|e| (e.name.as_slice(), e.is_dir)).collect();
    assert_eq!(
        names,
        vec![
            (&b"file.txt"[..], false),
            (&b"dir_a"[..], true),
            (&b"dir_a/file_a.txt"[..], false),
            (&b"dir_a/.hidden"[..], false),
            (&b"link"[..], true),
            (&b"link.txt"[..], false),
        ]
    );

    let mut zip_writer = zip::ZipWriter::new(std::io::Cursor::new(Vec::new()));
    let zip_options = zip::write::FileOptions::default()
        .compression_method(zip::CompressionMethod::Stored)
        .unix_permissions(ZIP_PERMISSIONS);
    for zip_entry in &plan {
        let name = String::from_utf8(zip_entry.name.clone()).unwrap();
        if zip_entry.is_dir {
            zip_writer.add_directory(name, zip_options).unwrap();
        } else {
            zip_writer.start_file(name, zip_options).unwrap();
        }
    }
    let v = zip_writer.finish().unwrap().into_inner();
    // https://users.cs.jmu.edu/buchhofp/forensics/formats/pkzip.html#localheader
    assert_eq!(&v[0..4], &[0x50, 0x4b, 0x03, 0x04]);
}

#[test]
fn archive_leaves_out_what_is_not_shown() {
    let mut ignored = entry("target/debug", PathType::Dir);
    ignored.ignored = true;
    let entries = vec![
        entry(".", PathType::Dir),
        entry(".git", PathType::Dir),
        entry(".git/config", PathType::File),
        entry("src/.cache/x", PathType::File),
        entry("src/main.rs", PathType::File),
        ignored,
    ];
    let names = |plan: Vec<ZipEntry>| -> Vec<String> {
        plan.into_iter().map(|e| String::from_utf8(e.name).unwrap()).collect()
    };
    assert_eq!(names(send_dir_as_zip(&entries, false, true)), vec!["src/main.rs"]);
    assert_eq!(
        names(send_dir_as_zip(&entries, false, false)),
        vec!["src/main.rs", "target/debug"]
    );
    assert_eq!(
        names(send_dir_as_zip(&entries, true, true)),
        vec![".git", ".git/config", "src/.cache/x", "src/main.rs"]
    );
    assert_eq!(send_dir_as_zip(&vec![], true, true), vec![]);
}

#[test]
fn listing_of_the_directory_served() {
    let entries = vec![
        entry("zeta.txt", PathType::File),
        entry("alpha", PathType::Dir),
        entry(".hidden", PathType::File),
        entry("link", PathType::SymlinkDir),
        entry("beta.txt", PathType::SymlinkFile),
        entry("Alpha.txt", PathType::File),
    ];
    let listing = send_dir(b"/srv/www", b"/srv/www", &entries, false, true, None).unwrap();
    assert_eq!(listing.dir_name, b"www");
    assert_eq!(
        listing.files,
        vec![
            item(PathType::Dir, "alpha", "/alpha"),
            item(PathType::SymlinkDir, "link", "/link"),
            item(PathType::File, "Alpha.txt", "/Alpha.txt"),
            item(PathType::File, "zeta.txt", "/zeta.txt"),
            item(PathType::SymlinkFile, "beta.txt", "/beta.txt"),
        ]
    );
    assert_eq!(listing.breadcrumbs.len(), 1);
    assert_eq!(listing.breadcrumbs[0].name, b"www");
    assert_eq!(listing.breadcrumbs[0].path, b"/");
}

#[test]
fn listing_of_a_directory_below() {
    let mut ignored = entry("build", PathType::Dir);
    ignored.ignored = true;
    let entries =
        vec![entry("b.txt", PathType::File), ignored, entry(".env", PathType::File), entry("a", PathType::Dir)];
    let listing =
        send_dir(b"/srv/www/docs/api/", b"/srv/www", &entries, true, true, Some(b"/pre")).unwrap();
    assert_eq!(listing.dir_name, b"api");
    assert_eq!(
        listing.files,
        vec![
            item(PathType::Dir, "..", "/pre/docs"),
            item(PathType::Dir, "a", "/pre/docs/api/a"),
            item(PathType::File, ".env", "/pre/docs/api/.env"),
            item(PathType::File, "b.txt", "/pre/docs/api/b.txt"),
        ]
    );
    let crumbs: Vec<(&[u8], &[u8])> =
        listing.breadcrumbs.iter().map(|b| (b.name.as_slice(), b.path.as_slice())).collect();
    assert_eq!(
        crumbs,
        vec![
            (&b"www"[..], &b"/pre/"[..]),
            (&b"docs"[..], &b"/pre/docs"[..]),
            (&b"api"[..], &b"/pre/docs/api"[..]),
        ]
    );
    let one_up = send_dir(b"/srv/www/docs", b"/srv/www", &vec![], true, true, None).unwrap();
    assert_eq!(one_up.files, vec![item(PathType::Dir, "..", "/")]);
}

#[test]
fn listing_is_the_same_whatever_the_order_of_the_walk() {
    let entries = vec![
        entry("c", PathType::File),
        entry("a", PathType::File),
        entry("b", PathType::Dir),
        entry("a", PathType::Dir),
    ];
    let mut reversed = entries.clone();
    reversed.reverse();
    let once = send_dir(b"/r/d", b"/r", &entries, true, false, None).unwrap();
    let again = send_dir(b"/r/d", b"/r", &entries, true, false, None).unwrap();
    let other = send_dir(b"/r/d", b"/r", &reversed, true, false, None).unwrap();
    assert_eq!(once, again);
    assert_eq!(once, other);
}

#[test]
fn directory_outside_cannot_be_listed() {
    assert_eq!(
        send_dir(b"/srv/other", b"/srv/www", &vec![], true, true, None),
        Err(SendError::InvalidInput)
    );
    assert_eq!(
        send_dir(b"/srv/wwwroot", b"/srv/www", &vec![], true, true, None),
        Err(SendError::InvalidInput)
    );
}

#[test]
fn order_of_items() {
    let sorted = sort_items(vec![
        item(PathType::File, "b", "/b"),
        item(PathType::File, "a", "/z"),
        item(PathType::File, "a", "/a"),
        item(PathType::SymlinkFile, "0", "/0"),
        item(PathType::Dir, "z", "/z"),
        item(PathType::File, "", "/"),
        item(PathType::File, "ab", "/ab"),
        item(PathType::File, "B", "/B"),
    ]);
    let mut by_std = sorted.clone();
    by_std.sort();
    assert_eq!(sorted, by_std);
    assert_eq!(
        sorted,
        vec![
            item(PathType::Dir, "z", "/z"),
            item(PathType::File, "", "/"),
            item(PathType::File, "B", "/B"),
            item(PathType::File, "a", "/a"),
            item(PathType::File, "a", "/z"),
            item(PathType::File, "ab", "/ab"),
            item(PathType::File, "b", "/b"),
            item(PathType::SymlinkFile, "0", "/0"),
        ]
    );
    assert!(item_precedes(&sorted[0], &sorted[1]));
    assert!(!item_precedes(&sorted[1], &sorted[0]));
    assert!(item_precedes(&sorted[3], &sorted[3]));
    assert!(bytes_le(b"", b""));
    assert!(bytes_le(b"", b"a"));
    assert!(!bytes_le(b"a", b""));
    assert!(bytes_le(b"a", b"ab"));
    assert!(bytes_le(b"ab", b"b"));
    assert!(!bytes_le(b"\xff", b"a"));
    assert_eq!(sort_items(vec![]), vec![]);
}

#[test]
fn stream_of_a_whole_file() {
    let mut stream = FileStream::whole();
    assert_eq!(stream.want(), BUFFER_SIZE);
    assert_eq!(stream.poll_next(Ok(4096)), Some(Ok(4096)));
    assert_eq!(stream.want(), 4096);
    assert_eq!(stream.poll_next(Ok(8)), Some(Ok(8)));
    assert_eq!(stream.poll_next(Err(SendError::Io)), Some(Err(SendError::Io)));
    assert_eq!(stream.poll_next(Ok(0)), None);
    assert_eq!(stream.remaining, None);
}

#[test]
fn stream_of_a_range() {
    let mut stream = FileStream::limited(5000);
    assert_eq!(stream.want(), 4096);
    assert_eq!(stream.poll_next(Ok(4096)), Some(Ok(4096)));
    assert_eq!(stream.want(), 904);
    assert_eq!(stream.poll_next(Ok(900)), Some(Ok(900)));
    assert_eq!(stream.want(), 4);
    assert_eq!(stream.poll_next(Ok(4)), Some(Ok(4)));
    assert_eq!(stream.want(), 0);
    assert_eq!(stream.poll_next(Ok(0)), None);
    assert_eq!(stream.remaining, Some(0));
}

#[test]
fn archive_holds_what_the_listing_shows() {
    let mut ignored = entry("out", PathType::Dir);
    ignored.ignored = true;
    let entries = vec![
        entry("b.txt", PathType::File),
        entry(".git", PathType::Dir),
        ignored,
        entry("a", PathType::Dir),
        entry("l", PathType::SymlinkFile),
    ];
    for (show_all, with_ignore) in [(false, true), (true, true), (false, false), (true, false)] {
        let listing = send_dir(b"/r", b"/r", &entries, show_all, with_ignore, None).unwrap();
        let mut listed: Vec<Vec<u8>> = listing.files.into_iter().map(|item| item.name).collect();
        let mut stored: Vec<Vec<u8>> = send_dir_as_zip(&entries, show_all, with_ignore)
            .into_iter()
            .map(|entry| entry.name)
            .collect();
        listed.sort();
        stored.sort();
        assert_eq!(listed, stored);
    }
}

#[test]
fn archive_read_back_holds_what_the_listing_shows() {
    let entries = vec![
        entry("b.txt", PathType::File),
        entry(".git", PathType::Dir),
        entry("a", PathType::Dir),
        entry("a.txt", PathType::SymlinkFile),
    ];
    let mut zip_writer = zip::ZipWriter::new(std::io::Cursor::new(Vec::new()));
    let zip_options = zip::write::FileOptions::default()
        .compression_method(zip::CompressionMethod::Stored)
        .unix_permissions(ZIP_PERMISSIONS);
    for zip_entry in send_dir_as_zip(&entries, false, true) {
        let name = String::from_utf8(zip_entry.name).unwrap();
        if zip_entry.is_dir {
            zip_writer.add_directory(name, zip_options).unwrap();
        } else {
            zip_writer.start_file(name, zip_options).unwrap();
            std::io::Write::write_all(&mut zip_writer, b"01234567").unwrap();
        }
    }
    let archive = zip::ZipArchive::new(zip_writer.finish().unwrap()).unwrap();
    let mut stored: Vec<String> =
        archive.file_names().map(|name| name.trim_end_matches('/').to_string()).collect();
    stored.sort();
    let listing = send_dir(b"/r", b"/r", &entries, false, true, None).unwrap();
    let mut listed: Vec<String> =
        listing.files.into_iter().map(|item| String::from_utf8(item.name).unwrap()).collect();
    listed.sort();
    assert_eq!(stored, listed);
    assert_eq!(stored, vec!["a", "a.txt", "b.txt"]);
}
