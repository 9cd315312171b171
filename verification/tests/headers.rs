use sfz::http::headers::{EntityTag, TagCondition};

fn tags(list: &[(bool, &str)]) -> TagCondition {
    TagCondition::Tags(
        list.iter()
            .map(|(weak, tag)| EntityTag { weak: *weak, tag: tag.as_bytes().to_vec() })
            .collect(),
    )
}

#[test]
fn a_tag_stands_between_quotes() {
    assert_eq!(EntityTag::parse(b"\"xyzzy\""), Some(EntityTag::strong(b"xyzzy")));
    assert_eq!(EntityTag::parse(b"W/\"xyzzy\""), Some(EntityTag::weak(b"xyzzy")));
    assert_eq!(EntityTag::parse(b"\"\""), Some(EntityTag::strong(b"")));
    assert_eq!(EntityTag::parse(b"W/\"\""), Some(EntityTag::weak(b"")));
    assert_eq!(EntityTag::parse(b"\"a,b c\""), Some(EntityTag::strong(b"a,b c")));
    assert_eq!(EntityTag::parse(b"\"1600000000-8\""), Some(EntityTag::for_file(1_600_000_000, 8)));
}

#[test]
fn what_is_no_tag() {
    assert_eq!(EntityTag::parse(b""), None);
    assert_eq!(EntityTag::parse(b"\""), None);
    assert_eq!(EntityTag::parse(b"xyzzy"), None);
    assert_eq!(EntityTag::parse(b"\"xyzzy"), None);
    assert_eq!(EntityTag::parse(b"xyzzy\""), None);
    assert_eq!(EntityTag::parse(b"\"x\"y\""), None);
    assert_eq!(EntityTag::parse(b"W/\""), None);
    assert_eq!(EntityTag::parse(b"W\"x\""), None);
    assert_eq!(EntityTag::parse(b"w/\"x\""), None);
    assert_eq!(EntityTag::parse(b" \"x\""), None);
    assert_eq!(EntityTag::parse(b"W/\"x\"\""), None);
}

#[test]
fn a_tag_reads_as_it_is_written() {
    for tag in [EntityTag::strong(b"hello"), EntityTag::weak(b""), EntityTag::for_file(3, 4)] {
        assert_eq!(EntityTag::parse(&tag.header_value()), Some(tag));
    }
}

#[test]
fn the_asterisk_stands_for_every_tag() {
    assert_eq!(TagCondition::parse(b"*"), TagCondition::Any);
    assert_eq!(TagCondition::parse(b" *"), tags(&[]));
    assert_eq!(TagCondition::parse(b"*, \"a\""), tags(&[(false, "a")]));
    assert!(TagCondition::parse(b"*").matches_strong(&EntityTag::weak(b"any")));
}

#[test]
fn a_list_of_tags() {
    assert_eq!(TagCondition::parse(b"\"a\""), tags(&[(false, "a")]));
    assert_eq!(
        TagCondition::parse(b"\"a\", W/\"b\" ,\t\"c\""),
        tags(&[(false, "a"), (true, "b"), (false, "c")])
    );
    assert_eq!(TagCondition::parse(b""), tags(&[]));
    assert_eq!(TagCondition::parse(b",,"), tags(&[]));
    assert_eq!(TagCondition::parse(b"a, \"b\", c\"d\""), tags(&[(false, "b")]));
}

#[test]
fn commas_within_quotes_do_not_cut() {
    assert_eq!(TagCondition::parse(b"\"a,b\", \"c\""), tags(&[(false, "a,b"), (false, "c")]));
    assert_eq!(TagCondition::parse(b"W/\",\",\",,\""), tags(&[(true, ","), (false, ",,")]));
    assert_eq!(TagCondition::parse(b"\"a, \"b\""), tags(&[]));
}

#[test]
fn a_value_that_is_no_text_names_no_tag() {
    assert_eq!(TagCondition::parse(b"\"a\x00\""), tags(&[]));
    assert_eq!(TagCondition::parse("\"é\"".as_bytes()), tags(&[]));
    let none = TagCondition::parse(b"\"\x7f\"");
    assert!(!none.matches_weak(&EntityTag::strong(b"\x7f")));
}

#[test]
fn matching_against_what_was_read() {
    let condition = TagCondition::parse(b"W/\"a\", \"b\"");
    assert!(condition.matches_weak(&EntityTag::strong(b"a")));
    assert!(!condition.matches_strong(&EntityTag::strong(b"a")));
    assert!(condition.matches_strong(&EntityTag::strong(b"b")));
    assert!(!condition.matches_strong(&EntityTag::weak(b"b")));
    assert!(!condition.matches_weak(&EntityTag::strong(b"c")));
}
