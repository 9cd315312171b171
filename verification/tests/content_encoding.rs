use std::cmp::Ordering;

use sfz::http::content_encoding::{
    compressor, encoding_to_static_str, get_prior_encoding, negotiate, parse_qvalue,
    should_compress, sort_encoding, Encoding, QualityValue, UnsupportedEncoding, BR, DEFLATE, GZIP,
    IDENTITY,
};

#[test]
fn parse_successfully() {
    let cases: Vec<(Option<QualityValue>, &str)> = vec![
        (Some(QualityValue(BR.as_bytes(), 1000)), "br;q=1"),
        (Some(QualityValue(BR.as_bytes(), 0)), "br;q=0"),
        (Some(QualityValue(BR.as_bytes(), 1000)), "br;q=1.000"),
        (Some(QualityValue(BR.as_bytes(), 0)), "br;q=0.000"),
        (Some(QualityValue(BR.as_bytes(), 1000)), "br"),
        (Some(QualityValue(BR.as_bytes(), 1000)), "br;"),
        (Some(QualityValue(BR.as_bytes(), 0)), "br;1234asd"),
        (Some(QualityValue(BR.as_bytes(), 500)), "       br    ;   q=0.5    "),
        (Some(QualityValue(b"*", 1000)), "*"),
        (Some(QualityValue(b"*", 300)), "*;q=0.3"),
        (Some(QualityValue(b"q=123", 1000)), "q=123"),
        (None, ""),
    ];
    for case in cases {
        let res = parse_qvalue(case.1.as_bytes());
        assert_eq!(res, case.0, "failed on case: {:?}", case);
    }
}

#[test]
fn same_qualities() {
    let brotli = &QualityValue(BR.as_bytes(), 1000);
    let gzip = &QualityValue(GZIP.as_bytes(), 1000);
    let deflate = &QualityValue(DEFLATE.as_bytes(), 1000);
    assert_eq!(sort_encoding(brotli, gzip), Ordering::Greater);
    assert_eq!(sort_encoding(brotli, deflate), Ordering::Greater);
    assert_eq!(sort_encoding(gzip, deflate), Ordering::Greater);
    assert_eq!(sort_encoding(gzip, brotli), Ordering::Less);
    assert_eq!(sort_encoding(deflate, brotli), Ordering::Less);
}

#[test]
fn second_item_with_greater_quality() {
    let a = &QualityValue(BR.as_bytes(), 500);
    let b = &QualityValue(DEFLATE.as_bytes(), 1000);
    assert_eq!(sort_encoding(a, b), Ordering::Less);
}

#[test]
fn with_unsupported_encoding() {
    // Empty encoding
    let encoding = get_prior_encoding(b"");
    assert_eq!(encoding, IDENTITY);

    // Deprecated encoding.
    let encoding = get_prior_encoding(b"compress");
    assert_eq!(encoding, IDENTITY);
}

#[test]
fn pick_highest_priority() {
    let cases = vec![
        (BR, "br,gzip,deflate"),
        (BR, "gzip,br,deflate"),
        (BR, "deflate,gzip,br"),
        (BR, "br;q=0.8,gzip;q=0.5,deflate;q=0.2"),
        (GZIP, "br;q=0.5,gzip,deflate;q=0.8"),
    ];
    for case in cases {
        let encoding = get_prior_encoding(case.1.as_bytes());
        assert_eq!(encoding, case.0, "failed on case: {:?}", case);
    }
}

#[test]
fn filter_out_zero_quality() {
    let encoding = get_prior_encoding(b"brotli;q=0,gzip;q=0,deflate");
    assert_eq!(encoding, DEFLATE);
}

#[test]
fn no_entry_of_weight_zero_wins() {
    assert_eq!(get_prior_encoding(b"gzip;q=0"), IDENTITY);
    assert_eq!(get_prior_encoding(b"gzip;q=0, br;q=0.000"), IDENTITY);
    assert_eq!(negotiate(b"gzip;q=0,deflate;q=0.001"), Encoding::Deflate);
}

#[test]
fn header_that_is_no_text_asks_for_identity() {
    assert_eq!(get_prior_encoding(b"gzip\x00"), IDENTITY);
    assert_eq!(get_prior_encoding(&[0xff, b'b', b'r']), IDENTITY);
    assert_eq!(get_prior_encoding(b"br\t"), BR);
}

#[test]
fn weights_are_counted_in_thousandths() {
    let weight = |text: &str| parse_qvalue(text.as_bytes()).map(|v| v.1);
    assert_eq!(weight("gzip;q=0.25"), Some(250));
    assert_eq!(weight("gzip;q=0.001"), Some(1));
    assert_eq!(weight("gzip;q=0.0009"), Some(0));
    assert_eq!(weight("gzip;q=0.9999"), Some(999));
    assert_eq!(weight("gzip;q=.5"), Some(500));
    assert_eq!(weight("gzip;q=1."), Some(1000));
    assert_eq!(weight("gzip;q=1.0009"), Some(1000));
    assert_eq!(weight("gzip;q=1.001"), Some(0));
    assert_eq!(weight("gzip;q=2"), Some(0));
    assert_eq!(weight("gzip;q=99999999999999999999999999"), Some(0));
    assert_eq!(weight("gzip;q=000000000000000000000000001"), Some(1000));
    assert_eq!(weight("gzip;q=."), Some(0));
    assert_eq!(weight("gzip;q="), Some(0));
    assert_eq!(weight("gzip;q=-0.5"), Some(0));
    assert_eq!(weight("gzip;q=q=0.5"), Some(500));
    assert_eq!(weight("gzip;q=0.5 "), Some(500));
    assert_eq!(weight("gzip;q=0.5 ;x"), Some(0));
    assert_eq!(weight("gzip;;"), Some(0));
    assert_eq!(weight("gzip;q=0.5;q=1"), Some(500));
}

#[test]
fn names_are_cut_at_the_first_semicolon() {
    assert_eq!(parse_qvalue(b";q=1"), Some(QualityValue(b"", 1000)));
    assert_eq!(parse_qvalue(b" ; "), Some(QualityValue(b"", 1000)));
    assert_eq!(parse_qvalue(b"  \t "), None);
    assert_eq!(parse_qvalue(b"gzip \t;q=0.1"), Some(QualityValue(b"gzip", 100)));
}

#[test]
fn names_of_codings() {
    assert_eq!(encoding_to_static_str(b"br"), BR);
    assert_eq!(encoding_to_static_str(b"gzip"), GZIP);
    assert_eq!(encoding_to_static_str(b"deflate"), DEFLATE);
    assert_eq!(encoding_to_static_str(b"identity"), IDENTITY);
    assert_eq!(encoding_to_static_str(b"GZIP"), IDENTITY);
    assert_eq!(encoding_to_static_str(b""), IDENTITY);
    assert_eq!(encoding_to_static_str(b"compress"), IDENTITY);
    assert_eq!(Encoding::from(b"br"), Encoding::Brotli);
    assert!(Encoding::Identity < Encoding::Deflate);
    assert!(Encoding::Deflate < Encoding::Gzip);
    assert!(Encoding::Gzip < Encoding::Brotli);
}

#[test]
fn identity_does_not_compress() {
    assert!(!should_compress(IDENTITY));
    assert!(should_compress(BR));
    assert!(should_compress(GZIP));
    assert!(should_compress(DEFLATE));
    assert!(should_compress(""));
}

#[test]
fn later_coding_wins_among_equal_weights() {
    assert_eq!(negotiate(b"gzip;q=0.5, br;q=0.5, deflate;q=0.5"), Encoding::Brotli);
    assert_eq!(negotiate(b"deflate;q=0.5, gzip;q=0.5"), Encoding::Gzip);
    assert_eq!(negotiate(b"identity, deflate"), Encoding::Deflate);
    assert_eq!(negotiate(b"*"), Encoding::Identity);
    assert_eq!(negotiate(b"*;q=1, gzip;q=0.9"), Encoding::Identity);
    assert_eq!(
        sort_encoding(&QualityValue(b"x", 7), &QualityValue(b"identity", 7)),
        Ordering::Equal
    );
}

#[test]
fn failed() {
    let error = compressor(b"unrecognized").unwrap_err();
    assert_eq!(error, UnsupportedEncoding);
    assert_eq!(compressor(b"identity"), Err(UnsupportedEncoding));
    assert_eq!(compressor(b""), Err(UnsupportedEncoding));
}

#[test]
fn codings_that_compress() {
    assert_eq!(compressor(b"br"), Ok(Encoding::Brotli));
    assert_eq!(compressor(b"gzip"), Ok(Encoding::Gzip));
    assert_eq!(compressor(b"deflate"), Ok(Encoding::Deflate));
}
