use http_context::{
    format_http_date, parse_etag_list, parse_http_date, parse_if_range, parse_range_header,
    parse_u64, HttpDate, IfRangeHeader, RangeSpec,
};

const INSTANT: i64 = 784111777;

#[test]
fn range_closed_interval() {
    let h = parse_range_header("bytes=0-499").unwrap();
    assert_eq!(h.unit, "bytes");
    assert_eq!(h.ranges, vec![RangeSpec { start: Some(0), end: Some(499) }]);
}

#[test]
fn range_open_end() {
    let h = parse_range_header("bytes=500-").unwrap();
    assert_eq!(h.ranges, vec![RangeSpec { start: Some(500), end: None }]);
}

#[test]
fn range_suffix() {
    let h = parse_range_header("bytes=-500").unwrap();
    assert_eq!(h.ranges, vec![RangeSpec { start: None, end: Some(500) }]);
}

#[test]
fn range_empty_list_is_absent() {
    assert!(parse_range_header("bytes=").is_none());
}

#[test]
fn range_several_and_malformed_pieces() {
    let h = parse_range_header(" bytes = 0-1, 5 , 7-9-10, ,-, 20-30").unwrap();
    assert_eq!(h.unit, "bytes");
    assert_eq!(
        h.ranges,
        vec![
            RangeSpec { start: Some(0), end: Some(1) },
            RangeSpec { start: Some(20), end: Some(30) },
        ]
    );
}

#[test]
fn range_needs_one_equals_sign() {
    assert!(parse_range_header("bytes0-1").is_none());
    assert!(parse_range_header("bytes=0-1=2").is_none());
}

#[test]
fn range_largest_bound() {
    let h = parse_range_header("bytes=18446744073709551615-18446744073709551616").unwrap();
    assert_eq!(h.ranges, vec![RangeSpec { start: Some(u64::MAX), end: None }]);
}

#[test]
fn numbers_parse_as_std_does() {
    assert_eq!(parse_u64("42"), Some(42));
    assert_eq!(parse_u64("+7"), Some(7));
    assert_eq!(parse_u64(""), None);
    assert_eq!(parse_u64("+"), None);
    assert_eq!(parse_u64("-1"), None);
    assert_eq!(parse_u64("1 "), None);
    assert_eq!(parse_u64("18446744073709551615"), Some(u64::MAX));
    assert_eq!(parse_u64("18446744073709551616"), None);
}

#[test]
fn etag_list_trims_and_unquotes() {
    let tags = parse_etag_list(" \"abc\" , W/\"x\",, \"\" ,*").unwrap();
    assert_eq!(tags, vec!["abc".to_string(), "W/\"x".to_string(), "*".to_string()]);
}

#[test]
fn etag_list_of_nothing_is_absent() {
    assert!(parse_etag_list(" , \"\" ,").is_none());
}

#[test]
fn imf_fixdate_round_trip() {
    for s in [
        "Sun, 06 Nov 1994 08:49:37 GMT",
        "Thu, 01 Jan 1970 00:00:00 GMT",
        "Tue, 29 Feb 2000 23:59:59 GMT",
        "Fri, 31 Dec 9999 12:00:01 GMT",
    ] {
        let d = parse_http_date(s).unwrap();
        assert_eq!(format_http_date(&d), s);
    }
}

#[test]
fn three_grammars_same_instant() {
    let imf = parse_http_date("Sun, 06 Nov 1994 08:49:37 GMT").unwrap();
    let rfc850 = parse_http_date("Sunday, 06-Nov-94 08:49:37 GMT").unwrap();
    let asctime = parse_http_date("Sun Nov  6 08:49:37 1994").unwrap();
    assert_eq!(imf.timestamp(), INSTANT);
    assert_eq!(rfc850, imf);
    assert_eq!(asctime, imf);
}

#[test]
fn date_text_is_trimmed() {
    let d = parse_http_date("  Sun, 06 Nov 1994 08:49:37 GMT \t").unwrap();
    assert_eq!(d.timestamp(), INSTANT);
}

#[test]
fn date_garbage_is_absent() {
    assert!(parse_http_date("yesterday").is_none());
    assert!(parse_http_date("").is_none());
}

#[test]
fn format_epoch() {
    let d = HttpDate::from_timestamp(0, 0).unwrap();
    assert_eq!(format_http_date(&d), "Thu, 01 Jan 1970 00:00:00 GMT");
}

#[test]
fn timestamp_range_is_checked() {
    assert!(HttpDate::from_timestamp(8210266876799, 0).is_some());
    assert!(HttpDate::from_timestamp(8210266876800, 0).is_none());
    assert!(HttpDate::from_timestamp(-8334601315200, 0).is_some());
    assert!(HttpDate::from_timestamp(-8334601315201, 0).is_none());
    assert!(HttpDate::from_timestamp(59, 1_500_000_000).is_some());
    assert!(HttpDate::from_timestamp(-1, 1_500_000_000).is_some());
    assert!(HttpDate::from_timestamp(58, 1_500_000_000).is_none());
    assert!(HttpDate::from_timestamp(0, 2_000_000_000).is_none());
}

#[test]
fn if_range_date_or_etag() {
    match parse_if_range("1994-11-06T08:49:37Z") {
        IfRangeHeader::Date(d) => assert_eq!(d.timestamp(), INSTANT),
        other => panic!("expected a date, got {:?}", other),
    }
    assert_eq!(parse_if_range("\"abc\""), IfRangeHeader::ETag("abc".to_string()));
    assert_eq!(
        parse_if_range("Sun, 06 Nov 1994 08:49:37 GMT"),
        IfRangeHeader::ETag("Sun, 06 Nov 1994 08:49:37 GMT".to_string())
    );
}
