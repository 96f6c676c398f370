use http_context::{HeaderField, HttpContext, HttpDate};

const T: i64 = 784111777;

fn field(name: &str, value: &str) -> HeaderField {
    HeaderField { name: name.to_string(), value: Some(value.to_string()) }
}

fn context(headers: Vec<HeaderField>) -> HttpContext {
    HttpContext::from_headers(&headers, "127.0.0.1:8080".to_string())
}

#[test]
fn equal_dates_are_not_modified() {
    let ctx = context(vec![field("If-Modified-Since", "Sun, 06 Nov 1994 08:49:37 GMT")]);
    let same = HttpDate::from_timestamp(T, 0).unwrap();
    let later = HttpDate::from_timestamp(T + 1, 0).unwrap();
    let earlier = HttpDate::from_timestamp(T - 1, 0).unwrap();
    assert!(ctx.should_return_304(Some(&same), None));
    assert!(!ctx.should_return_304(Some(&later), None));
    assert!(ctx.should_return_304(Some(&earlier), None));
    assert!(!ctx.should_return_304(None, None));
}

#[test]
fn if_none_match_star_and_exact() {
    let ctx = context(vec![field("if-none-match", "\"abc\", \"def\"")]);
    assert!(ctx.should_return_304(None, Some("def")));
    assert!(!ctx.should_return_304(None, Some("xyz")));
    assert!(!ctx.should_return_304(None, None));
    let star = context(vec![field("if-none-match", "*")]);
    assert!(star.should_return_304(None, Some("anything")));
}

#[test]
fn if_match_mismatch_fails() {
    let ctx = context(vec![field("If-Match", "\"abc\"")]);
    assert_eq!(ctx.if_match, Some(vec!["abc".to_string()]));
    assert!(ctx.should_return_412(None, Some("xyz")));
    assert!(!ctx.should_return_412(None, Some("abc")));
    assert!(ctx.should_return_412(None, None));
}

#[test]
fn if_match_star_never_fails() {
    let ctx = context(vec![field("If-Match", "*")]);
    assert!(!ctx.should_return_412(None, Some("xyz")));
    assert!(!ctx.should_return_412(None, Some("")));
}

#[test]
fn if_unmodified_since_later_fails() {
    let ctx = context(vec![field("If-Unmodified-Since", "Sun, 06 Nov 1994 08:49:37 GMT")]);
    let same = HttpDate::from_timestamp(T, 0).unwrap();
    let later = HttpDate::from_timestamp(T + 1, 0).unwrap();
    assert!(!ctx.should_return_412(Some(&same), None));
    assert!(ctx.should_return_412(Some(&later), None));
}

#[test]
fn if_range_etag_must_match() {
    let ctx = context(vec![field("If-Range", "\"abc\"")]);
    assert!(ctx.can_use_range(None, Some("abc")));
    assert!(!ctx.can_use_range(None, Some("xyz")));
    assert!(!ctx.can_use_range(None, None));
}

#[test]
fn if_range_date_compares_last_modified() {
    let ctx = context(vec![field("If-Range", "1994-11-06T08:49:37Z")]);
    let same = HttpDate::from_timestamp(T, 0).unwrap();
    let later = HttpDate::from_timestamp(T, 1).unwrap();
    assert!(ctx.can_use_range(Some(&same), None));
    assert!(!ctx.can_use_range(Some(&later), None));
    assert!(!ctx.can_use_range(None, Some("abc")));
}

#[test]
fn no_if_range_always_usable() {
    let ctx = context(vec![]);
    assert!(ctx.can_use_range(None, None));
    assert!(!ctx.should_return_304(None, Some("abc")));
    assert!(!ctx.should_return_412(None, Some("abc")));
}

#[test]
fn headers_are_extracted() {
    let ctx = context(vec![
        field("Host", " example.com "),
        field("Content-Length", "1234"),
        field("Range", "bytes=0-99"),
        field("X-Debug-Id", "abc"),
        field("x-debug-id", "def"),
        HeaderField { name: "X-Binary".to_string(), value: None },
        field("host", "second.example"),
        HeaderField { name: "Accept".to_string(), value: None },
    ]);
    assert_eq!(ctx.client_addr, "127.0.0.1:8080");
    assert_eq!(ctx.host, Some("example.com".to_string()));
    assert_eq!(ctx.content_length, Some(1234));
    assert_eq!(ctx.accept, None);
    assert_eq!(ctx.range.as_ref().unwrap().ranges.len(), 1);
    assert_eq!(ctx.get_header("X-DEBUG-ID"), Some(&"def".to_string()));
    assert_eq!(ctx.get_header("x-binary"), Some(&String::new()));
    assert_eq!(ctx.get_header("host"), None);
    assert_eq!(ctx.other_headers.len(), 2);
}

#[test]
fn unparseable_content_length_is_absent() {
    let ctx = context(vec![field("content-length", "12a")]);
    assert_eq!(ctx.content_length, None);
}
