use http_context::{classify, derive_key, key_from_parts, HeaderField, HttpContext};

fn field(name: &str, value: &str) -> HeaderField {
    HeaderField { name: name.to_string(), value: Some(value.to_string()) }
}

fn context(headers: Vec<HeaderField>) -> HttpContext {
    HttpContext::from_headers(&headers, "10.0.0.1:443".to_string())
}

#[test]
fn plain_request_key() {
    let ctx = context(vec![]);
    assert_eq!(derive_key("GET", "/", &ctx), "id=773f8ff41762cdee|cat=gen");
}

#[test]
fn media_key_segments() {
    let ctx = context(vec![field("Content-Type", "text/html")]);
    let uri = "/videos/movie.mp4?codec=h265&resolution=1080p";
    assert_eq!(
        derive_key("GET", uri, &ctx),
        "id=4e0c5df1d2083cff|cat=vid|res=1080p|codec=h265|ct=7ca4614e|qs=a650fc87"
    );
    let cls = classify("/videos/movie.mp4", "codec=h265&resolution=1080p");
    assert_eq!(key_from_parts("GET", uri, &cls, &ctx), derive_key("GET", uri, &ctx));
}

#[test]
fn key_is_deterministic() {
    let ctx = context(vec![field("Accept", "text/html, */*"), field("Range", "bytes=0-99")]);
    let a = derive_key("GET", "/hls/stream/segment_42.ts", &ctx);
    let b = derive_key("GET", "/hls/stream/segment_42.ts", &ctx);
    assert_eq!(a, b);
    assert!(a.contains("|cat=seg|idx=000000000000002a|pl=105fc471|rng="));
}

#[test]
fn unrecognized_header_keeps_key() {
    let a = context(vec![field("Accept", "text/html")]);
    let b = context(vec![field("X-Debug-Id", "1234"), field("Accept", "text/html")]);
    assert_eq!(derive_key("GET", "/a.css", &a), derive_key("GET", "/a.css", &b));
}

#[test]
fn different_ranges_split_keys() {
    let a = context(vec![field("Range", "bytes=0-99")]);
    let b = context(vec![field("Range", "bytes=100-199")]);
    assert_ne!(derive_key("GET", "/v.mp4", &a), derive_key("GET", "/v.mp4", &b));
}

#[test]
fn equivalent_ranges_share_keys() {
    let a = context(vec![field("Range", "bytes=0-99")]);
    let b = context(vec![field("Range", " bytes = 0-99 , ")]);
    assert_eq!(derive_key("GET", "/v.mp4", &a), derive_key("GET", "/v.mp4", &b));
}

#[test]
fn authorization_splits_keys() {
    let a = context(vec![field("Authorization", "Bearer SECRET-REDACTED")]);
    let b = context(vec![]);
    let ka = derive_key("GET", "/doc.pdf", &a);
    assert_ne!(ka, derive_key("GET", "/doc.pdf", &b));
    assert!(!ka.contains("Bearer"));
}

#[test]
fn first_language_token_only() {
    let a = context(vec![field("Accept-Language", "en-US, fr")]);
    let b = context(vec![field("Accept-Language", "en-US,de")]);
    let c = context(vec![field("Accept-Language", "fr")]);
    assert_eq!(derive_key("GET", "/", &a), derive_key("GET", "/", &b));
    assert_ne!(derive_key("GET", "/", &a), derive_key("GET", "/", &c));
}

#[test]
fn etag_quotes_do_not_matter() {
    let a = context(vec![field("ETag", "\"v1\"")]);
    let b = context(vec![field("etag", " v1 ")]);
    let c = context(vec![field("ETag", "\"v2\"")]);
    assert_eq!(derive_key("GET", "/", &a), derive_key("GET", "/", &b));
    assert_ne!(derive_key("GET", "/", &a), derive_key("GET", "/", &c));
    assert!(derive_key("GET", "/", &a).contains("|et="));
}

#[test]
fn content_range_when_no_range() {
    let a = context(vec![field("Content-Range", "bytes 0-99/1000")]);
    let b = context(vec![field("Content-Range", "BYTES 0 - 99/1000")]);
    let none = context(vec![]);
    assert_eq!(derive_key("GET", "/v.mp4", &a), derive_key("GET", "/v.mp4", &b));
    assert_ne!(derive_key("GET", "/v.mp4", &a), derive_key("GET", "/v.mp4", &none));
}

#[test]
fn range_takes_precedence_over_content_range() {
    let a = context(vec![field("Range", "bytes=0-99"), field("Content-Range", "bytes 5-9/10")]);
    let b = context(vec![field("Range", "bytes=0-99")]);
    assert_eq!(derive_key("GET", "/v.mp4", &a), derive_key("GET", "/v.mp4", &b));
}

#[test]
fn last_modified_splits_keys() {
    let a = context(vec![field("Last-Modified", "Sun, 06 Nov 1994 08:49:37 GMT")]);
    let b = context(vec![]);
    assert_ne!(derive_key("GET", "/", &a), derive_key("GET", "/", &b));
}

#[test]
fn segments_of_one_playlist_share_its_hash() {
    let ctx = context(vec![]);
    let a = derive_key("GET", "/hls/stream/segment_1.ts?token=x", &ctx);
    let b = derive_key("GET", "/hls/stream/segment_2.ts", &ctx);
    assert!(a.contains("|pl=105fc471"));
    assert!(b.contains("|pl=105fc471"));
    assert!(!derive_key("GET", "/site/page.html", &ctx).contains("|pl="));
}
