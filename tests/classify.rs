use http_context::{classify, classify_lowered, ContentCategory};

#[test]
fn video_with_codec_and_resolution() {
    let c = classify("/videos/movie.mp4", "codec=h265&resolution=1080p");
    assert_eq!(c.category, ContentCategory::Video);
    assert_eq!(c.extension, Some("mp4".to_string()));
    assert_eq!(c.codec, Some("h265".to_string()));
    assert_eq!(c.quality.width, Some(1920));
    assert_eq!(c.quality.height, Some(1080));
    assert_eq!(c.quality.label, Some("1080p".to_string()));
    assert!(!c.is_streaming);
}

#[test]
fn hls_segment_index() {
    let c = classify("/hls/stream/segment_42.ts", "");
    assert_eq!(c.category, ContentCategory::MediaSegment);
    assert!(c.is_streaming);
    assert!(!c.is_init_segment);
    assert_eq!(c.segment_index, Some(42));
    assert_eq!(c.codec, None);
}

#[test]
fn path_is_compared_lower_cased() {
    let c = classify("/Videos/MOVIE.MP4", "");
    assert_eq!(c.category, ContentCategory::Video);
    assert_eq!(c.extension, Some("mp4".to_string()));
}

#[test]
fn path_patterns_without_extension() {
    assert_eq!(classify("/media/clip", "").category, ContentCategory::Video);
    assert_eq!(classify("/music/track", "").category, ContentCategory::Audio);
    let m = classify("/dash/manifest", "");
    assert_eq!(m.category, ContentCategory::StreamingManifest);
    assert!(m.is_streaming);
    let s = classify("/live/chunk", "");
    assert_eq!(s.category, ContentCategory::MediaSegment);
    let i = classify("/live/x", "init=1");
    assert_eq!(i.category, ContentCategory::MediaSegment);
    assert!(i.is_init_segment && i.is_streaming);
    assert_eq!(classify("/img/logo", "").category, ContentCategory::Image);
    assert_eq!(classify("/about", "").category, ContentCategory::Other);
}

#[test]
fn extension_table() {
    assert_eq!(classify("/a/b.m3u8", "").category, ContentCategory::StreamingManifest);
    assert_eq!(classify("/a/b.css", "").category, ContentCategory::Stylesheet);
    assert_eq!(classify("/a/b.js", "").category, ContentCategory::Script);
    assert_eq!(classify("/a/b.json", "").category, ContentCategory::Data);
    assert_eq!(classify("/a/b.pdf", "").category, ContentCategory::Document);
    assert_eq!(classify("/a/b.html", "").category, ContentCategory::Html);
    assert_eq!(classify("/a/b.flac", "").category, ContentCategory::Audio);
    assert_eq!(classify("/a.b/c", "").extension, None);
    assert_eq!(classify("/a/b.", "").extension, None);
    assert_eq!(classify("/a/b.xyz", "").category, ContentCategory::Other);
}

#[test]
fn codec_from_path_tokens() {
    assert_eq!(classify("/video/hevc/clip", "").codec, Some("h265".to_string()));
    assert_eq!(classify("/video/avc/clip", "").codec, Some("h264".to_string()));
    assert_eq!(classify("/audio/a.mp3", "").codec, Some("mp3".to_string()));
    assert_eq!(classify("/video/x.mp4", "c=av1").codec, Some("av1".to_string()));
}

#[test]
fn quality_and_bitrate() {
    let c = classify_lowered("/video/x.mp4", "res=ultra&bitrate=5000");
    assert_eq!(c.quality.label, Some("ultra".to_string()));
    assert_eq!(c.quality.width, None);
    assert_eq!(c.quality.bitrate, Some(5000));
    let p = classify_lowered("/video/720p/x.mp4", "br=abc");
    assert_eq!(p.quality.label, Some("720p".to_string()));
    assert_eq!(p.quality.width, Some(1280));
    assert_eq!(p.quality.height, Some(720));
    assert_eq!(p.quality.bitrate, None);
}

#[test]
fn segment_index_from_query() {
    let c = classify("/hls/seg.ts", "seg=7");
    assert_eq!(c.segment_index, Some(7));
    let d = classify("/hls/seg.ts", "");
    assert_eq!(d.segment_index, None);
}

#[test]
fn quality_patterns_in_path() {
    let wxh = classify("/video/1920x1080/clip.mp4", "");
    assert_eq!(wxh.quality.width, Some(1920));
    assert_eq!(wxh.quality.height, Some(1080));
    assert_eq!(wxh.quality.label, Some("1920x1080".to_string()));
    let lines = classify("/video/1440p/clip.mp4", "");
    assert_eq!(lines.quality.label, Some("1440p".to_string()));
    assert_eq!(lines.quality.width, None);
    let named = classify("/video/4k/clip.mp4", "");
    assert_eq!(named.quality.label, Some("4k".to_string()));
    assert_eq!(named.quality.width, Some(3840));
    assert_eq!(named.quality.height, Some(2160));
    let none = classify("/hls/stream/segment_42.ts", "");
    assert_eq!(none.quality.label, None);
}

#[test]
fn query_quality_beats_path() {
    let c = classify("/video/1920x1080/clip.mp4", "q=480p");
    assert_eq!(c.quality.label, Some("480p".to_string()));
    assert_eq!(c.quality.width, Some(854));
    assert_eq!(c.quality.height, Some(480));
}
