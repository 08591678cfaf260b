use kaidadb::http::{
    answer_range, content_range, metadata_from_headers, normalize_key, parse_range_header, route_streams_path, RequestMethod,
    StreamRoute,
};

#[test]
fn keys_lose_one_leading_slash() {
    assert_eq!(normalize_key("/a/b".into()), "a/b");
    assert_eq!(normalize_key("//a".into()), "/a");
    assert_eq!(normalize_key("a".into()), "a");
    assert_eq!(normalize_key(String::new()), "");
}

#[test]
fn range_headers() {
    assert_eq!(parse_range_header(None, 1000), (0, 0, false));
    assert_eq!(parse_range_header(Some("bytes=0-99"), 1000), (0, 100, true));
    assert_eq!(parse_range_header(Some("bytes=100-"), 1000), (100, 900, true));
    assert_eq!(parse_range_header(Some("bytes=-500"), 1000), (500, 500, true));
    assert_eq!(parse_range_header(Some("bytes=-5000"), 1000), (0, 1000, true));
    assert_eq!(parse_range_header(Some("bytes=-0"), 1000), (0, 0, false));
    assert_eq!(parse_range_header(Some("bytes=900-5000"), 1000), (900, 100, true));
    assert_eq!(parse_range_header(Some("bytes=900-x"), 1000), (900, 100, true));
    assert_eq!(parse_range_header(Some("bytes=1000-"), 1000), (0, 0, false));
    assert_eq!(parse_range_header(Some("bytes=50-10"), 1000), (0, 0, false));
    assert_eq!(parse_range_header(Some("bytes=5"), 1000), (0, 0, false));
    assert_eq!(parse_range_header(Some("items=0-1"), 1000), (0, 0, false));
    assert_eq!(parse_range_header(Some("bytes=a-1"), 1000), (0, 0, false));
    assert_eq!(parse_range_header(Some("bytes=0-1"), 0), (0, 0, false));
    assert_eq!(parse_range_header(Some("bytes=1-2-3"), 1000), (1, 999, true));
}

#[test]
fn content_range_text() {
    assert_eq!(content_range(100, 300, 1000), "bytes 100-299/1000");
}

fn route(m: RequestMethod, p: &str) -> String {
    match route_streams_path(m, p) {
        StreamRoute::Master(s) => format!("master {s}"),
        StreamRoute::Dash(s) => format!("dash {s}"),
        StreamRoute::VariantPlaylist(s, v) => format!("variant {s} {v}"),
        StreamRoute::Delete(s) => format!("delete {s}"),
        StreamRoute::MethodNotAllowed => "405".into(),
        StreamRoute::NotFound => "404".into(),
    }
}

#[test]
fn stream_routes() {
    assert_eq!(route(RequestMethod::Get, "movie/master.m3u8"), "master movie");
    assert_eq!(route(RequestMethod::Delete, "movie/master.m3u8"), "405");
    assert_eq!(route(RequestMethod::Get, "movie/manifest.mpd"), "dash movie");
    assert_eq!(route(RequestMethod::Get, "movie/variant/720p/playlist.m3u8"), "variant movie 720p");
    assert_eq!(route(RequestMethod::Other, "movie/variant/720p/playlist.m3u8"), "405");
    assert_eq!(route(RequestMethod::Get, "a/variant/b/variant/c/playlist.m3u8"), "variant a/variant/b c");
    assert_eq!(route(RequestMethod::Get, "movie/variant/playlist.m3u8"), "404");
    assert_eq!(route(RequestMethod::Delete, "movie"), "delete movie");
    assert_eq!(route(RequestMethod::Delete, "movie.x"), "404");
    assert_eq!(route(RequestMethod::Delete, ""), "404");
    assert_eq!(route(RequestMethod::Get, "movie"), "404");
}

#[test]
fn upload_headers_give_metadata() {
    let h = |pairs: &[(&str, &str)]| -> Vec<(String, String)> {
        pairs.iter().map(|(a, b)| (a.to_string(), b.to_string())).collect()
    };
    let headers = h(&[
        ("content-type", "video/mp4"),
        ("x-kaidadb-meta-title", "Pilot"),
        ("x-kaidadb-meta-year", "2001"),
        ("x-kaidadb-meta-title", "Pilot (cut)"),
        ("x-kaidadb-meta-", "empty name"),
        ("x-kaidadb-other", "no"),
    ]);
    assert_eq!(
        metadata_from_headers(&headers),
        h(&[("year", "2001"), ("title", "Pilot (cut)"), ("", "empty name")])
    );
    assert!(metadata_from_headers(&h(&[("accept", "*/*")])).is_empty());
}

#[test]
fn range_answers_pick_status_and_headers() {
    let a = answer_range(Some("bytes=100-199"), 1000);
    assert!(a.partial);
    assert_eq!((a.offset, a.length, a.content_length), (100, 100, 100));
    assert_eq!(a.content_range.as_deref(), Some("bytes 100-199/1000"));
    let a = answer_range(Some("bytes=-10"), 1000);
    assert_eq!(a.content_range.as_deref(), Some("bytes 990-999/1000"));
    let a = answer_range(None, 1000);
    assert!(!a.partial);
    assert_eq!((a.offset, a.length, a.content_length), (0, 0, 1000));
    assert_eq!(a.content_range, None);
    let a = answer_range(Some("bytes=5000-"), 1000);
    assert!(!a.partial);
    assert_eq!(a.content_length, 1000);
}
