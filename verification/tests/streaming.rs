use kaidadb::index::Index;
use kaidadb::dash::{dash_mpd, dash_template};
use kaidadb::streaming::{
    count_deleted, stream_keys_prefix, discover_variants, hls_media, extract_segment_index, generate_hls_master, list_streams, media_url,
    segment_media_template, segment_order, variant_playlist_url, variants_from_manifests,
    VariantInfo,
};
use kaidadb::types::MediaManifest;

fn manifest(key: &str, metadata: &[(&str, &str)]) -> MediaManifest {
    MediaManifest {
        key: key.to_string(),
        chunks: vec![],
        total_size: 0,
        chunk_size: 1024,
        content_type: "video/mp4".to_string(),
        checksum: String::new(),
        metadata: metadata.iter().map(|(k, v)| (k.to_string(), v.to_string())).collect(),
        created_at: 0,
        updated_at: 0,
    }
}

fn video(id: &str, bandwidth: u64, width: u32, height: u32, codec: &str) -> VariantInfo {
    VariantInfo {
        variant_id: id.into(),
        init_key: format!("streams/movie/variants/{id}/init.mp4"),
        codec: codec.into(),
        bandwidth,
        width,
        height,
        media_type: "video".into(),
        language: String::new(),
        frame_rate: "30".into(),
        sample_rate: String::new(),
        channels: String::new(),
    }
}

#[test]
fn test_extract_segment_index() {
    assert_eq!(extract_segment_index("streams/id/variants/720p/seg-000042.m4s"), Some(42));
    assert_eq!(extract_segment_index("seg-000000.ts"), Some(0));
    assert_eq!(extract_segment_index("streams/id/init.mp4"), None);
}

#[test]
fn test_media_url() {
    assert_eq!(media_url("", "streams/id/seg-000.m4s"), "/v1/media/streams/id/seg-000.m4s");
    assert_eq!(
        media_url("https://cdn.example.com", "streams/id/seg-000.m4s"),
        "https://cdn.example.com/v1/media/streams/id/seg-000.m4s"
    );
    assert_eq!(
        media_url("https://cdn.example.com/", "streams/id/seg-000.m4s"),
        "https://cdn.example.com/v1/media/streams/id/seg-000.m4s"
    );
}

#[test]
fn test_generate_hls_master_video() {
    let variants = vec![
        VariantInfo {
            variant_id: "1080p".into(),
            init_key: "streams/movie/variants/1080p/init.mp4".into(),
            codec: "avc1.640028".into(),
            bandwidth: 5000000,
            width: 1920,
            height: 1080,
            media_type: "video".into(),
            language: String::new(),
            frame_rate: "30".into(),
            sample_rate: String::new(),
            channels: String::new(),
        },
        VariantInfo {
            variant_id: "720p".into(),
            init_key: "streams/movie/variants/720p/init.mp4".into(),
            codec: "avc1.64001f".into(),
            bandwidth: 2500000,
            width: 1280,
            height: 720,
            media_type: "video".into(),
            language: String::new(),
            frame_rate: "30".into(),
            sample_rate: String::new(),
            channels: String::new(),
        },
    ];

    let playlist = generate_hls_master(&variants, "movie", "");
    assert!(playlist.contains("#EXTM3U"));
    assert!(playlist.contains("#EXT-X-VERSION:7"));
    assert!(playlist.contains("BANDWIDTH=5000000"));
    assert!(playlist.contains("RESOLUTION=1920x1080"));
    assert!(playlist.contains("CODECS=\"avc1.640028\""));
    assert!(playlist.contains("/v1/streams/movie/variant/1080p/playlist.m3u8"));
    assert!(playlist.contains("/v1/streams/movie/variant/720p/playlist.m3u8"));
}

#[test]
fn test_generate_hls_master_audio_only() {
    let variants = vec![VariantInfo {
        variant_id: "aac-128k".into(),
        init_key: "streams/song/variants/aac-128k/init.mp4".into(),
        codec: "mp4a.40.2".into(),
        bandwidth: 128000,
        width: 0,
        height: 0,
        media_type: "audio".into(),
        language: "en".into(),
        frame_rate: String::new(),
        sample_rate: "44100".into(),
        channels: "2".into(),
    }];

    let playlist = generate_hls_master(&variants, "song", "");
    assert!(playlist.contains("BANDWIDTH=128000"));
    assert!(playlist.contains("CODECS=\"mp4a.40.2\""));
}

#[test]
fn hls_master_exact_text() {
    let mut audio = video("aac", 128000, 0, 0, "mp4a.40.2");
    audio.media_type = "audio".into();
    audio.language = String::new();
    audio.frame_rate = String::new();
    let mut subs = video("en-subs", 0, 0, 0, "");
    subs.media_type = "subtitle".into();
    subs.language = "en".into();
    let v = video("720p", 2500000, 1280, 720, "avc1.64001f");
    let playlist = generate_hls_master(&[audio, subs, v], "movie", "https://cdn/");
    assert_eq!(
        playlist,
        "#EXTM3U\n#EXT-X-VERSION:7\n\n\
#EXT-X-MEDIA:TYPE=AUDIO,GROUP-ID=\"audio\",NAME=\"aac\",LANGUAGE=\"und\",DEFAULT=YES,URI=\"https://cdn/v1/streams/movie/variant/aac/playlist.m3u8\"\n\
#EXT-X-MEDIA:TYPE=SUBTITLES,GROUP-ID=\"subs\",NAME=\"en\",LANGUAGE=\"en\",DEFAULT=NO,URI=\"https://cdn/v1/streams/movie/variant/en-subs/playlist.m3u8\"\n\
\n\
#EXT-X-STREAM-INF:BANDWIDTH=2500000,RESOLUTION=1280x720,CODECS=\"avc1.64001f\",FRAME-RATE=30,AUDIO=\"audio\",SUBTITLES=\"subs\"\n\
https://cdn/v1/streams/movie/variant/720p/playlist.m3u8\n"
    );
}

#[test]
fn hls_master_without_variants_is_just_the_header() {
    assert_eq!(generate_hls_master(&[], "x", ""), "#EXTM3U\n#EXT-X-VERSION:7\n\n");
}

#[test]
fn variant_playlist_url_trims_base_slashes() {
    assert_eq!(variant_playlist_url("", "s", "v"), "/v1/streams/s/variant/v/playlist.m3u8");
    assert_eq!(
        variant_playlist_url("http://h//", "s", "v"),
        "http://h/v1/streams/s/variant/v/playlist.m3u8"
    );
}

#[test]
fn extract_segment_index_edge_cases() {
    assert_eq!(extract_segment_index("a/b/seg-+7.m4s"), Some(7));
    assert_eq!(extract_segment_index("a/seg-.m4s"), None);
    assert_eq!(extract_segment_index("a/seg-12x.m4s"), None);
    assert_eq!(extract_segment_index("seg-18446744073709551615"), Some(u64::MAX));
    assert_eq!(extract_segment_index("seg-18446744073709551616"), None);
    assert_eq!(extract_segment_index("a/seg-3/other.m4s"), None);
}

#[test]
fn variants_are_found_deduplicated_and_ordered_by_bandwidth() {
    let prefix = "streams/movie/variants/";
    let ms = vec![
        manifest("streams/movie/variants/low/init.mp4", &[("bandwidth", "800000")]),
        manifest("streams/movie/variants/low/seg-000000.m4s", &[]),
        manifest(
            "streams/movie/variants/high/init.mp4",
            &[("bandwidth", "5000000"), ("width", "1920"), ("height", "1080"), ("codec", "avc1")],
        ),
        manifest("streams/movie/variants/mid/init.mp4", &[("bandwidth", "800000"), ("media-type", "audio")]),
        manifest("streams/movie/variants/bad/init.mp4", &[("bandwidth", "lots")]),
    ];
    let vs = variants_from_manifests(&ms, prefix);
    let ids: Vec<&str> = vs.iter().map(|v| v.variant_id.as_str()).collect();
    assert_eq!(ids, vec!["high", "low", "mid", "bad"]);
    assert_eq!(vs[0].width, 1920);
    assert_eq!(vs[0].codec, "avc1");
    assert_eq!(vs[1].media_type, "video");
    assert_eq!(vs[2].media_type, "audio");
    assert_eq!(vs[3].bandwidth, 0);
}

#[test]
fn discover_variants_reads_the_index() {
    let mut index = Index::new();
    index.put_manifest(manifest("streams/tv/variants/a/init.mp4", &[("bandwidth", "1")]));
    index.put_manifest(manifest("streams/tv/variants/b/init.mp4", &[("bandwidth", "2")]));
    index.put_manifest(manifest("streams/other/c/init.mp4", &[("bandwidth", "3")]));
    let vs = discover_variants(&index, "streams/", "tv");
    let ids: Vec<&str> = vs.iter().map(|v| v.variant_id.as_str()).collect();
    assert_eq!(ids, vec!["b", "a"]);
}

#[test]
fn segments_are_ordered_by_their_number() {
    let ms = vec![
        manifest("v/seg-000002.m4s", &[]),
        manifest("v/seg-000000.m4s", &[("segment-index", "5")]),
        manifest("v/seg-zzz.m4s", &[]),
        manifest("v/seg-000001.m4s", &[("segment-index", "oops")]),
    ];
    // numbers: 2, 5, position 2, 1
    assert_eq!(segment_order(&ms), vec![(1, 3), (2, 0), (2, 2), (5, 1)]);
}

#[test]
fn segment_template_uses_the_first_key() {
    assert_eq!(
        segment_media_template(Some("streams/m/variants/720p/seg-000000.m4s"), ""),
        "/v1/media/streams/m/variants/720p/seg-$Number%06d$.m4s"
    );
    assert_eq!(segment_media_template(Some("no-marker.m4s"), ""), "");
    assert_eq!(segment_media_template(None, "http://x"), "");
}

#[test]
fn streams_are_listed_with_counts_and_a_cursor() {
    let mut index = Index::new();
    for key in [
        "streams/b/variants/720p/init.mp4",
        "streams/a/variants/720p/init.mp4",
        "streams/a/variants/720p/seg-000000.m4s",
        "streams/c/variants/x/init.mp4",
        "streams/loose",
        "other/a/x",
    ] {
        index.put_manifest(manifest(key, &[]));
    }
    let (items, cursor) = list_streams(&index, "streams/", "", 2, "");
    let got: Vec<(&str, usize)> = items.iter().map(|i| (i.stream_id.as_str(), i.variant_count)).collect();
    assert_eq!(got, vec![("a", 1), ("b", 1)]);
    assert_eq!(cursor.as_deref(), Some("streams/b0"));
    let (items, cursor) = list_streams(&index, "streams/", "", 10, "");
    assert_eq!(items.len(), 3);
    assert_eq!(cursor, None);
}

#[test]
fn discover_variants_finds_the_documented_layout() {
    let mut index = Index::new();
    index.put_manifest(manifest(
        "streams/movie/variants/1080p/init.mp4",
        &[("bandwidth", "5000000"), ("media-type", "video")],
    ));
    index.put_manifest(manifest(
        "streams/movie/variants/720p/init.mp4",
        &[("bandwidth", "2500000"), ("media-type", "video")],
    ));
    index.put_manifest(manifest("streams/movie/variants/720p/seg-000000.m4s", &[]));
    let vs = discover_variants(&index, "streams/", "movie");
    let got: Vec<(&str, u64)> = vs.iter().map(|v| (v.variant_id.as_str(), v.bandwidth)).collect();
    assert_eq!(got, vec![("1080p", 5000000), ("720p", 2500000)]);
}

#[test]
fn streams_count_their_distinct_variants() {
    let mut index = Index::new();
    for key in [
        "streams/s1/variants/720p/init.mp4",
        "streams/s1/variants/720p/seg-000000.m4s",
        "streams/s1/variants/1080p/init.mp4",
        "streams/s2/notes.txt",
    ] {
        index.put_manifest(manifest(key, &[]));
    }
    let (items, cursor) = list_streams(&index, "streams/", "", 10, "");
    let got: Vec<(&str, usize)> = items.iter().map(|i| (i.stream_id.as_str(), i.variant_count)).collect();
    assert_eq!(got, vec![("s1", 2), ("s2", 0)]);
    assert_eq!(cursor, None);
}

fn rich(id: &str, bandwidth: u64, media_type: &str) -> VariantInfo {
    VariantInfo {
        variant_id: id.into(),
        init_key: format!("streams/m/variants/{id}/init.mp4"),
        codec: "c1".into(),
        bandwidth,
        width: if media_type == "video" { 1280 } else { 0 },
        height: if media_type == "video" { 720 } else { 0 },
        media_type: media_type.into(),
        language: String::new(),
        frame_rate: if media_type == "video" { "30".into() } else { String::new() },
        sample_rate: if media_type == "audio" { "48000".into() } else { String::new() },
        channels: if media_type == "audio" { "2".into() } else { String::new() },
    }
}

#[test]
fn dash_manifest_lists_video_then_audio() {
    let vs = vec![rich("aac", 128000, "audio"), rich("720p", 2500000, "video"), rich("subs", 1, "subtitle")];
    let ts = vec!["A\n".to_string(), "V\n".to_string(), "S\n".to_string()];
    let mpd = dash_mpd(&vs, "PT8.0S", &ts);
    let expected = [
        "<?xml version=\"1.0\" encoding=\"UTF-8\"?>\n",
        "<MPD xmlns=\"urn:mpeg:dash:schema:mpd:2011\" type=\"static\" mediaPresentationDuration=\"PT8.0S\" minBufferTime=\"PT2S\" profiles=\"urn:mpeg:dash:profile:isoff-on-demand:2011\">\n",
        "  <Period>\n",
        "    <AdaptationSet mimeType=\"video/mp4\" segmentAlignment=\"true\" startWithSAP=\"1\">\n",
        "      <Representation id=\"720p\" bandwidth=\"2500000\" width=\"1280\" height=\"720\" codecs=\"c1\" frameRate=\"30\">\n",
        "V\n",
        "      </Representation>\n",
        "    </AdaptationSet>\n",
        "    <AdaptationSet mimeType=\"audio/mp4\" segmentAlignment=\"true\" startWithSAP=\"1\">\n",
        "      <Representation id=\"aac\" bandwidth=\"128000\" codecs=\"c1\" audioSamplingRate=\"48000\">\n",
        "        <AudioChannelConfiguration schemeIdUri=\"urn:mpeg:dash:23003:3:audio_channel_configuration:2011\" value=\"2\"/>\n",
        "A\n",
        "      </Representation>\n",
        "    </AdaptationSet>\n",
        "  </Period>\n",
        "</MPD>\n",
    ].concat();
    assert_eq!(mpd, expected);
    let empty = dash_mpd(&[], "PT0.0S", &[]);
    assert!(empty.contains("  <Period>\n  </Period>\n"));
}

#[test]
fn dash_segment_templates() {
    assert_eq!(
        dash_template("/i.mp4", Some(4000), "/seg-$Number%06d$.m4s", &vec![4000, 4000]),
        "        <SegmentTemplate timescale=\"1000\" duration=\"4000\" startNumber=\"0\" initialization=\"/i.mp4\" media=\"/seg-$Number%06d$.m4s\"/>\n"
    );
    assert_eq!(
        dash_template("/i.mp4", None, "", &vec![4000, 2500]),
        [
            "        <SegmentTemplate timescale=\"1000\" startNumber=\"0\" initialization=\"/i.mp4\">\n",
            "          <SegmentTimeline>\n",
            "            <S d=\"4000\"/>\n",
            "            <S d=\"2500\"/>\n",
            "          </SegmentTimeline>\n",
            "        </SegmentTemplate>\n",
        ].concat()
    );
}

#[test]
fn hls_media_playlist_lists_segments_in_order() {
    let segs = vec![
        ("4.000".to_string(), "streams/m/variants/720p/seg-000000.m4s".to_string()),
        ("3.500".to_string(), "streams/m/variants/720p/seg-000001.m4s".to_string()),
    ];
    let p = hls_media(4, "streams/m/variants/720p/init.mp4", &segs, "http://h/", true);
    assert_eq!(
        p,
        [
            "#EXTM3U\n#EXT-X-VERSION:7\n#EXT-X-TARGETDURATION:4\n#EXT-X-MEDIA-SEQUENCE:0\n",
            "#EXT-X-MAP:URI=\"http://h/v1/media/streams/m/variants/720p/init.mp4\"\n",
            "#EXTINF:4.000,\nhttp://h/v1/media/streams/m/variants/720p/seg-000000.m4s\n",
            "#EXTINF:3.500,\nhttp://h/v1/media/streams/m/variants/720p/seg-000001.m4s\n",
            "#EXT-X-ENDLIST\n",
        ].concat()
    );
    let live = hls_media(6, "i.mp4", &vec![], "", false);
    assert!(live.ends_with("#EXT-X-MAP:URI=\"/v1/media/i.mp4\"\n"));
}

/// Segment entries as the server makes them: each duration as `{:.3}`.
fn entries(segs: &[(&str, f64)]) -> Vec<(String, String)> {
    segs.iter().map(|(k, d)| (format!("{:.3}", d), k.to_string())).collect()
}

/// The target duration as the server computes it: the longest segment,
/// rounded up.
fn target(segs: &[(&str, f64)], default: f64) -> u64 {
    segs.iter().map(|(_, d)| d.ceil() as u64).max().unwrap_or(default.ceil() as u64)
}

#[test]
fn test_generate_hls_media() {
    let segs = [
        ("streams/movie/variants/720p/seg-000000.m4s", 4.0),
        ("streams/movie/variants/720p/seg-000001.m4s", 4.0),
        ("streams/movie/variants/720p/seg-000002.m4s", 3.5),
    ];
    let playlist = hls_media(target(&segs, 4.0), "streams/movie/variants/720p/init.mp4", &entries(&segs), "", true);
    assert!(playlist.contains("#EXTM3U"));
    assert!(playlist.contains("#EXT-X-TARGETDURATION:4"));
    assert!(playlist.contains("#EXT-X-MAP:URI=\"/v1/media/streams/movie/variants/720p/init.mp4\""));
    assert!(playlist.contains("#EXTINF:4.000,"));
    assert!(playlist.contains("#EXTINF:3.500,"));
    assert!(playlist.contains("/v1/media/streams/movie/variants/720p/seg-000000.m4s"));
    assert!(playlist.contains("#EXT-X-ENDLIST"));
}

#[test]
fn test_generate_hls_media_live_mode() {
    let segs = [("streams/live/variants/720p/seg-000000.m4s", 4.0)];
    let playlist = hls_media(target(&segs, 4.0), "streams/live/variants/720p/init.mp4", &entries(&segs), "", false);
    assert!(!playlist.contains("#EXT-X-ENDLIST"));
}

#[test]
fn deleting_a_stream_counts_variants_and_segments() {
    assert_eq!(stream_keys_prefix("streams/", "movie"), "streams/movie/");
    let mut t = (0u32, 0u32);
    for k in [
        "streams/movie/variants/720p/init.mp4",
        "streams/movie/variants/720p/seg-000000.m4s",
        "streams/movie/variants/720p/seg-000001.m4s",
        "streams/movie/variants/1080p/init.mp4",
        "init.mp4",
    ] {
        t = count_deleted(t, k);
    }
    assert_eq!(t, (2, 3));
}
