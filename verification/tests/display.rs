use kaidadb::display::{
    file_kind, list_line, meta_lines, format_bytes, format_size, format_timestamp, guess_content_type, is_leap, truncate,
    FileKind,
};
use kaidadb::error::KaidaDbError;

#[test]
fn content_types_by_extension() {
    assert_eq!(guess_content_type("movie.mp4"), "video/mp4");
    assert_eq!(guess_content_type("a.b/clip.MKV"), "application/octet-stream");
    assert_eq!(guess_content_type("x.mkv"), "video/x-matroska");
    assert_eq!(guess_content_type("photo.jpeg"), "image/jpeg");
    assert_eq!(guess_content_type("photo.jpg"), "image/jpeg");
    assert_eq!(guess_content_type("song.flac"), "audio/flac");
    assert_eq!(guess_content_type("mp4"), "video/mp4");
    assert_eq!(guess_content_type("noext"), "application/octet-stream");
}

#[test]
fn timestamps() {
    assert_eq!(format_timestamp(0), "\u{2014}");
    assert_eq!(format_timestamp(1), "1970-01-01 00:00:01 UTC");
    assert_eq!(format_timestamp(86400 * 59), "1970-03-01 00:00:00 UTC");
    assert_eq!(format_timestamp(951782400), "2000-02-29 00:00:00 UTC");
    assert_eq!(format_timestamp(1700000000), "2023-11-14 22:13:20 UTC");
    assert_eq!(format_timestamp(-1), "1970-01-01 00:00:-1 UTC");
    assert_eq!(format_timestamp(-86400 * 3 - 3661), "1970-01--2 -1:-1:-1 UTC");
}

#[test]
fn leap_years() {
    assert!(is_leap(2000));
    assert!(!is_leap(1900));
    assert!(is_leap(2024));
    assert!(!is_leap(2023));
    assert!(is_leap(-4));
}

#[test]
fn sizes_and_labels() {
    assert_eq!(format_bytes(0), "0 bytes");
    assert_eq!(format_bytes(1536), "1536 bytes");
    assert_eq!(truncate("hello", 3), "hel");
    assert_eq!(truncate("hi", 3), "hi");
    assert_eq!(truncate("héllo", 3), "hé");
}

#[test]
fn error_texts() {
    assert_eq!(KaidaDbError::NotFound("k".into()).message(), "key not found: k");
    assert_eq!(
        KaidaDbError::ChunkIntegrity { chunk_id: "c".into(), detail: "d".into() }.message(),
        "chunk integrity error: chunk c \u{2014} d"
    );
}

/// The sizes as the client computed them with floating point.
fn float_size(bytes: u64) -> String {
    if bytes < 1024 {
        format!("{bytes} B")
    } else if bytes < 1024 * 1024 {
        format!("{:.1} KB", bytes as f64 / 1024.0)
    } else if bytes < 1024 * 1024 * 1024 {
        format!("{:.1} MB", bytes as f64 / (1024.0 * 1024.0))
    } else {
        format!("{:.2} GB", bytes as f64 / (1024.0 * 1024.0 * 1024.0))
    }
}

#[test]
fn sizes_in_units() {
    assert_eq!(format_size(0), "0 B");
    assert_eq!(format_size(1023), "1023 B");
    assert_eq!(format_size(1024), "1.0 KB");
    assert_eq!(format_size(1536), "1.5 KB");
    assert_eq!(format_size(1048575), "1024.0 KB");
    assert_eq!(format_size(5 * 1024 * 1024), "5.0 MB");
    assert_eq!(format_size(3 * 1024 * 1024 * 1024 / 2), "1.50 GB");
}

#[test]
fn sizes_agree_with_floating_point_formatting() {
    let mut cases: Vec<u64> = vec![1280, 1792, 1024 * 1024 + 52429, 1 << 30, (1 << 30) + (1 << 22)];
    for shift in 0..64u32 {
        let b = 1u64 << shift;
        cases.extend([b, b - 1, b + 1, b.wrapping_mul(3) / 2, b | (b >> 1) | 1]);
    }
    cases.extend([u64::MAX, u64::MAX - 1, (1 << 53) + 1, (1 << 54) + 3, 0x0123_4567_89ab_cdef]);
    let mut x: u64 = 0x9e37_79b9_7f4a_7c15;
    for _ in 0..20000 {
        x ^= x << 13;
        x ^= x >> 7;
        x ^= x << 17;
        cases.push(x >> (x % 60));
        cases.push((x % 4096) * 1024 + 512);
    }
    for b in cases {
        assert_eq!(format_size(b), float_size(b), "size {b}");
    }
}

#[test]
fn file_kinds_by_extension() {
    assert_eq!(file_kind("movie.mp4"), FileKind::Video);
    assert_eq!(file_kind("a.b.mov"), FileKind::Video);
    assert_eq!(file_kind("song.aac"), FileKind::Audio);
    assert_eq!(file_kind("pic.bmp"), FileKind::Image);
    assert_eq!(file_kind("notes.md"), FileKind::Plain);
    assert_eq!(file_kind("mp4"), FileKind::Video);
    assert_eq!(file_kind("archive.MP4"), FileKind::Plain);
    assert_eq!(file_kind(""), FileKind::Plain);
}

#[test]
fn listing_lines_are_aligned() {
    assert_eq!(
        list_line("a.mp4", 1234, "video/mp4"),
        format!("{:40} {:>12} bytes  {}", "a.mp4", 1234, "video/mp4")
    );
    let long = "k".repeat(45);
    assert_eq!(list_line(&long, u64::MAX, "x"), format!("{:40} {:>12} bytes  {}", long, u64::MAX, "x"));
    assert_eq!(list_line("é", 0, ""), format!("{:40} {:>12} bytes  {}", "é", 0, ""));
}

#[test]
fn object_descriptions() {
    let mut m = kaidadb::types::MediaMetadata {
        key: "tv/e1.mp4".into(),
        total_size: 2048,
        chunk_count: 1,
        content_type: "video/mp4".into(),
        checksum: "ab".into(),
        metadata: vec![],
        created_at: 0,
        updated_at: 0,
    };
    assert_eq!(
        meta_lines(&m),
        vec![
            "Key:          tv/e1.mp4",
            "Size:         2048 bytes",
            "Chunks:       1",
            "Content-Type: video/mp4",
            "Checksum:     ab",
        ]
    );
    m.metadata = vec![("title".into(), "Pilot".into()), ("year".into(), "2001".into())];
    let lines = meta_lines(&m);
    assert_eq!(lines.len(), 8);
    assert_eq!(&lines[5..], &["Metadata:", "  title: Pilot", "  year: 2001"]);
}
