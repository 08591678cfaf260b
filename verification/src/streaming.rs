//! Adaptive-streaming support: where segments and playlists live, which
//! variants a stream has, the streams there are, and the HLS playlists.
use vstd::prelude::*;

use crate::index::{
    lemma_sorted_entries_of, lemma_to_map_sorted, listing, opt_string_view, sorted_entries, to_map,
    Index,
};
use crate::sorted_map::{lookup, pairs_sorted, Duplicate, SortedMap};
use crate::types::{pairs_view, ManifestView, MediaManifest};
use crate::text::{
    chars_of, decimal, parse_unsigned, parse_unsigned_in, push_char, push_decimal, push_str,
    string_of,
};

verus! {

/// `s` with every trailing `/` removed (`trim_end_matches('/')`).
pub open spec fn trim_end_slashes(s: Seq<char>) -> Seq<char>
    decreases s.len(),
{
    if s.len() > 0 && s.last() == '/' {
        trim_end_slashes(s.drop_last())
    } else {
        s
    }
}

/// The URL under which the object `key` is served.
pub open spec fn media_url_spec(base_url: Seq<char>, key: Seq<char>) -> Seq<char> {
    if base_url.len() == 0 {
        "/v1/media/"@ + key
    } else {
        trim_end_slashes(base_url) + "/v1/media/"@ + key
    }
}

/// The URL of one variant's media playlist.
pub open spec fn variant_playlist_url_spec(
    base_url: Seq<char>,
    stream_id: Seq<char>,
    variant_id: Seq<char>,
) -> Seq<char> {
    let path = "/v1/streams/"@ + stream_id + "/variant/"@ + variant_id + "/playlist.m3u8"@;
    if base_url.len() == 0 {
        path
    } else {
        trim_end_slashes(base_url) + path
    }
}

/// Appends `v[lo..hi]`.
pub fn push_chars(out: &mut String, v: &Vec<char>, lo: usize, hi: usize)
    requires
        lo <= hi <= v@.len(),
    ensures
        final(out)@ == old(out)@ + v@.subrange(lo as int, hi as int),
{
    let mut i = lo;
    while i < hi
        invariant
            lo <= i <= hi <= v@.len(),
            out@ == old(out)@ + v@.subrange(lo as int, i as int),
        decreases hi - i,
    {
        push_char(out, v[i]);
        i = i + 1;
        assert(out@ =~= old(out)@ + v@.subrange(lo as int, i as int));
    }
}

/// The length of `v` once trailing slashes are trimmed.
fn trimmed_len(v: &Vec<char>) -> (n: usize)
    ensures
        n <= v@.len(),
        v@.subrange(0, n as int) == trim_end_slashes(v@),
{
    let mut n = v.len();
    assert(v@.subrange(0, n as int) =~= v@);
    while n > 0 && v[n - 1] == '/'
        invariant
            n <= v@.len(),
            trim_end_slashes(v@.subrange(0, n as int)) == trim_end_slashes(v@),
        decreases n,
    {
        assert(v@.subrange(0, n as int).drop_last() =~= v@.subrange(0, n - 1));
        n = n - 1;
    }
    n
}

/// Appends `base_url` with its trailing slashes trimmed, when it is not
/// empty.
fn push_trimmed_base(out: &mut String, base_url: &str)
    ensures
        base_url@.len() == 0 ==> final(out)@ == old(out)@,
        base_url@.len() != 0 ==> final(out)@ == old(out)@ + trim_end_slashes(base_url@),
{
    let b = chars_of(base_url);
    if b.len() != 0 {
        let n = trimmed_len(&b);
        push_chars(out, &b, 0, n);
    }
}

/// Build the media URL for a given key.
pub fn media_url(base_url: &str, key: &str) -> (r: String)
    ensures
        r@ == media_url_spec(base_url@, key@),
{
    let mut out = String::new();
    push_trimmed_base(&mut out, base_url);
    push_str(&mut out, "/v1/media/");
    push_str(&mut out, key);
    proof {
        if base_url@.len() == 0 {
            assert(out@ =~= media_url_spec(base_url@, key@));
        } else {
            assert(out@ =~= media_url_spec(base_url@, key@));
        }
    }
    out
}

/// The URL of a variant's media playlist.
pub fn variant_playlist_url(base_url: &str, stream_id: &str, variant_id: &str) -> (r: String)
    ensures
        r@ == variant_playlist_url_spec(base_url@, stream_id@, variant_id@),
{
    let mut out = String::new();
    push_trimmed_base(&mut out, base_url);
    let ghost o = out@;
    push_str(&mut out, "/v1/streams/");
    push_str(&mut out, stream_id);
    push_str(&mut out, "/variant/");
    push_str(&mut out, variant_id);
    push_str(&mut out, "/playlist.m3u8");
    assert(out@ =~= o + ("/v1/streams/"@ + stream_id@ + "/variant/"@ + variant_id@
        + "/playlist.m3u8"@));
    out
}

/// The part of `k` after its last `/` (all of `k` when it has none).
pub open spec fn last_component(k: Seq<char>) -> Seq<char>
    decreases k.len(),
{
    if k.len() == 0 {
        k
    } else if k.last() == '/' {
        Seq::empty()
    } else {
        last_component(k.drop_last()).push(k.last())
    }
}

/// The part of `s` before its first `.` (all of `s` when it has none).
pub open spec fn before_dot(s: Seq<char>) -> Seq<char>
    decreases s.len(),
{
    if s.len() == 0 {
        s
    } else if s[0] == '.' {
        Seq::empty()
    } else {
        seq![s[0]] + before_dot(s.drop_first())
    }
}

/// The segment number in a key like `.../seg-000042.m4s`: the last path
/// component must start with `seg-`, and the part up to the first `.` must
/// be a `u64` numeral.
pub open spec fn segment_index_spec(key: Seq<char>) -> Option<nat> {
    let f = last_component(key);
    if f.len() >= 4 && f[0] == 's' && f[1] == 'e' && f[2] == 'g' && f[3] == '-' {
        parse_unsigned(before_dot(f.skip(4)), u64::MAX as nat)
    } else {
        None
    }
}

/// Where the last component of `v` starts.
fn last_component_start(v: &Vec<char>) -> (i: usize)
    ensures
        i <= v@.len(),
        v@.subrange(i as int, v@.len() as int) == last_component(v@),
{
    let mut i = v.len();
    assert(v@.subrange(0, i as int) =~= v@);
    assert(v@ + v@.subrange(i as int, i as int) =~= v@);
    while i > 0 && v[i - 1] != '/'
        invariant
            i <= v@.len(),
            last_component(v@) == last_component(v@.subrange(0, i as int)) + v@.subrange(
                i as int,
                v@.len() as int,
            ),
        decreases i,
    {
        let ghost p = v@.subrange(0, i as int);
        assert(p.drop_last() =~= v@.subrange(0, i - 1));
        assert(last_component(p) == last_component(p.drop_last()).push(p.last()));
        assert(last_component(v@.subrange(0, i - 1)).push(v@[i - 1]) + v@.subrange(
            i as int,
            v@.len() as int,
        ) =~= last_component(v@.subrange(0, i - 1)) + v@.subrange(i - 1, v@.len() as int));
        i = i - 1;
    }
    proof {
        let p = v@.subrange(0, i as int);
        assert(last_component(p) =~= Seq::<char>::empty());
        assert(Seq::<char>::empty() + v@.subrange(i as int, v@.len() as int) =~= v@.subrange(
            i as int,
            v@.len() as int,
        ));
    }
    i
}

proof fn lemma_before_dot(s: Seq<char>, i: int)
    requires
        0 <= i <= s.len(),
        forall|j: int| 0 <= j < i ==> s[j] != '.',
        i == s.len() || s[i] == '.',
    ensures
        before_dot(s) == s.take(i),
    decreases s.len(),
{
    if s.len() > 0 && s[0] != '.' {
        lemma_before_dot(s.drop_first(), i - 1);
        assert(seq![s[0]] + s.drop_first().take(i - 1) =~= s.take(i));
    } else {
        assert(s.take(i) =~= Seq::<char>::empty());
    }
}

/// Extract segment index from key like "streams/id/variants/720p/seg-000042.m4s"
pub fn extract_segment_index(key: &str) -> (r: Option<u64>)
    ensures
        match segment_index_spec(key@) {
            Some(n) => r == Some(n as u64),
            None => r is None,
        },
{
    let v = chars_of(key);
    let start = last_component_start(&v);
    let ghost f = last_component(key@);
    if v.len() - start < 4 || v[start] != 's' || v[start + 1] != 'e' || v[start + 2] != 'g' || v[
        start + 3] != '-' {
        proof {
            if f.len() >= 4 {
                assert(f[0] == v@[start as int] && f[1] == v@[start + 1] && f[2] == v@[start + 2]
                    && f[3] == v@[start + 3]);
            }
        }
        return None;
    }
    let num_start = start + 4;
    let mut e = num_start;
    while e < v.len() && v[e] != '.'
        invariant
            num_start <= e <= v@.len(),
            forall|j: int| num_start <= j < e ==> v@[j] != '.',
        decreases v@.len() - e,
    {
        e = e + 1;
    }
    proof {
        let g = f.skip(4);
        assert(g =~= v@.subrange(num_start as int, v@.len() as int));
        lemma_before_dot(g, e - num_start);
        assert(g.take(e - num_start) =~= v@.subrange(num_start as int, e as int));
    }
    parse_unsigned_in(&v, num_start, e, u64::MAX)
}

/// Information about a single variant (quality level) of a stream.
#[derive(Debug, Clone)]
pub struct VariantInfo {
    pub variant_id: String,
    pub init_key: String,
    pub codec: String,
    pub bandwidth: u64,
    pub width: u32,
    pub height: u32,
    pub media_type: String,
    pub language: String,
    pub frame_rate: String,
    pub sample_rate: String,
    pub channels: String,
}

/// What a `VariantInfo` holds.
pub struct VariantView {
    pub variant_id: Seq<char>,
    pub init_key: Seq<char>,
    pub codec: Seq<char>,
    pub bandwidth: u64,
    pub width: u32,
    pub height: u32,
    pub media_type: Seq<char>,
    pub language: Seq<char>,
    pub frame_rate: Seq<char>,
    pub sample_rate: Seq<char>,
    pub channels: Seq<char>,
}

impl View for VariantInfo {
    type V = VariantView;

    open spec fn view(&self) -> VariantView {
        VariantView {
            variant_id: self.variant_id@,
            init_key: self.init_key@,
            codec: self.codec@,
            bandwidth: self.bandwidth,
            width: self.width,
            height: self.height,
            media_type: self.media_type@,
            language: self.language@,
            frame_rate: self.frame_rate@,
            sample_rate: self.sample_rate@,
            channels: self.channels@,
        }
    }
}

/// The views of a list of variants.
pub open spec fn variant_views(s: Seq<VariantInfo>) -> Seq<VariantView> {
    s.map_values(|v: VariantInfo| v@)
}

/// The kinds of playlist lines written per variant.
pub enum LineKind {
    /// `EXT-X-MEDIA` for an audio rendition.
    AudioMedia,
    /// `EXT-X-MEDIA` for a subtitle rendition.
    SubtitleMedia,
    /// `EXT-X-STREAM-INF` for a video variant; whether audio renditions and
    /// subtitle renditions exist.
    VideoStream(bool, bool),
    /// `EXT-X-STREAM-INF` for an audio variant of an audio-only stream.
    AudioStream,
}

/// `"und"` when the language is unknown.
pub open spec fn language_or_und(v: VariantView) -> Seq<char> {
    if v.language.len() == 0 {
        "und"@
    } else {
        v.language
    }
}

/// `,CODECS="…"` when the codec is known.
pub open spec fn codecs_attr(v: VariantView) -> Seq<char> {
    if v.codec.len() == 0 {
        Seq::empty()
    } else {
        ",CODECS=\""@ + v.codec + "\""@
    }
}

/// The lines that one variant contributes.
pub open spec fn line_spec(k: LineKind, v: VariantView, sid: Seq<char>, base: Seq<char>) -> Seq<char> {
    let url = variant_playlist_url_spec(base, sid, v.variant_id);
    match k {
        LineKind::AudioMedia => "#EXT-X-MEDIA:TYPE=AUDIO,GROUP-ID=\"audio\",NAME=\""@ + (if v.language.len()
            == 0 {
            v.variant_id
        } else {
            v.language
        }) + "\",LANGUAGE=\""@ + language_or_und(v) + "\",DEFAULT=YES,URI=\""@ + url + "\"\n"@,
        LineKind::SubtitleMedia => "#EXT-X-MEDIA:TYPE=SUBTITLES,GROUP-ID=\"subs\",NAME=\""@
            + language_or_und(v) + "\",LANGUAGE=\""@ + language_or_und(v) + "\",DEFAULT=NO,URI=\""@
            + url + "\"\n"@,
        LineKind::VideoStream(has_audio, has_subs) => "#EXT-X-STREAM-INF:BANDWIDTH="@ + decimal(
            v.bandwidth as nat,
        ) + video_attrs(v, has_audio, has_subs) + "\n"@ + url + "\n"@,
        LineKind::AudioStream => "#EXT-X-STREAM-INF:BANDWIDTH="@ + decimal(v.bandwidth as nat)
            + codecs_attr(v) + "\n"@ + url + "\n"@,
    }
}

/// The lines of kind `k` for every variant of media type `t`, in order.
pub open spec fn type_lines(
    vs: Seq<VariantView>,
    t: Seq<char>,
    k: LineKind,
    sid: Seq<char>,
    base: Seq<char>,
) -> Seq<char>
    decreases vs.len(),
{
    if vs.len() == 0 {
        Seq::empty()
    } else {
        type_lines(vs.drop_last(), t, k, sid, base) + if vs.last().media_type == t {
            line_spec(k, vs.last(), sid, base)
        } else {
            Seq::empty()
        }
    }
}

/// Whether some variant has media type `t`.
pub open spec fn has_type(vs: Seq<VariantView>, t: Seq<char>) -> bool {
    exists|i: int| 0 <= i < vs.len() && (#[trigger] vs[i]).media_type == t
}

/// The HLS master playlist of a stream with variants `vs`: audio and
/// subtitle renditions first, then one stream entry per video variant (or,
/// with no video, per audio variant).
pub open spec fn hls_master_spec(vs: Seq<VariantView>, sid: Seq<char>, base: Seq<char>) -> Seq<char> {
    let has_audio = has_type(vs, "audio"@);
    let has_subs = has_type(vs, "subtitle"@);
    "#EXTM3U\n"@ + "#EXT-X-VERSION:7\n\n"@ + type_lines(vs, "audio"@, LineKind::AudioMedia, sid, base)
        + type_lines(vs, "subtitle"@, LineKind::SubtitleMedia, sid, base) + (if has_audio || has_subs {
        "\n"@
    } else {
        Seq::empty()
    }) + type_lines(vs, "video"@, LineKind::VideoStream(has_audio, has_subs), sid, base) + (if !has_type(
        vs,
        "video"@,
    ) && has_audio {
        type_lines(vs, "audio"@, LineKind::AudioStream, sid, base)
    } else {
        Seq::empty()
    })
}

/// The lines of kind `k` hold the line of every variant of type `t`.
proof fn lemma_type_lines_hold(
    vs: Seq<VariantView>,
    t: Seq<char>,
    k: LineKind,
    sid: Seq<char>,
    base: Seq<char>,
    i: int,
)
    requires
        0 <= i < vs.len(),
        vs[i].media_type == t,
    ensures
        exists|p: Seq<char>, q: Seq<char>| type_lines(vs, t, k, sid, base) == p + line_spec(k, vs[i], sid, base) + q,
    decreases vs.len(),
{
    let l = line_spec(k, vs[i], sid, base);
    if i == vs.len() - 1 {
        let p = type_lines(vs.drop_last(), t, k, sid, base);
        assert(type_lines(vs, t, k, sid, base) =~= p + l + Seq::<char>::empty());
    } else {
        let d = vs.drop_last();
        assert(d[i] == vs[i]);
        lemma_type_lines_hold(d, t, k, sid, base, i);
        let (p, q) = choose|p: Seq<char>, q: Seq<char>| type_lines(d, t, k, sid, base) == p + l + q;
        let extra = if vs.last().media_type == t {
            line_spec(k, vs.last(), sid, base)
        } else {
            Seq::<char>::empty()
        };
        assert(type_lines(vs, t, k, sid, base) =~= p + l + (q + extra));
    }
}

proof fn lemma_regroup(h: Seq<char>, p: Seq<char>, l: Seq<char>, q: Seq<char>, t: Seq<char>, s: Seq<char>, a: Seq<char>, u: Seq<char>)
    requires
        l == s + a + "\n"@ + u + "\n"@,
    ensures
        h + (p + l + q) + t == (h + p) + s + a + "\n"@ + u + "\n"@ + (q + t),
{
    assert(h + (p + l + q) + t =~= (h + p) + s + a + "\n"@ + u + "\n"@ + (q + t));
}

/// The stream entry of a variant: `#EXT-X-STREAM-INF:` and its attributes,
/// then the line of the variant's playlist URL.
proof fn lemma_stream_entry(k: LineKind, v: VariantView, sid: Seq<char>, base: Seq<char>) -> (a: Seq<char>)
    requires
        k is VideoStream || k is AudioStream,
    ensures
        line_spec(k, v, sid, base) == "#EXT-X-STREAM-INF:"@ + a + "\n"@ + variant_playlist_url_spec(base, sid, v.variant_id)
            + "\n"@,
{
    reveal_strlit("#EXT-X-STREAM-INF:BANDWIDTH=");
    reveal_strlit("#EXT-X-STREAM-INF:");
    reveal_strlit("BANDWIDTH=");
    let url = variant_playlist_url_spec(base, sid, v.variant_id);
    match k {
        LineKind::VideoStream(ha, hs) => {
            let a = "BANDWIDTH="@ + decimal(v.bandwidth as nat) + video_attrs(v, ha, hs);
            assert(line_spec(k, v, sid, base) =~= "#EXT-X-STREAM-INF:"@ + a + "\n"@ + url + "\n"@);
            a
        },
        _ => {
            let a = "BANDWIDTH="@ + decimal(v.bandwidth as nat) + codecs_attr(v);
            assert(line_spec(k, v, sid, base) =~= "#EXT-X-STREAM-INF:"@ + a + "\n"@ + url + "\n"@);
            a
        },
    }
}

/// Every entry of a video or audio variant in a master playlist is an
/// `#EXT-X-STREAM-INF` line followed at once by the line of that variant's
/// playlist URL: for video variants always, for audio variants when the
/// stream has no video.
pub proof fn lemma_master_stream_urls(vs: Seq<VariantView>, sid: Seq<char>, base: Seq<char>, i: int)
    requires
        0 <= i < vs.len(),
        vs[i].media_type == "video"@ || (vs[i].media_type == "audio"@ && !has_type(vs, "video"@)),
    ensures
        exists|p: Seq<char>, a: Seq<char>, q: Seq<char>|
            hls_master_spec(vs, sid, base) == p + "#EXT-X-STREAM-INF:"@ + a + "\n"@ + variant_playlist_url_spec(
                base,
                sid,
                vs[i].variant_id,
            ) + "\n"@ + q,
{
    let v = vs[i];
    let url = variant_playlist_url_spec(base, sid, v.variant_id);
    let sinf = "#EXT-X-STREAM-INF:"@;
    let has_audio = has_type(vs, "audio"@);
    let has_subs = has_type(vs, "subtitle"@);
    let head = "#EXTM3U\n"@ + "#EXT-X-VERSION:7\n\n"@ + type_lines(vs, "audio"@, LineKind::AudioMedia, sid, base)
        + type_lines(vs, "subtitle"@, LineKind::SubtitleMedia, sid, base) + (if has_audio || has_subs {
        "\n"@
    } else {
        Seq::empty()
    });
    let video = type_lines(vs, "video"@, LineKind::VideoStream(has_audio, has_subs), sid, base);
    let tail = if !has_type(vs, "video"@) && has_audio {
        type_lines(vs, "audio"@, LineKind::AudioStream, sid, base)
    } else {
        Seq::empty()
    };
    assert(hls_master_spec(vs, sid, base) == head + video + tail);
    if v.media_type == "video"@ {
        let k = LineKind::VideoStream(has_audio, has_subs);
        lemma_type_lines_hold(vs, "video"@, k, sid, base, i);
        let (p, q) = choose|p: Seq<char>, q: Seq<char>| video == p + line_spec(k, v, sid, base) + q;
        let a = lemma_stream_entry(k, v, sid, base);
        lemma_regroup(head, p, line_spec(k, v, sid, base), q, tail, sinf, a, url);
        assert(hls_master_spec(vs, sid, base) == (head + p) + sinf + a + "\n"@ + url + "\n"@ + (q + tail));
    } else {
        assert(has_audio) by {
            assert(vs[i].media_type == "audio"@);
        }
        let k = LineKind::AudioStream;
        lemma_type_lines_hold(vs, "audio"@, k, sid, base, i);
        let (p, q) = choose|p: Seq<char>, q: Seq<char>| tail == p + line_spec(k, v, sid, base) + q;
        let a = lemma_stream_entry(k, v, sid, base);
        lemma_regroup(head + video, p, line_spec(k, v, sid, base), q, Seq::empty(), sinf, a, url);
        assert(head + video + tail =~= head + video + (p + line_spec(k, v, sid, base) + q) + Seq::<char>::empty());
        assert(hls_master_spec(vs, sid, base) == (head + video + p) + sinf + a + "\n"@ + url + "\n"@ + (q
            + Seq::<char>::empty()));
    }
}

/// Appends `,CODECS="…"` when the codec is known.
fn push_codecs_attr(out: &mut String, v: &VariantInfo)
    ensures
        final(out)@ == old(out)@ + codecs_attr(v@),
{
    if !v.codec.as_str().is_empty() {
        push_str(out, ",CODECS=\"");
        push_str(out, &v.codec);
        push_str(out, "\"");
        assert(out@ =~= old(out)@ + codecs_attr(v@));
    } else {
        assert(out@ =~= old(out)@ + codecs_attr(v@));
    }
}

/// Appends `"und"` for an unknown language, else the language.
fn push_language_or_und(out: &mut String, v: &VariantInfo)
    ensures
        final(out)@ == old(out)@ + language_or_und(v@),
{
    if v.language.as_str().is_empty() {
        push_str(out, "und");
    } else {
        push_str(out, &v.language);
    }
}

fn push_audio_media_line(out: &mut String, v: &VariantInfo, sid: &str, base: &str)
    ensures
        final(out)@ == old(out)@ + line_spec(LineKind::AudioMedia, v@, sid@, base@),
{
    let url = variant_playlist_url(base, sid, &v.variant_id);
    push_str(out, "#EXT-X-MEDIA:TYPE=AUDIO,GROUP-ID=\"audio\",NAME=\"");
    if v.language.as_str().is_empty() {
        push_str(out, &v.variant_id);
    } else {
        push_str(out, &v.language);
    }
    push_str(out, "\",LANGUAGE=\"");
    push_language_or_und(out, v);
    push_str(out, "\",DEFAULT=YES,URI=\"");
    push_str(out, &url);
    push_str(out, "\"\n");
    assert(out@ =~= old(out)@ + line_spec(LineKind::AudioMedia, v@, sid@, base@));
}

fn push_subtitle_media_line(out: &mut String, v: &VariantInfo, sid: &str, base: &str)
    ensures
        final(out)@ == old(out)@ + line_spec(LineKind::SubtitleMedia, v@, sid@, base@),
{
    let url = variant_playlist_url(base, sid, &v.variant_id);
    push_str(out, "#EXT-X-MEDIA:TYPE=SUBTITLES,GROUP-ID=\"subs\",NAME=\"");
    push_language_or_und(out, v);
    push_str(out, "\",LANGUAGE=\"");
    push_language_or_und(out, v);
    push_str(out, "\",DEFAULT=NO,URI=\"");
    push_str(out, &url);
    push_str(out, "\"\n");
    assert(out@ =~= old(out)@ + line_spec(LineKind::SubtitleMedia, v@, sid@, base@));
}

/// `,RESOLUTION=WxH` when both dimensions are known.
pub open spec fn resolution_attr(v: VariantView) -> Seq<char> {
    if v.width > 0 && v.height > 0 {
        ",RESOLUTION="@ + decimal(v.width as nat) + "x"@ + decimal(v.height as nat)
    } else {
        Seq::empty()
    }
}

/// `,FRAME-RATE=…` when the frame rate is known.
pub open spec fn frame_rate_attr(v: VariantView) -> Seq<char> {
    if v.frame_rate.len() == 0 {
        Seq::empty()
    } else {
        ",FRAME-RATE="@ + v.frame_rate
    }
}

/// The group attributes of a video variant's stream entry.
pub open spec fn group_attrs(has_audio: bool, has_subs: bool) -> Seq<char> {
    (if has_audio {
        ",AUDIO=\"audio\""@
    } else {
        Seq::empty()
    }) + (if has_subs {
        ",SUBTITLES=\"subs\""@
    } else {
        Seq::empty()
    })
}

/// The attributes of a video variant's stream entry after its bandwidth.
pub open spec fn video_attrs(v: VariantView, has_audio: bool, has_subs: bool) -> Seq<char> {
    resolution_attr(v) + codecs_attr(v) + frame_rate_attr(v) + group_attrs(has_audio, has_subs)
}

fn push_resolution_attr(out: &mut String, v: &VariantInfo)
    ensures
        final(out)@ == old(out)@ + resolution_attr(v@),
{
    if v.width > 0 && v.height > 0 {
        push_str(out, ",RESOLUTION=");
        push_decimal(out, v.width as u64);
        push_str(out, "x");
        push_decimal(out, v.height as u64);
    }
    assert(out@ =~= old(out)@ + resolution_attr(v@));
}

fn push_frame_rate_attr(out: &mut String, v: &VariantInfo)
    ensures
        final(out)@ == old(out)@ + frame_rate_attr(v@),
{
    if !v.frame_rate.as_str().is_empty() {
        push_str(out, ",FRAME-RATE=");
        push_str(out, &v.frame_rate);
    }
    assert(out@ =~= old(out)@ + frame_rate_attr(v@));
}

fn push_group_attrs(out: &mut String, has_audio: bool, has_subs: bool)
    ensures
        final(out)@ == old(out)@ + group_attrs(has_audio, has_subs),
{
    if has_audio {
        push_str(out, ",AUDIO=\"audio\"");
    }
    let ghost o = out@;
    if has_subs {
        push_str(out, ",SUBTITLES=\"subs\"");
    }
    assert(out@ =~= old(out)@ + group_attrs(has_audio, has_subs));
}

fn push_video_attrs(out: &mut String, v: &VariantInfo, has_audio: bool, has_subs: bool)
    ensures
        final(out)@ == old(out)@ + video_attrs(v@, has_audio, has_subs),
{
    push_resolution_attr(out, v);
    push_codecs_attr(out, v);
    push_frame_rate_attr(out, v);
    push_group_attrs(out, has_audio, has_subs);
    assert(out@ =~= old(out)@ + video_attrs(v@, has_audio, has_subs));
}

fn push_video_stream_lines(
    out: &mut String,
    v: &VariantInfo,
    sid: &str,
    base: &str,
    has_audio: bool,
    has_subs: bool,
)
    ensures
        final(out)@ == old(out)@ + line_spec(LineKind::VideoStream(has_audio, has_subs), v@, sid@, base@),
{
    let url = variant_playlist_url(base, sid, &v.variant_id);
    push_str(out, "#EXT-X-STREAM-INF:BANDWIDTH=");
    push_decimal(out, v.bandwidth);
    push_video_attrs(out, v, has_audio, has_subs);
    push_str(out, "\n");
    push_str(out, &url);
    push_str(out, "\n");
    assert(out@ =~= old(out)@ + line_spec(LineKind::VideoStream(has_audio, has_subs), v@, sid@, base@));
}

fn push_audio_stream_lines(out: &mut String, v: &VariantInfo, sid: &str, base: &str)
    ensures
        final(out)@ == old(out)@ + line_spec(LineKind::AudioStream, v@, sid@, base@),
{
    let url = variant_playlist_url(base, sid, &v.variant_id);
    push_str(out, "#EXT-X-STREAM-INF:BANDWIDTH=");
    push_decimal(out, v.bandwidth);
    push_codecs_attr(out, v);
    push_str(out, "\n");
    push_str(out, &url);
    push_str(out, "\n");
    assert(out@ =~= old(out)@ + line_spec(LineKind::AudioStream, v@, sid@, base@));
}

/// Appends the lines that variant `v` contributes as kind `k`.
fn push_line(out: &mut String, k: &LineKind, v: &VariantInfo, sid: &str, base: &str)
    ensures
        final(out)@ == old(out)@ + line_spec(*k, v@, sid@, base@),
{
    match k {
        LineKind::AudioMedia => push_audio_media_line(out, v, sid, base),
        LineKind::SubtitleMedia => push_subtitle_media_line(out, v, sid, base),
        LineKind::VideoStream(a, b) => push_video_stream_lines(out, v, sid, base, *a, *b),
        LineKind::AudioStream => push_audio_stream_lines(out, v, sid, base),
    }
}

/// Appends the lines of kind `k` for every variant of media type `t`.
fn push_type_lines(
    out: &mut String,
    vs: &[VariantInfo],
    t: &str,
    k: &LineKind,
    sid: &str,
    base: &str,
)
    ensures
        final(out)@ == old(out)@ + type_lines(variant_views(vs@), t@, *k, sid@, base@),
{
    let ghost views = variant_views(vs@);
    let mut i: usize = 0;
    assert(views.take(0) =~= Seq::<VariantView>::empty());
    while i < vs.len()
        invariant
            i <= vs@.len(),
            views == variant_views(vs@),
            out@ == old(out)@ + type_lines(views.take(i as int), t@, *k, sid@, base@),
        decreases vs@.len() - i,
    {
        let ghost o = out@;
        let v = &vs[i];
        if crate::keys::key_eq(&v.media_type, t) {
            push_line(out, k, v, sid, base);
        }
        proof {
            assert(views.take(i + 1).drop_last() =~= views.take(i as int));
            assert(views.take(i + 1).last() == v@);
            if v.media_type@ == t@ {
                assert(out@ =~= old(out)@ + type_lines(views.take(i + 1), t@, *k, sid@, base@));
            } else {
                assert(out@ =~= old(out)@ + type_lines(views.take(i + 1), t@, *k, sid@, base@));
            }
        }
        i = i + 1;
    }
    assert(views.take(vs@.len() as int) =~= views);
}

/// Whether some variant has media type `t`.
pub(crate) fn has_media_type(vs: &[VariantInfo], t: &str) -> (r: bool)
    ensures
        r == has_type(variant_views(vs@), t@),
{
    let mut i: usize = 0;
    while i < vs.len()
        invariant
            i <= vs@.len(),
            forall|j: int| 0 <= j < i ==> vs@[j].media_type@ != t@,
        decreases vs@.len() - i,
    {
        if crate::keys::key_eq(&vs[i].media_type, t) {
            assert(variant_views(vs@)[i as int].media_type == t@);
            return true;
        }
        i = i + 1;
    }
    assert(!has_type(variant_views(vs@), t@)) by {
        if has_type(variant_views(vs@), t@) {
            let j = choose|j: int|
                0 <= j < variant_views(vs@).len() && (#[trigger] variant_views(vs@)[j]).media_type == t@;
            assert(vs@[j].media_type@ == t@);
        }
    }
    false
}

/// Generate an HLS master playlist (.m3u8) listing all variants.
pub fn generate_hls_master(variants: &[VariantInfo], stream_id: &str, base_url: &str) -> (r: String)
    ensures
        r@ == hls_master_spec(variant_views(variants@), stream_id@, base_url@),
{
    let mut out = String::new();
    push_str(&mut out, "#EXTM3U\n");
    push_str(&mut out, "#EXT-X-VERSION:7\n\n");
    let has_audio = has_media_type(variants, "audio");
    let has_subs = has_media_type(variants, "subtitle");
    let has_video = has_media_type(variants, "video");
    push_type_lines(&mut out, variants, "audio", &LineKind::AudioMedia, stream_id, base_url);
    push_type_lines(&mut out, variants, "subtitle", &LineKind::SubtitleMedia, stream_id, base_url);
    let ghost o1 = out@;
    if has_audio || has_subs {
        push_str(&mut out, "\n");
    }
    let ghost o2 = out@;
    push_type_lines(
        &mut out,
        variants,
        "video",
        &LineKind::VideoStream(has_audio, has_subs),
        stream_id,
        base_url,
    );
    let ghost o3 = out@;
    if !has_video && has_audio {
        push_type_lines(&mut out, variants, "audio", &LineKind::AudioStream, stream_id, base_url);
    }
    proof {
        let vs = variant_views(variants@);
        let nl = if has_audio || has_subs {
            "\n"@
        } else {
            Seq::<char>::empty()
        };
        assert(o2 =~= o1 + nl);
        let tail = if !has_video && has_audio {
            type_lines(vs, "audio"@, LineKind::AudioStream, stream_id@, base_url@)
        } else {
            Seq::<char>::empty()
        };
        assert(out@ =~= o3 + tail);
        assert(out@ =~= hls_master_spec(vs, stream_id@, base_url@));
    }
    out
}

/// The value stored under `name` in a metadata list (the first match).
pub open spec fn meta_get(md: Seq<(Seq<char>, Seq<char>)>, name: Seq<char>) -> Option<Seq<char>>
    decreases md.len(),
{
    if md.len() == 0 {
        None
    } else if md[0].0 == name {
        Some(md[0].1)
    } else {
        meta_get(md.drop_first(), name)
    }
}

/// The value under `name`, or `default` when there is none.
pub open spec fn meta_or(md: Seq<(Seq<char>, Seq<char>)>, name: Seq<char>, default: Seq<char>) -> Seq<
    char,
> {
    match meta_get(md, name) {
        Some(v) => v,
        None => default,
    }
}

/// The number under `name` (at most `max`), or 0 when there is none or it
/// does not parse.
pub open spec fn meta_number(md: Seq<(Seq<char>, Seq<char>)>, name: Seq<char>, max: nat) -> nat {
    match meta_get(md, name) {
        Some(v) => match parse_unsigned(v, max) {
            Some(n) => n,
            None => 0,
        },
        None => 0,
    }
}

/// Looks a metadata value up by name.
pub fn metadata_value<'a>(md: &'a Vec<(String, String)>, name: &str) -> (r: Option<&'a String>)
    ensures
        match r {
            Some(v) => meta_get(pairs_view(md@), name@) == Some(v@),
            None => meta_get(pairs_view(md@), name@) is None,
        },
{
    let ghost pv = pairs_view(md@);
    let mut i: usize = 0;
    assert(pv.skip(0) =~= pv);
    while i < md.len()
        invariant
            i <= md@.len(),
            pv == pairs_view(md@),
            meta_get(pv, name@) == meta_get(pv.skip(i as int), name@),
        decreases md@.len() - i,
    {
        assert(pv.skip(i as int).drop_first() =~= pv.skip(i + 1));
        assert(pv.skip(i as int)[0] == (md@[i as int].0@, md@[i as int].1@));
        if crate::keys::key_eq(&md[i].0, name) {
            return Some(&md[i].1);
        }
        i = i + 1;
    }
    assert(pv.skip(i as int).len() == 0);
    None
}

/// The 9-character suffix of a variant's initialization segment key.
pub open spec fn init_suffix() -> Seq<char> {
    seq!['/', 'i', 'n', 'i', 't', '.', 'm', 'p', '4']
}

/// The variant a key under `prefix` names, when the key is
/// `prefix + variant_id + "/init.mp4"`.
pub open spec fn variant_id_of(key: Seq<char>, prefix: Seq<char>) -> Option<Seq<char>> {
    if prefix.is_prefix_of(key) && key.len() >= prefix.len() + 9 && key.skip(key.len() - 9)
        == init_suffix() {
        Some(key.subrange(prefix.len() as int, key.len() - 9))
    } else {
        None
    }
}

/// The variant described by the manifest of its initialization segment.
pub open spec fn variant_of(m: ManifestView, variant_id: Seq<char>) -> VariantView {
    let md = m.metadata;
    VariantView {
        variant_id,
        init_key: m.key,
        codec: meta_or(md, "codec"@, Seq::empty()),
        bandwidth: meta_number(md, "bandwidth"@, u64::MAX as nat) as u64,
        width: meta_number(md, "width"@, u32::MAX as nat) as u32,
        height: meta_number(md, "height"@, u32::MAX as nat) as u32,
        media_type: meta_or(md, "media-type"@, "video"@),
        language: meta_or(md, "language"@, Seq::empty()),
        frame_rate: meta_or(md, "frame-rate"@, Seq::empty()),
        sample_rate: meta_or(md, "sample-rate"@, Seq::empty()),
        channels: meta_or(md, "channels"@, Seq::empty()),
    }
}

/// Whether some variant already has identifier `id`.
pub open spec fn has_variant_id(vs: Seq<VariantView>, id: Seq<char>) -> bool {
    exists|i: int| 0 <= i < vs.len() && (#[trigger] vs[i]).variant_id == id
}

/// The variants found among manifests `ms`, in order, each identifier once
/// (its first initialization segment wins).
pub open spec fn collect_variants(ms: Seq<ManifestView>, prefix: Seq<char>) -> Seq<VariantView>
    decreases ms.len(),
{
    if ms.len() == 0 {
        Seq::empty()
    } else {
        let prev = collect_variants(ms.drop_last(), prefix);
        match variant_id_of(ms.last().key, prefix) {
            Some(id) => if has_variant_id(prev, id) {
                prev
            } else {
                prev.push(variant_of(ms.last(), id))
            },
            None => prev,
        }
    }
}

/// How many leading variants have a bandwidth of at least `b`.
pub open spec fn bandwidth_at_least(vs: Seq<VariantView>, b: u64) -> nat
    decreases vs.len(),
{
    if vs.len() > 0 && vs[0].bandwidth >= b {
        1 + bandwidth_at_least(vs.drop_first(), b)
    } else {
        0
    }
}

/// The variants ordered by bandwidth, highest first; variants of equal
/// bandwidth keep their order (a stable sort).
pub open spec fn by_bandwidth(vs: Seq<VariantView>) -> Seq<VariantView>
    decreases vs.len(),
{
    if vs.len() == 0 {
        vs
    } else {
        let t = by_bandwidth(vs.drop_last());
        t.insert(bandwidth_at_least(t, vs.last().bandwidth) as int, vs.last())
    }
}

/// Builds a `String` from `v[lo..hi]`.
pub fn string_from_chars(v: &Vec<char>, lo: usize, hi: usize) -> (r: String)
    requires
        lo <= hi <= v@.len(),
    ensures
        r@ == v@.subrange(lo as int, hi as int),
{
    let mut s = String::new();
    push_chars(&mut s, v, lo, hi);
    assert(Seq::<char>::empty() + v@.subrange(lo as int, hi as int) =~= v@.subrange(lo as int, hi as int));
    s
}

/// The variant identifier that `key` names under `prefix`.
fn variant_id_in(key: &str, prefix: &str) -> (r: Option<String>)
    ensures
        opt_string_view(r) == variant_id_of(key@, prefix@),
{
    let k = chars_of(key);
    let p = chars_of(prefix);
    if k.len() < p.len() || k.len() - p.len() < 9 {
        return None;
    }
    let mut i: usize = 0;
    while i < p.len()
        invariant
            i <= p@.len() <= k@.len(),
            k@ == key@,
            p@ == prefix@,
            forall|j: int| 0 <= j < i ==> p@[j] == k@[j],
        decreases p@.len() - i,
    {
        if p[i] != k[i] {
            assert(k@.subrange(0, p@.len() as int)[i as int] != p@[i as int]);
            return None;
        }
        i = i + 1;
    }
    assert(p@.is_prefix_of(k@));
    let n = k.len() - 9;
    let sfx = ['/', 'i', 'n', 'i', 't', '.', 'm', 'p', '4'];
    assert(sfx@ =~= init_suffix());
    let mut j: usize = 0;
    while j < 9
        invariant
            n + 9 == k@.len(),
            k@.len() == k.len(),
            k@ == key@,
            p@ == prefix@,
            p@.is_prefix_of(k@),
            p@.len() + 9 <= k@.len(),
            sfx@ == init_suffix(),
            j <= 9,
            forall|m: int| 0 <= m < j ==> k@[n + m] == sfx@[m],
        decreases 9 - j,
    {
        if k[n + j] != sfx[j] {
            assert(k@.skip(n as int)[j as int] != init_suffix()[j as int]);
            return None;
        }
        j = j + 1;
    }
    assert(k@.skip(n as int) =~= init_suffix());
    Some(string_from_chars(&k, p.len(), n))
}

/// The number under `name`, or 0.
fn number_or_zero(md: &Vec<(String, String)>, name: &str, max: u64) -> (r: u64)
    ensures
        r as nat == meta_number(pairs_view(md@), name@, max as nat),
        r <= max,
{
    match metadata_value(md, name) {
        Some(v) => {
            let c = chars_of(v);
            assert(c@.subrange(0, c@.len() as int) =~= c@);
            match parse_unsigned_in(&c, 0, c.len(), max) {
                Some(n) => n,
                None => 0,
            }
        },
        None => 0,
    }
}

/// The text under `name`, or `default`.
fn text_or(md: &Vec<(String, String)>, name: &str, default: &str) -> (r: String)
    ensures
        r@ == meta_or(pairs_view(md@), name@, default@),
{
    match metadata_value(md, name) {
        Some(v) => v.clone(),
        None => string_of(default),
    }
}

/// The variant described by an initialization segment's manifest.
fn make_variant(m: &MediaManifest, variant_id: String) -> (r: VariantInfo)
    ensures
        r@ == variant_of(m@, variant_id@),
{
    let md = &m.metadata;
    proof {
        reveal_strlit("");
    }
    let codec = text_or(md, "codec", "");
    let bandwidth = number_or_zero(md, "bandwidth", u64::MAX);
    let width = number_or_zero(md, "width", u32::MAX as u64) as u32;
    let height = number_or_zero(md, "height", u32::MAX as u64) as u32;
    let media_type = text_or(md, "media-type", "video");
    let language = text_or(md, "language", "");
    let frame_rate = text_or(md, "frame-rate", "");
    let sample_rate = text_or(md, "sample-rate", "");
    let channels = text_or(md, "channels", "");
    let r = VariantInfo {
        variant_id,
        init_key: m.key.clone(),
        codec,
        bandwidth,
        width,
        height,
        media_type,
        language,
        frame_rate,
        sample_rate,
        channels,
    };
    assert(""@ =~= Seq::<char>::empty());
    assert(r@ =~= variant_of(m@, variant_id@));
    r
}

proof fn lemma_bandwidth_at_least(vs: Seq<VariantView>, b: u64, i: int)
    requires
        0 <= i <= vs.len(),
        forall|j: int| 0 <= j < i ==> (#[trigger] vs[j]).bandwidth >= b,
        i == vs.len() || vs[i].bandwidth < b,
    ensures
        bandwidth_at_least(vs, b) == i,
    decreases i,
{
    if i > 0 {
        let t = vs.drop_first();
        assert forall|j: int| 0 <= j < i - 1 implies (#[trigger] t[j]).bandwidth >= b by {
            assert(t[j] == vs[j + 1]);
        }
        if i < vs.len() {
            assert(t[i - 1] == vs[i]);
        }
        lemma_bandwidth_at_least(t, b, i - 1);
    }
}

/// The variants found among listed manifests, each identifier once.
fn collect_variant_list(ms: &Vec<MediaManifest>, prefix: &str) -> (r: Vec<VariantInfo>)
    ensures
        variant_views(r@) == collect_variants(ms@.map_values(|m: MediaManifest| m@), prefix@),
{
    let ghost views = ms@.map_values(|m: MediaManifest| m@);
    let mut out: Vec<VariantInfo> = Vec::new();
    let mut i: usize = 0;
    assert(views.take(0) =~= Seq::<ManifestView>::empty());
    assert(variant_views(out@) =~= Seq::<VariantView>::empty());
    while i < ms.len()
        invariant
            i <= ms@.len(),
            views == ms@.map_values(|m: MediaManifest| m@),
            variant_views(out@) == collect_variants(views.take(i as int), prefix@),
        decreases ms@.len() - i,
    {
        let m = &ms[i];
        assert(views.take(i + 1).drop_last() =~= views.take(i as int));
        assert(views.take(i + 1).last() == m@);
        match variant_id_in(&m.key, prefix) {
            Some(id) => {
                let mut j: usize = 0;
                let mut seen = false;
                while j < out.len()
                    invariant
                        j <= out@.len(),
                        !seen ==> forall|q: int| 0 <= q < j ==> out@[q].variant_id@ != id@,
                        seen ==> has_variant_id(variant_views(out@), id@),
                    decreases out@.len() - j,
                {
                    if crate::keys::key_eq(&out[j].variant_id, &id) {
                        assert(variant_views(out@)[j as int].variant_id == id@);
                        seen = true;
                    }
                    j = j + 1;
                }
                if !seen {
                    proof {
                        if has_variant_id(variant_views(out@), id@) {
                            let q = choose|q: int|
                                0 <= q < variant_views(out@).len() && (#[trigger] variant_views(
                                    out@,
                                )[q]).variant_id == id@;
                            assert(out@[q].variant_id@ == id@);
                        }
                    }
                    let ghost o = out@;
                    let v = make_variant(m, id);
                    out.push(v);
                    assert(variant_views(out@) =~= variant_views(o).push(v@));
                }
            },
            None => {},
        }
        i = i + 1;
    }
    assert(views.take(ms@.len() as int) =~= views);
    out
}

/// Orders variants by bandwidth, highest first, keeping the order of
/// variants of equal bandwidth.
fn sort_by_bandwidth(vs: Vec<VariantInfo>) -> (r: Vec<VariantInfo>)
    ensures
        variant_views(r@) == by_bandwidth(variant_views(vs@)),
{
    let ghost orig = variant_views(vs@);
    let mut rest = vs;
    let mut out: Vec<VariantInfo> = Vec::new();
    let ghost mut i: int = 0;
    assert(orig.take(0) =~= Seq::<VariantView>::empty());
    assert(variant_views(out@) =~= Seq::<VariantView>::empty());
    assert(variant_views(rest@) =~= orig.skip(0));
    while rest.len() > 0
        invariant
            0 <= i <= orig.len(),
            variant_views(rest@) == orig.skip(i),
            variant_views(out@) == by_bandwidth(orig.take(i)),
        decreases rest@.len(),
    {
        let ghost r0 = rest@;
        let x = rest.remove(0);
        proof {
            assert(x@ == variant_views(r0)[0]);
            assert(variant_views(rest@) =~= variant_views(r0).drop_first());
            assert(orig.skip(i).drop_first() =~= orig.skip(i + 1));
            assert(orig.take(i + 1).drop_last() =~= orig.take(i));
            assert(orig.take(i + 1).last() == x@);
        }
        let ghost t = variant_views(out@);
        let mut j: usize = 0;
        while j < out.len() && out[j].bandwidth >= x.bandwidth
            invariant
                j <= out@.len(),
                t == variant_views(out@),
                forall|q: int| 0 <= q < j ==> (#[trigger] t[q]).bandwidth >= x.bandwidth,
            decreases out@.len() - j,
        {
            j = j + 1;
        }
        proof {
            lemma_bandwidth_at_least(t, x.bandwidth, j as int);
        }
        let ghost xv = x@;
        out.insert(j, x);
        proof {
            assert(variant_views(out@) =~= t.insert(j as int, xv));
            i = i + 1;
        }
    }
    proof {
        assert(orig.skip(i).len() == 0);
        assert(orig.take(i) =~= orig);
    }
    out
}

/// Orders variants the way a stream's playlists list them.
pub fn variants_from_manifests(manifests: &Vec<MediaManifest>, prefix: &str) -> (r: Vec<
    VariantInfo,
>)
    ensures
        variant_views(r@) == by_bandwidth(
            collect_variants(manifests@.map_values(|m: MediaManifest| m@), prefix@),
        ),
{
    sort_by_bandwidth(collect_variant_list(manifests, prefix))
}

/// Each variant collected from manifests comes from one of them: from a
/// manifest whose key names that variant's initialization segment.
proof fn lemma_collected_from(ms: Seq<ManifestView>, prefix: Seq<char>)
    ensures
        forall|j: int| 0 <= j < collect_variants(ms, prefix).len() ==> exists|k: int| {
            &&& 0 <= k < ms.len()
            &&& variant_id_of(ms[k].key, prefix) == Some((#[trigger] collect_variants(ms, prefix)[j]).variant_id)
            &&& collect_variants(ms, prefix)[j] == variant_of(ms[k], collect_variants(ms, prefix)[j].variant_id)
        },
    decreases ms.len(),
{
    if ms.len() > 0 {
        let d = ms.drop_last();
        lemma_collected_from(d, prefix);
        let prev = collect_variants(d, prefix);
        let c = collect_variants(ms, prefix);
        assert forall|j: int| 0 <= j < c.len() implies exists|k: int| {
            &&& 0 <= k < ms.len()
            &&& variant_id_of(ms[k].key, prefix) == Some((#[trigger] c[j]).variant_id)
            &&& c[j] == variant_of(ms[k], c[j].variant_id)
        } by {
            if j < prev.len() {
                assert(c[j] == prev[j]);
                let k = choose|k: int| {
                    &&& 0 <= k < d.len()
                    &&& variant_id_of(d[k].key, prefix) == Some((#[trigger] prev[j]).variant_id)
                    &&& prev[j] == variant_of(d[k], prev[j].variant_id)
                };
                assert(ms[k] == d[k]);
            } else {
                let k = ms.len() - 1;
                assert(ms[k] == ms.last());
            }
        }
    }
}

/// A key naming a variant's initialization segment is the prefix, the
/// variant's identifier and `/init.mp4`.
proof fn lemma_variant_key(key: Seq<char>, prefix: Seq<char>, id: Seq<char>)
    requires
        variant_id_of(key, prefix) == Some(id),
    ensures
        key == prefix + id + "/init.mp4"@,
{
    reveal_strlit("/init.mp4");
    assert(key =~= prefix + id + init_suffix());
    assert("/init.mp4"@ =~= init_suffix());
}

/// What a discovered variant says is what its initialization segment's
/// metadata stores: each variant comes from a manifest keyed
/// `prefix + id + "/init.mp4"`, and each of its fields is read from the
/// metadata entry of its own name: a number stored under `bandwidth`,
/// `width` or `height` that parses (within the field's range) is that
/// field, a missing one gives 0; the codec, language, frame rate, sample
/// rate and channels are the stored texts, and the media type is the
/// stored one or `video`.
pub proof fn lemma_discovered_variant_fields(ms: Seq<ManifestView>, prefix: Seq<char>, i: int)
    requires
        0 <= i < by_bandwidth(collect_variants(ms, prefix)).len(),
    ensures
        exists|k: int| {
            let v = by_bandwidth(collect_variants(ms, prefix))[i];
            let md = (#[trigger] ms[k]).metadata;
            &&& 0 <= k < ms.len()
            &&& ms[k].key == prefix + v.variant_id + "/init.mp4"@
            &&& v.init_key == ms[k].key
            &&& (meta_get(md, "bandwidth"@) matches Some(s) ==> (parse_unsigned(s, u64::MAX as nat) matches Some(
                n,
            ) ==> v.bandwidth == n))
            &&& (meta_get(md, "width"@) matches Some(s) ==> (parse_unsigned(s, u32::MAX as nat) matches Some(n)
                ==> v.width == n))
            &&& (meta_get(md, "height"@) matches Some(s) ==> (parse_unsigned(s, u32::MAX as nat) matches Some(n)
                ==> v.height == n))
            &&& (meta_get(md, "bandwidth"@) is None ==> v.bandwidth == 0)
            &&& (meta_get(md, "width"@) is None ==> v.width == 0)
            &&& (meta_get(md, "height"@) is None ==> v.height == 0)
            &&& (meta_get(md, "codec"@) matches Some(s) ==> v.codec == s)
            &&& (meta_get(md, "media-type"@) matches Some(s) ==> v.media_type == s)
            &&& (meta_get(md, "media-type"@) is None ==> v.media_type == "video"@)
            &&& (meta_get(md, "language"@) matches Some(s) ==> v.language == s)
            &&& (meta_get(md, "frame-rate"@) matches Some(s) ==> v.frame_rate == s)
            &&& (meta_get(md, "sample-rate"@) matches Some(s) ==> v.sample_rate == s)
            &&& (meta_get(md, "channels"@) matches Some(s) ==> v.channels == s)
        },
{
    broadcast use vstd::seq_lib::to_multiset_contains;

    let c = collect_variants(ms, prefix);
    let b = by_bandwidth(c);
    let v = b[i];
    lemma_by_bandwidth_sorted(c);
    assert(b.contains(v));
    assert(b.to_multiset().count(v) > 0);
    assert(c.contains(v));
    let j = choose|j: int| 0 <= j < c.len() && c[j] == v;
    lemma_collected_from(ms, prefix);
    let k = choose|k: int| {
        &&& 0 <= k < ms.len()
        &&& variant_id_of(ms[k].key, prefix) == Some((#[trigger] c[j]).variant_id)
        &&& c[j] == variant_of(ms[k], c[j].variant_id)
    };
    lemma_variant_key(ms[k].key, prefix, v.variant_id);
    let md = ms[k].metadata;
    assert(v == variant_of(ms[k], v.variant_id));
}

proof fn lemma_bandwidth_at_least_facts(vs: Seq<VariantView>, b: u64)
    ensures
        bandwidth_at_least(vs, b) <= vs.len(),
        forall|q: int| 0 <= q < bandwidth_at_least(vs, b) ==> (#[trigger] vs[q]).bandwidth >= b,
        bandwidth_at_least(vs, b) < vs.len() ==> vs[bandwidth_at_least(vs, b) as int].bandwidth < b,
    decreases vs.len(),
{
    if vs.len() > 0 && vs[0].bandwidth >= b {
        let t = vs.drop_first();
        lemma_bandwidth_at_least_facts(t, b);
        assert forall|q: int| 0 <= q < bandwidth_at_least(vs, b) implies (#[trigger] vs[q]).bandwidth >= b by {
            if q > 0 {
                assert(vs[q] == t[q - 1]);
            }
        }
        if bandwidth_at_least(vs, b) < vs.len() {
            assert(vs[bandwidth_at_least(vs, b) as int] == t[bandwidth_at_least(t, b) as int]);
        }
    }
}

/// Variants are listed from the highest bandwidth down, and the ordering
/// neither loses nor adds a variant (it is a permutation).
pub proof fn lemma_by_bandwidth_sorted(vs: Seq<VariantView>)
    ensures
        forall|i: int, j: int|
            0 <= i < j < by_bandwidth(vs).len() ==> (#[trigger] by_bandwidth(vs)[i]).bandwidth
                >= (#[trigger] by_bandwidth(vs)[j]).bandwidth,
        by_bandwidth(vs).to_multiset() == vs.to_multiset(),
        by_bandwidth(vs).len() == vs.len(),
    decreases vs.len(),
{
    broadcast use vstd::seq_lib::to_multiset_build, vstd::seq_lib::to_multiset_insert;

    if vs.len() > 0 {
        let x = vs.last();
        let t = by_bandwidth(vs.drop_last());
        lemma_by_bandwidth_sorted(vs.drop_last());
        lemma_bandwidth_at_least_facts(t, x.bandwidth);
        let k = bandwidth_at_least(t, x.bandwidth) as int;
        let r = t.insert(k, x);
        assert(r == by_bandwidth(vs));
        assert forall|i: int, j: int| 0 <= i < j < r.len() implies (#[trigger] r[i]).bandwidth >= (
        #[trigger] r[j]).bandwidth by {
            if j < k {
                assert(r[i] == t[i] && r[j] == t[j]);
            } else if j == k {
                assert(r[i] == t[i]);
            } else if i < k {
                assert(r[i] == t[i] && r[j] == t[j - 1]);
            } else if i == k {
                assert(r[j] == t[j - 1]);
                assert(t[k].bandwidth < x.bandwidth);
                assert(t[k].bandwidth >= t[j - 1].bandwidth || k == j - 1);
            } else {
                assert(r[i] == t[i - 1] && r[j] == t[j - 1]);
            }
        }
        assert(vs.drop_last().push(x) =~= vs);
    }
}

/// The key prefix under which a stream's variants live:
/// `stream_prefix + stream_id + "/variants/"`.
pub open spec fn variants_prefix(stream_prefix: Seq<char>, stream_id: Seq<char>) -> Seq<char> {
    stream_prefix + stream_id + "/variants/"@
}

/// The variants of a stream, from the manifests listed under its variants
/// prefix (at most 10000 of them), highest bandwidth first.
pub fn discover_variants(index: &Index, stream_prefix: &str, stream_id: &str) -> (r: Vec<
    VariantInfo,
>)
    requires
        index.wf(),
    ensures
        variant_views(r@) == by_bandwidth(
            collect_variants(
                listing(
                    sorted_entries(index@.manifests),
                    variants_prefix(stream_prefix@, stream_id@),
                    10000,
                    ""@,
                ).0,
                variants_prefix(stream_prefix@, stream_id@),
            ),
        ),
{
    let mut prefix = string_of(stream_prefix);
    push_str(&mut prefix, stream_id);
    push_str(&mut prefix, "/variants/");
    let (manifests, _) = index.list_manifests(&prefix, 10000, "");
    variants_from_manifests(&manifests, &prefix)
}

/// The number a segment's manifest carries: its `segment-index` metadata,
/// else the number in its key, else its position `pos` in the listing.
pub open spec fn segment_number(m: ManifestView, pos: nat) -> nat {
    match meta_get(m.metadata, "segment-index"@) {
        Some(v) => match parse_unsigned(v, u64::MAX as nat) {
            Some(n) => n,
            None => segment_number_from_key(m.key, pos),
        },
        None => segment_number_from_key(m.key, pos),
    }
}

/// The number in a segment's key, else `pos`.
pub open spec fn segment_number_from_key(key: Seq<char>, pos: nat) -> nat {
    match segment_index_spec(key) {
        Some(n) => n,
        None => pos,
    }
}

/// Each listed segment's number with its position, in listing order.
pub open spec fn numbered_segments(ms: Seq<ManifestView>) -> Seq<(u64, usize)> {
    Seq::new(ms.len(), |i: int| (segment_number(ms[i], i as nat) as u64, i as usize))
}

/// How many leading entries have a number of at most `n`.
pub open spec fn numbered_at_most(s: Seq<(u64, usize)>, n: u64) -> nat
    decreases s.len(),
{
    if s.len() > 0 && s[0].0 <= n {
        1 + numbered_at_most(s.drop_first(), n)
    } else {
        0
    }
}

/// Entries ordered by number, lowest first; entries with equal numbers
/// keep their order (a stable sort).
pub open spec fn by_number(s: Seq<(u64, usize)>) -> Seq<(u64, usize)>
    decreases s.len(),
{
    if s.len() == 0 {
        s
    } else {
        let t = by_number(s.drop_last());
        t.insert(numbered_at_most(t, s.last().0) as int, s.last())
    }
}

proof fn lemma_numbered_at_most(s: Seq<(u64, usize)>, n: u64, i: int)
    requires
        0 <= i <= s.len(),
        forall|j: int| 0 <= j < i ==> (#[trigger] s[j]).0 <= n,
        i == s.len() || s[i].0 > n,
    ensures
        numbered_at_most(s, n) == i,
    decreases i,
{
    if i > 0 {
        let t = s.drop_first();
        assert forall|j: int| 0 <= j < i - 1 implies (#[trigger] t[j]).0 <= n by {
            assert(t[j] == s[j + 1]);
        }
        if i < s.len() {
            assert(t[i - 1] == s[i]);
        }
        lemma_numbered_at_most(t, n, i - 1);
    }
}

/// The number of one listed segment.
fn segment_number_of(m: &MediaManifest, pos: usize) -> (r: u64)
    ensures
        r as nat == segment_number(m@, pos as nat),
{
    match metadata_value(&m.metadata, "segment-index") {
        Some(v) => {
            let c = chars_of(v);
            assert(c@.subrange(0, c@.len() as int) =~= c@);
            match parse_unsigned_in(&c, 0, c.len(), u64::MAX) {
                Some(n) => {
                    return n;
                },
                None => {},
            }
        },
        None => {},
    }
    match extract_segment_index(&m.key) {
        Some(n) => n,
        None => pos as u64,
    }
}

/// The order in which a variant's listed segments are played: each
/// segment's number with its position in `manifests`, sorted by number
/// (stably).
pub fn segment_order(manifests: &Vec<MediaManifest>) -> (r: Vec<(u64, usize)>)
    ensures
        r@ == by_number(numbered_segments(manifests@.map_values(|m: MediaManifest| m@))),
{
    let ghost views = manifests@.map_values(|m: MediaManifest| m@);
    let ghost all = numbered_segments(views);
    let mut out: Vec<(u64, usize)> = Vec::new();
    let mut i: usize = 0;
    assert(all.take(0) =~= Seq::<(u64, usize)>::empty());
    while i < manifests.len()
        invariant
            i <= manifests@.len(),
            views == manifests@.map_values(|m: MediaManifest| m@),
            all == numbered_segments(views),
            out@ == by_number(all.take(i as int)),
        decreases manifests@.len() - i,
    {
        let n = segment_number_of(&manifests[i], i);
        let e = (n, i);
        assert(all[i as int] == e);
        assert(all.take(i + 1).drop_last() =~= all.take(i as int));
        let ghost t = out@;
        let mut j: usize = 0;
        while j < out.len() && out[j].0 <= n
            invariant
                j <= out@.len(),
                t == out@,
                forall|q: int| 0 <= q < j ==> (#[trigger] t[q]).0 <= n,
            decreases out@.len() - j,
        {
            j = j + 1;
        }
        proof {
            lemma_numbered_at_most(t, n, j as int);
        }
        out.insert(j, e);
        i = i + 1;
    }
    assert(all.take(manifests@.len() as int) =~= all);
    out
}

/// Information about a stream for listing purposes.
#[derive(Debug, Clone)]
pub struct StreamListItem {
    pub stream_id: String,
    pub variant_count: usize,
}

impl Duplicate for usize {
    fn duplicate(&self) -> (r: Self) {
        *self
    }
}

/// The part of `s` before its first `/` (all of `s` when it has none).
pub open spec fn before_slash(s: Seq<char>) -> Seq<char>
    decreases s.len(),
{
    if s.len() == 0 {
        s
    } else if s[0] == '/' {
        Seq::empty()
    } else {
        seq![s[0]] + before_slash(s.drop_first())
    }
}

/// The stream a key belongs to: the part between `stream_prefix` and the
/// next `/`, when the key has both.
pub open spec fn stream_id_of(key: Seq<char>, stream_prefix: Seq<char>) -> Option<Seq<char>> {
    let after = key.skip(stream_prefix.len() as int);
    if stream_prefix.is_prefix_of(key) && after.contains('/') {
        Some(before_slash(after))
    } else {
        None
    }
}

/// The variant a key belongs to, as `stream_id/variant_id`: for a key
/// `stream_prefix + stream_id + "/variants/" + variant_id + "/" + ...`.
pub open spec fn variant_tag(key: Seq<char>, stream_prefix: Seq<char>) -> Option<Seq<char>> {
    match stream_id_of(key, stream_prefix) {
        Some(id) => {
            let rest = key.skip((stream_prefix.len() + id.len() + 1) as int);
            let tail = rest.skip(9);
            if "variants/"@.is_prefix_of(rest) && tail.contains('/') {
                Some(id + "/"@ + before_slash(tail))
            } else {
                None
            }
        },
        None => None,
    }
}

/// The variants the listed manifests belong to.
pub open spec fn seen_tags(ms: Seq<ManifestView>, stream_prefix: Seq<char>) -> Set<Seq<char>>
    decreases ms.len(),
{
    if ms.len() == 0 {
        Set::empty()
    } else {
        let t = seen_tags(ms.drop_last(), stream_prefix);
        match variant_tag(ms.last().key, stream_prefix) {
            Some(v) => t.insert(v),
            None => t,
        }
    }
}

/// The streams the listed manifests belong to, each with how many distinct
/// variants (`variants/<id>/`) they show under it.
pub open spec fn stream_counts(ms: Seq<ManifestView>, stream_prefix: Seq<char>) -> Map<
    Seq<char>,
    usize,
>
    decreases ms.len(),
{
    if ms.len() == 0 {
        Map::empty()
    } else {
        let m = stream_counts(ms.drop_last(), stream_prefix);
        match stream_id_of(ms.last().key, stream_prefix) {
            Some(id) => {
                let base: int = if m.dom().contains(id) {
                    m[id] as int
                } else {
                    0
                };
                let new: int = match variant_tag(ms.last().key, stream_prefix) {
                    Some(v) => if seen_tags(ms.drop_last(), stream_prefix).contains(v) {
                        0
                    } else {
                        1
                    },
                    None => 0,
                };
                m.insert(id, (base + new) as usize)
            },
            None => m,
        }
    }
}

/// One page of streams: the first `limit` stream identifiers (in key
/// order) with their variant counts, and a cursor past the last one when
/// the page is full.
pub open spec fn stream_page(counts: Map<Seq<char>, usize>, stream_prefix: Seq<char>, limit: nat) -> (
    Seq<(Seq<char>, usize)>,
    Option<Seq<char>>,
) {
    let all = sorted_entries(counts);
    let items = all.take(if all.len() < limit {
        all.len() as int
    } else {
        limit as int
    });
    (items, if items.len() == limit && limit > 0 {
        Some(stream_prefix + items.last().0 + "0"@)
    } else {
        None
    })
}

/// The keys a stream listing scans: `stream_prefix`, followed by the
/// requested prefix.
pub open spec fn stream_scan_prefix(stream_prefix: Seq<char>, prefix: Seq<char>) -> Seq<char> {
    stream_prefix + prefix
}

/// The stream a key belongs to.
pub fn stream_id_in(key: &str, stream_prefix: &str) -> (r: Option<String>)
    ensures
        opt_string_view(r) == stream_id_of(key@, stream_prefix@),
{
    let k = chars_of(key);
    let p = chars_of(stream_prefix);
    if k.len() < p.len() {
        return None;
    }
    let mut i: usize = 0;
    while i < p.len()
        invariant
            i <= p@.len() <= k@.len(),
            k@ == key@,
            p@ == stream_prefix@,
            forall|j: int| 0 <= j < i ==> p@[j] == k@[j],
        decreases p@.len() - i,
    {
        if p[i] != k[i] {
            assert(k@.subrange(0, p@.len() as int)[i as int] != p@[i as int]);
            return None;
        }
        i = i + 1;
    }
    assert(p@.is_prefix_of(k@));
    let ghost after = k@.skip(p@.len() as int);
    let mut e = p.len();
    while e < k.len() && k[e] != '/'
        invariant
            p@.len() <= e <= k@.len(),
            after == k@.skip(p@.len() as int),
            forall|j: int| p@.len() <= j < e ==> k@[j] != '/',
        decreases k@.len() - e,
    {
        e = e + 1;
    }
    if e == k.len() {
        assert(!after.contains('/')) by {
            if after.contains('/') {
                let j = choose|j: int| 0 <= j < after.len() && after[j] == '/';
                assert(k@[p@.len() + j] == '/');
            }
        }
        return None;
    }
    proof {
        assert(after[e - p@.len()] == '/');
        lemma_before_slash(after, e - p@.len());
        assert(after.take(e - p@.len()) =~= k@.subrange(p@.len() as int, e as int));
    }
    Some(string_from_chars(&k, p.len(), e))
}

/// The stream a key belongs to, with the part of the key after the `/`
/// that ends the stream's identifier.
fn stream_id_and_rest(key: &str, stream_prefix: &str) -> (r: Option<(String, String)>)
    ensures
        match r {
            Some((id, rest)) => stream_id_of(key@, stream_prefix@) == Some(id@) && rest@ == key@.skip(
                (stream_prefix@.len() + id@.len() + 1) as int,
            ),
            None => stream_id_of(key@, stream_prefix@) is None,
        },
{
    let k = chars_of(key);
    let p = chars_of(stream_prefix);
    if k.len() < p.len() {
        return None;
    }
    let mut i: usize = 0;
    while i < p.len()
        invariant
            i <= p@.len() <= k@.len(),
            k@ == key@,
            p@ == stream_prefix@,
            forall|j: int| 0 <= j < i ==> p@[j] == k@[j],
        decreases p@.len() - i,
    {
        if p[i] != k[i] {
            assert(k@.subrange(0, p@.len() as int)[i as int] != p@[i as int]);
            return None;
        }
        i = i + 1;
    }
    assert(p@.is_prefix_of(k@));
    let ghost after = k@.skip(p@.len() as int);
    let mut e = p.len();
    while e < k.len() && k[e] != '/'
        invariant
            p@.len() <= e <= k@.len(),
            after == k@.skip(p@.len() as int),
            forall|j: int| p@.len() <= j < e ==> k@[j] != '/',
        decreases k@.len() - e,
    {
        e = e + 1;
    }
    if e == k.len() {
        assert(!after.contains('/')) by {
            if after.contains('/') {
                let j = choose|j: int| 0 <= j < after.len() && after[j] == '/';
                assert(k@[p@.len() + j] == '/');
            }
        }
        return None;
    }
    proof {
        assert(after[e - p@.len()] == '/');
        lemma_before_slash(after, e - p@.len());
        assert(after.take(e - p@.len()) =~= k@.subrange(p@.len() as int, e as int));
        assert(k@.subrange(e + 1, k@.len() as int) =~= k@.skip(e + 1));
    }
    Some((string_from_chars(&k, p.len(), e), string_from_chars(&k, e + 1, k.len())))
}

/// The variant a key belongs to, as `stream_id/variant_id`.
fn variant_tag_in(key: &str, stream_prefix: &str) -> (r: Option<String>)
    ensures
        opt_string_view(r) == variant_tag(key@, stream_prefix@),
{
    match stream_id_and_rest(key, stream_prefix) {
        None => None,
        Some((id, rest)) => {
            let rv = chars_of(rest.as_str());
            let vm = chars_of("variants/");
            proof {
                reveal_strlit("variants/");
                reveal_strlit("");
            }
            if !crate::text::starts_with_chars(&rv, &vm) {
                return None;
            }
            let tail = string_from_chars(&rv, 9, rv.len());
            assert(rv@.subrange(9, rv@.len() as int) =~= rv@.skip(9));
            assert(tail@.skip(0) =~= tail@);
            assert(""@.is_prefix_of(tail@));
            match stream_id_in(tail.as_str(), "") {
                None => None,
                Some(v) => {
                    let mut t = id;
                    push_str(&mut t, "/");
                    push_str(&mut t, v.as_str());
                    Some(t)
                },
            }
        },
    }
}

proof fn lemma_before_slash(s: Seq<char>, i: int)
    requires
        0 <= i <= s.len(),
        forall|j: int| 0 <= j < i ==> s[j] != '/',
        i == s.len() || s[i] == '/',
    ensures
        before_slash(s) == s.take(i),
    decreases s.len(),
{
    if s.len() > 0 && s[0] != '/' {
        lemma_before_slash(s.drop_first(), i - 1);
        assert(seq![s[0]] + s.drop_first().take(i - 1) =~= s.take(i));
    } else {
        assert(s.take(i) =~= Seq::<char>::empty());
    }
}

pub proof fn lemma_to_map_insert<W>(s0: Seq<(Seq<char>, W)>, s1: Seq<(Seq<char>, W)>, k: Seq<char>, v: W)
    requires
        pairs_sorted(s0),
        pairs_sorted(s1),
        forall|x: Seq<char>| #[trigger]
            lookup(s1, x) == (if x == k {
                Some(v)
            } else {
                lookup(s0, x)
            }),
    ensures
        to_map(s1) == to_map(s0).insert(k, v),
{
    assert forall|x: Seq<char>| #[trigger] to_map(s1).dom().contains(x) == to_map(s0).insert(k, v).dom().contains(x) by {
        lemma_to_map_sorted(s0, x);
        lemma_to_map_sorted(s1, x);
        assert(lookup(s1, x) == (if x == k {
            Some(v)
        } else {
            lookup(s0, x)
        }));
    }
    assert forall|x: Seq<char>| #[trigger] to_map(s1).dom().contains(x) implies to_map(s1)[x] == to_map(s0).insert(k, v)[x] by {
        lemma_to_map_sorted(s0, x);
        lemma_to_map_sorted(s1, x);
        assert(lookup(s1, x) == (if x == k {
            Some(v)
        } else {
            lookup(s0, x)
        }));
    }
    assert(to_map(s1) =~= to_map(s0).insert(k, v));
}

/// Counts the distinct variants of each listed stream.
fn count_streams(manifests: &Vec<MediaManifest>, stream_prefix: &str) -> (r: SortedMap<usize>)
    ensures
        r.wf(),
        to_map(r@) == stream_counts(manifests@.map_values(|m: MediaManifest| m@), stream_prefix@),
{
    let ghost views = manifests@.map_values(|m: MediaManifest| m@);
    let mut counts: SortedMap<usize> = SortedMap::new();
    let mut seen: SortedMap<usize> = SortedMap::new();
    let mut i: usize = 0;
    assert(views.take(0) =~= Seq::<ManifestView>::empty());
    assert(to_map(counts@) =~= Map::<Seq<char>, usize>::empty());
    assert(to_map(seen@).dom() =~= Set::<Seq<char>>::empty());
    while i < manifests.len()
        invariant
            i <= manifests@.len(),
            views == manifests@.map_values(|m: MediaManifest| m@),
            counts.wf(),
            seen.wf(),
            to_map(counts@) == stream_counts(views.take(i as int), stream_prefix@),
            to_map(seen@).dom() == seen_tags(views.take(i as int), stream_prefix@),
            forall|k: Seq<char>| #[trigger] to_map(counts@).dom().contains(k) ==> to_map(counts@)[k] <= i,
        decreases manifests@.len() - i,
    {
        let m = &manifests[i];
        assert(views.take(i + 1).drop_last() =~= views.take(i as int));
        assert(views.take(i + 1).last() == m@);
        let ghost seen0 = seen_tags(views.take(i as int), stream_prefix@);
        let tag = variant_tag_in(&m.key, stream_prefix);
        let fresh: usize = match &tag {
            Some(t) => {
                let ghost q0 = seen@;
                proof {
                    lemma_to_map_sorted(q0, t@);
                }
                if seen.get(t.as_str()).is_some() {
                    0
                } else {
                    1
                }
            },
            None => 0,
        };
        match stream_id_in(&m.key, stream_prefix) {
            Some(id) => {
                let ghost s0 = counts@;
                let ghost idv = id@;
                proof {
                    lemma_to_map_sorted(s0, idv);
                }
                let c: usize = match counts.get(&id) {
                    Some(c) => *c + fresh,
                    None => fresh,
                };
                counts.insert(id, c);
                proof {
                    lemma_to_map_insert(s0, counts@, idv, c);
                    assert forall|k: Seq<char>| #[trigger] to_map(counts@).dom().contains(k) implies to_map(counts@)[k] <= i + 1 by {
                        if k != idv {
                            assert(to_map(s0).dom().contains(k));
                        }
                    }
                }
            },
            None => {},
        }
        match tag {
            Some(t) => {
                let ghost q0 = seen@;
                let ghost tv = t@;
                seen.insert(t, 0);
                proof {
                    lemma_to_map_insert(q0, seen@, tv, 0usize);
                    assert(to_map(seen@).dom() =~= seen0.insert(tv));
                }
            },
            None => {},
        }
        i = i + 1;
    }
    assert(views.take(manifests@.len() as int) =~= views);
    counts
}

/// List unique stream IDs by scanning stored keys: the streams whose keys
/// come up in a listing of up to 100000 manifests under
/// `stream_prefix + prefix` from `cursor`, with how many distinct variants
/// each has.
pub fn list_streams(
    index: &Index,
    stream_prefix: &str,
    prefix: &str,
    limit: usize,
    cursor: &str,
) -> (r: (Vec<StreamListItem>, Option<String>))
    requires
        index.wf(),
    ensures
        ({
            let ms = listing(
                sorted_entries(index@.manifests),
                stream_scan_prefix(stream_prefix@, prefix@),
                100000,
                cursor@,
            ).0;
            let page = stream_page(stream_counts(ms, stream_prefix@), stream_prefix@, limit as nat);
            &&& r.0@.len() == page.0.len()
            &&& forall|i: int|
                0 <= i < r.0@.len() ==> (#[trigger] r.0@[i]).stream_id@ == page.0[i].0
                    && r.0@[i].variant_count == page.0[i].1
            &&& opt_string_view(r.1) == page.1
        }),
{
    let mut scan = string_of(stream_prefix);
    push_str(&mut scan, prefix);
    let (manifests, _) = index.list_manifests(&scan, 100000, cursor);
    let counts = count_streams(&manifests, stream_prefix);
    let ghost all = counts@;
    proof {
        lemma_sorted_entries_of(all);
    }
    let n = if counts.len() < limit {
        counts.len()
    } else {
        limit
    };
    let mut items: Vec<StreamListItem> = Vec::new();
    let mut i: usize = 0;
    while i < n
        invariant
            i <= n <= counts@.len(),
            all == counts@,
            items@.len() == i,
            forall|j: int|
                0 <= j < i ==> (#[trigger] items@[j]).stream_id@ == all[j].0
                    && items@[j].variant_count == all[j].1,
        decreases n - i,
    {
        items.push(StreamListItem { stream_id: counts.key_at(i).clone(), variant_count: *counts.value_at(i) });
        i = i + 1;
    }
    let next = if n == limit && limit > 0 {
        let mut c = string_of(stream_prefix);
        push_str(&mut c, &items[n - 1].stream_id);
        push_str(&mut c, "0");
        Some(c)
    } else {
        None
    };
    (items, next)
}

/// Whether `/seg-` occurs in `k` at position `i`.
pub open spec fn seg_marker_at(k: Seq<char>, i: int) -> bool {
    0 <= i && i + 5 <= k.len() && k[i] == '/' && k[i + 1] == 's' && k[i + 2] == 'e' && k[i + 3]
        == 'g' && k[i + 4] == '-'
}

/// Whether the last `/seg-` of `k` starts at position `i`.
pub open spec fn is_last_marker(k: Seq<char>, i: int) -> bool {
    seg_marker_at(k, i) && forall|j: int| i < j ==> !seg_marker_at(k, j)
}

/// The part of `k` after its last `.` (all of `k` when it has none).
pub open spec fn after_last_dot(k: Seq<char>) -> Seq<char>
    decreases k.len(),
{
    if k.len() == 0 {
        k
    } else if k.last() == '.' {
        Seq::empty()
    } else {
        after_last_dot(k.drop_last()).push(k.last())
    }
}

/// The `$Number%06d$` URL template of a variant's segments, built from its
/// first segment's key: the key up to and including its last `/seg-`, the
/// number placeholder, and the key's extension. Empty when there is no
/// segment or the key has no `/seg-`.
pub open spec fn segment_template_spec(first_key: Option<Seq<char>>, base_url: Seq<char>) -> Seq<char> {
    match first_key {
        Some(k) => if exists|i: int| seg_marker_at(k, i) {
            let p = choose|i: int| is_last_marker(k, i);
            media_url_spec(base_url, k.take(p + 5) + "$Number%06d$."@ + after_last_dot(k))
        } else {
            Seq::empty()
        },
        None => Seq::empty(),
    }
}

/// Where the part after the last `.` starts.
pub fn last_dot_start_of(v: &Vec<char>) -> (i: usize)
    ensures
        i <= v@.len(),
        v@.subrange(i as int, v@.len() as int) == after_last_dot(v@),
{
    let mut i = v.len();
    assert(v@.subrange(0, i as int) =~= v@);
    assert(v@ + v@.subrange(i as int, i as int) =~= v@);
    while i > 0 && v[i - 1] != '.'
        invariant
            i <= v@.len(),
            after_last_dot(v@) == after_last_dot(v@.subrange(0, i as int)) + v@.subrange(
                i as int,
                v@.len() as int,
            ),
        decreases i,
    {
        let ghost p = v@.subrange(0, i as int);
        assert(p.drop_last() =~= v@.subrange(0, i - 1));
        assert(after_last_dot(p) == after_last_dot(p.drop_last()).push(p.last()));
        assert(after_last_dot(v@.subrange(0, i - 1)).push(v@[i - 1]) + v@.subrange(
            i as int,
            v@.len() as int,
        ) =~= after_last_dot(v@.subrange(0, i - 1)) + v@.subrange(i - 1, v@.len() as int));
        i = i - 1;
    }
    proof {
        let p = v@.subrange(0, i as int);
        assert(after_last_dot(p) =~= Seq::<char>::empty());
        assert(Seq::<char>::empty() + v@.subrange(i as int, v@.len() as int) =~= v@.subrange(
            i as int,
            v@.len() as int,
        ));
    }
    i
}

/// Whether `/seg-` starts at position `c`.
fn marker_at(v: &Vec<char>, c: usize) -> (r: bool)
    requires
        c + 5 <= v@.len(),
    ensures
        r == seg_marker_at(v@, c as int),
{
    let _n = v.len();
    v[c] == '/' && v[c + 1] == 's' && v[c + 2] == 'e' && v[c + 3] == 'g' && v[c + 4] == '-'
}

/// Where the last `/seg-` starts.
fn last_seg_marker(v: &Vec<char>) -> (r: Option<usize>)
    ensures
        match r {
            Some(p) => seg_marker_at(v@, p as int) && forall|j: int| p < j ==> !seg_marker_at(v@, j),
            None => forall|j: int| !seg_marker_at(v@, j),
        },
{
    let mut n: usize = if v.len() >= 4 {
        v.len() - 4
    } else {
        0
    };
    while n > 0
        invariant
            n + 4 <= v@.len() || n == 0,
            forall|j: int| n <= j ==> !seg_marker_at(v@, j),
        decreases n,
    {
        let c = n - 1;
        if marker_at(v, c) {
            return Some(c);
        }
        n = c;
    }
    None
}

/// The segment URL template for a variant whose first segment has key
/// `first_segment_key`.
pub fn segment_media_template(first_segment_key: Option<&str>, base_url: &str) -> (r: String)
    ensures
        r@ == segment_template_spec(
            match first_segment_key {
                Some(k) => Some(k@),
                None => None,
            },
            base_url@,
        ),
{
    let key = match first_segment_key {
        Some(k) => k,
        None => {
            return String::new();
        },
    };
    let v = chars_of(key);
    let vl = v.len();
    let ghost k = v@;
    let p = match last_seg_marker(&v) {
        Some(p) => p,
        None => {
            assert(!exists|i: int| seg_marker_at(k, i));
            return String::new();
        },
    };
    proof {
        assert(is_last_marker(k, p as int));
        assert(exists|i: int| seg_marker_at(k, i));
        let c = choose|q: int| is_last_marker(k, q);
        assert(is_last_marker(k, c));
        if c < p {
            assert(!seg_marker_at(k, p as int));
        } else if c > p {
            assert(!seg_marker_at(k, c));
        }
    }
    let mut path = string_from_chars(&v, 0, p + 5);
    push_str(&mut path, "$Number%06d$.");
    let d = last_dot_start_of(&v);
    push_chars(&mut path, &v, d, v.len());
    assert(v@.subrange(0, p + 5) =~= k.take(p + 5));
    assert(path@ =~= k.take(p + 5) + "$Number%06d$."@ + after_last_dot(k));
    let r = media_url(base_url, &path);
    assert(key@ == k);
    assert(exists|i: int| seg_marker_at(k, i));
    assert((choose|i: int| is_last_marker(k, i)) == p);
    assert(segment_template_spec(Some(k), base_url@) == media_url_spec(base_url@, path@));
    r
}


// ----- HLS media playlists -----

/// The entry of one segment: its `#EXTINF` line (with its duration text)
/// and its URL.
pub open spec fn segment_lines(segs: Seq<(Seq<char>, Seq<char>)>, base: Seq<char>) -> Seq<char>
    decreases segs.len(),
{
    if segs.len() == 0 {
        Seq::empty()
    } else {
        segment_lines(segs.drop_last(), base) + "#EXTINF:"@ + segs.last().0 + ",\n"@ + media_url_spec(
            base,
            segs.last().1,
        ) + "\n"@
    }
}

/// The HLS media playlist of a variant: the target duration, the
/// initialization segment, one entry per segment `(duration text, key)` in
/// order, and the end marker for video on demand.
pub open spec fn hls_media_spec(
    target: u64,
    init_key: Seq<char>,
    segs: Seq<(Seq<char>, Seq<char>)>,
    base: Seq<char>,
    vod: bool,
) -> Seq<char> {
    "#EXTM3U\n"@ + "#EXT-X-VERSION:7\n"@ + "#EXT-X-TARGETDURATION:"@ + decimal(target as nat) + "\n"@
        + "#EXT-X-MEDIA-SEQUENCE:0\n"@ + "#EXT-X-MAP:URI=\""@ + media_url_spec(base, init_key)
        + "\"\n"@ + segment_lines(segs, base) + if vod {
        "#EXT-X-ENDLIST\n"@
    } else {
        Seq::empty()
    }
}

/// Builds the HLS media playlist of a variant from its target duration
/// (whole seconds), its initialization key and its segments, each with the
/// text of its duration.
pub fn hls_media(target: u64, init_key: &str, segments: &Vec<(String, String)>, base_url: &str, vod_mode: bool) -> (r: String)
    ensures
        r@ == hls_media_spec(target, init_key@, pairs_view(segments@), base_url@, vod_mode),
{
    let mut out = String::new();
    push_str(&mut out, "#EXTM3U\n");
    push_str(&mut out, "#EXT-X-VERSION:7\n");
    push_str(&mut out, "#EXT-X-TARGETDURATION:");
    push_decimal(&mut out, target);
    push_str(&mut out, "\n");
    push_str(&mut out, "#EXT-X-MEDIA-SEQUENCE:0\n");
    push_str(&mut out, "#EXT-X-MAP:URI=\"");
    let init = media_url(base_url, init_key);
    push_str(&mut out, &init);
    push_str(&mut out, "\"\n");
    let ghost head = out@;
    let ghost sv = pairs_view(segments@);
    let mut i: usize = 0;
    assert(sv.take(0) =~= Seq::<(Seq<char>, Seq<char>)>::empty());
    assert(out@ =~= head + segment_lines(sv.take(0), base_url@));
    while i < segments.len()
        invariant
            i <= segments@.len(),
            sv == pairs_view(segments@),
            out@ == head + segment_lines(sv.take(i as int), base_url@),
        decreases segments@.len() - i,
    {
        let seg = &segments[i];
        push_str(&mut out, "#EXTINF:");
        push_str(&mut out, &seg.0);
        push_str(&mut out, ",\n");
        let u = media_url(base_url, &seg.1);
        push_str(&mut out, &u);
        push_str(&mut out, "\n");
        assert(sv.take(i + 1).drop_last() =~= sv.take(i as int));
        assert(sv.take(i + 1).last() == (seg.0@, seg.1@));
        assert(out@ =~= head + segment_lines(sv.take(i + 1), base_url@));
        i = i + 1;
    }
    assert(sv.take(segments@.len() as int) =~= sv);
    let ghost body = out@;
    if vod_mode {
        push_str(&mut out, "#EXT-X-ENDLIST\n");
    }
    assert(out@ =~= hls_media_spec(target, init_key@, sv, base_url@, vod_mode));
    out
}

/// A live media playlist is the video-on-demand one without its end
/// marker: both list the same segments, and only `#EXT-X-ENDLIST` differs.
pub proof fn lemma_live_is_vod_without_end(
    target: u64,
    init_key: Seq<char>,
    segs: Seq<(Seq<char>, Seq<char>)>,
    base: Seq<char>,
)
    ensures
        hls_media_spec(target, init_key, segs, base, false) + "#EXT-X-ENDLIST\n"@ == hls_media_spec(
            target,
            init_key,
            segs,
            base,
            true,
        ),
{
    assert(hls_media_spec(target, init_key, segs, base, false) + "#EXT-X-ENDLIST\n"@ =~= hls_media_spec(
        target,
        init_key,
        segs,
        base,
        true,
    ));
}

/// Every segment is listed, in order, live or not: a playlist without
/// segments is its header (target duration, media sequence 0 and the
/// initialization segment's URL), and one more segment `x` adds exactly
/// its `#EXTINF` line with its duration text and the line of its URL.
pub proof fn lemma_media_segments_listed(
    target: u64,
    init_key: Seq<char>,
    segs: Seq<(Seq<char>, Seq<char>)>,
    x: (Seq<char>, Seq<char>),
    base: Seq<char>,
)
    ensures
        hls_media_spec(target, init_key, Seq::empty(), base, false) == "#EXTM3U\n#EXT-X-VERSION:7\n#EXT-X-TARGETDURATION:"@
            + decimal(target as nat) + "\n#EXT-X-MEDIA-SEQUENCE:0\n#EXT-X-MAP:URI=\""@ + media_url_spec(base, init_key)
            + "\"\n"@,
        hls_media_spec(target, init_key, segs.push(x), base, false) == hls_media_spec(target, init_key, segs, base, false)
            + "#EXTINF:"@ + x.0 + ",\n"@ + media_url_spec(base, x.1) + "\n"@,
{
    let s2 = segs.push(x);
    assert(s2.drop_last() =~= segs);
    assert(hls_media_spec(target, init_key, Seq::empty(), base, false) =~= "#EXTM3U\n#EXT-X-VERSION:7\n#EXT-X-TARGETDURATION:"@
        + decimal(target as nat) + "\n#EXT-X-MEDIA-SEQUENCE:0\n#EXT-X-MAP:URI=\""@ + media_url_spec(base, init_key)
        + "\"\n"@) by {
        reveal_strlit("#EXTM3U\n#EXT-X-VERSION:7\n#EXT-X-TARGETDURATION:");
        reveal_strlit("#EXTM3U\n");
        reveal_strlit("#EXT-X-VERSION:7\n");
        reveal_strlit("#EXT-X-TARGETDURATION:");
        reveal_strlit("\n#EXT-X-MEDIA-SEQUENCE:0\n#EXT-X-MAP:URI=\"");
        reveal_strlit("\n");
        reveal_strlit("#EXT-X-MEDIA-SEQUENCE:0\n");
        reveal_strlit("#EXT-X-MAP:URI=\"");
        reveal_strlit("\"\n");
    }
    assert(hls_media_spec(target, init_key, s2, base, false) =~= hls_media_spec(target, init_key, segs, base, false)
        + "#EXTINF:"@ + x.0 + ",\n"@ + media_url_spec(base, x.1) + "\n"@);
}

// ----- deleting a stream -----

/// Whether a key names a variant's initialization segment (it ends with
/// `/init.mp4`).
pub open spec fn is_init_key(key: Seq<char>) -> bool {
    key.len() >= 9 && key.skip(key.len() - 9) == init_suffix()
}

/// The key prefix of everything a stream holds: `stream_prefix + id + "/"`.
pub fn stream_keys_prefix(stream_prefix: &str, stream_id: &str) -> (r: String)
    ensures
        r@ == stream_prefix@ + stream_id@ + seq!['/'],
{
    let mut p = string_of(stream_prefix);
    push_str(&mut p, stream_id);
    push_char(&mut p, '/');
    p
}

/// Counts one deleted object of a stream: `(variants, segments)`, where an
/// initialization segment counts as a variant and anything else as a
/// segment.
pub fn count_deleted(tally: (u32, u32), key: &str) -> (r: (u32, u32))
    requires
        tally.0 < u32::MAX,
        tally.1 < u32::MAX,
    ensures
        r == (if is_init_key(key@) {
            ((tally.0 + 1) as u32, tally.1)
        } else {
            (tally.0, (tally.1 + 1) as u32)
        }),
{
    let init = variant_id_in(key, "");
    proof {
        reveal_strlit("");
        assert(""@.is_prefix_of(key@));
    }
    match init {
        Some(_) => (tally.0 + 1, tally.1),
        None => (tally.0, tally.1 + 1),
    }
}
} // verus!
