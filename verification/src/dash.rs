//! The DASH manifest of a stream: one adaptation set for its video
//! variants and one for its audio variants, each variant a representation
//! with its attributes and its segment template.
use vstd::prelude::*;

use crate::streaming::{has_media_type, has_type, variant_views, VariantInfo, VariantView};
use crate::text::{decimal, push_decimal, push_str};

verus! {

/// ` name="value"` when the value is known (not empty).
pub open spec fn opt_attr(name: Seq<char>, value: Seq<char>) -> Seq<char> {
    if value.len() == 0 {
        Seq::empty()
    } else {
        " "@ + name + "=\""@ + value + "\""@
    }
}

/// The opening of a representation: its id and bandwidth.
pub open spec fn rep_open(v: VariantView) -> Seq<char> {
    "      <Representation id=\""@ + v.variant_id + "\" bandwidth=\""@ + decimal(v.bandwidth as nat)
        + "\""@
}

/// The width and height of a video representation, when both are known.
pub open spec fn size_attrs(v: VariantView) -> Seq<char> {
    if v.width > 0 && v.height > 0 {
        " width=\""@ + decimal(v.width as nat) + "\" height=\""@ + decimal(v.height as nat) + "\""@
    } else {
        Seq::empty()
    }
}

/// The channel configuration of an audio representation, when known.
pub open spec fn channels_line(v: VariantView) -> Seq<char> {
    if v.channels.len() == 0 {
        Seq::empty()
    } else {
        "        <AudioChannelConfiguration schemeIdUri=\"urn:mpeg:dash:23003:3:audio_channel_configuration:2011\" value=\""@
            + v.channels + "\"/>\n"@
    }
}

/// A representation of variant `v` with segment template `tmpl`: video
/// ones carry size, codecs and frame rate; audio ones codecs, sampling rate
/// and channel configuration.
pub open spec fn dash_rep(v: VariantView, tmpl: Seq<char>, video: bool) -> Seq<char> {
    if video {
        rep_open(v) + size_attrs(v) + opt_attr("codecs"@, v.codec) + opt_attr("frameRate"@, v.frame_rate)
            + ">\n"@ + tmpl + "      </Representation>\n"@
    } else {
        rep_open(v) + opt_attr("codecs"@, v.codec) + opt_attr("audioSamplingRate"@, v.sample_rate)
            + ">\n"@ + channels_line(v) + tmpl + "      </Representation>\n"@
    }
}

/// The representations of the variants of media type `t`, in order, each
/// with its own template (`ts[i]` goes with `vs[i]`).
pub open spec fn dash_reps(vs: Seq<VariantView>, ts: Seq<Seq<char>>, t: Seq<char>, video: bool) -> Seq<
    char,
>
    decreases vs.len(),
{
    if vs.len() == 0 || ts.len() == 0 {
        Seq::empty()
    } else {
        dash_reps(vs.drop_last(), ts.drop_last(), t, video) + if vs.last().media_type == t {
            dash_rep(vs.last(), ts.last(), video)
        } else {
            Seq::empty()
        }
    }
}

/// The adaptation set of the variants of media type `t`; nothing when
/// there is none.
pub open spec fn dash_set(vs: Seq<VariantView>, ts: Seq<Seq<char>>, t: Seq<char>, mime: Seq<char>, video: bool) -> Seq<
    char,
> {
    if has_type(vs, t) {
        "    <AdaptationSet mimeType=\""@ + mime + "\" segmentAlignment=\"true\" startWithSAP=\"1\">\n"@
            + dash_reps(vs, ts, t, video) + "    </AdaptationSet>\n"@
    } else {
        Seq::empty()
    }
}

/// The DASH manifest of a stream lasting `duration` (an ISO 8601 duration)
/// with variants `vs` and their segment templates `ts`: video variants
/// first, then audio ones.
pub open spec fn dash_mpd_spec(vs: Seq<VariantView>, duration: Seq<char>, ts: Seq<Seq<char>>) -> Seq<char> {
    "<?xml version=\"1.0\" encoding=\"UTF-8\"?>\n"@
        + "<MPD xmlns=\"urn:mpeg:dash:schema:mpd:2011\" type=\"static\" mediaPresentationDuration=\""@
        + duration
        + "\" minBufferTime=\"PT2S\" profiles=\"urn:mpeg:dash:profile:isoff-on-demand:2011\">\n"@
        + "  <Period>\n"@ + dash_set(vs, ts, "video"@, "video/mp4"@, true) + dash_set(
        vs,
        ts,
        "audio"@,
        "audio/mp4"@,
        false,
    ) + "  </Period>\n"@ + "</MPD>\n"@
}

pub open spec fn string_views(s: Seq<String>) -> Seq<Seq<char>> {
    s.map_values(|t: String| t@)
}

fn push_opt_attr(out: &mut String, name: &str, value: &str)
    ensures
        final(out)@ == old(out)@ + opt_attr(name@, value@),
{
    if !value.is_empty() {
        push_str(out, " ");
        push_str(out, name);
        push_str(out, "=\"");
        push_str(out, value);
        push_str(out, "\"");
    }
    assert(out@ =~= old(out)@ + opt_attr(name@, value@));
}

fn push_rep_open(out: &mut String, v: &VariantInfo)
    ensures
        final(out)@ == old(out)@ + rep_open(v@),
{
    let ghost o = out@;
    push_str(out, "      <Representation id=\"");
    push_str(out, &v.variant_id);
    push_str(out, "\" bandwidth=\"");
    push_decimal(out, v.bandwidth);
    push_str(out, "\"");
    assert(out@ =~= o + rep_open(v@));
}

fn push_size_attrs(out: &mut String, v: &VariantInfo)
    ensures
        final(out)@ == old(out)@ + size_attrs(v@),
{
    let ghost o = out@;
    if v.width > 0 && v.height > 0 {
        push_str(out, " width=\"");
        push_decimal(out, v.width as u64);
        push_str(out, "\" height=\"");
        push_decimal(out, v.height as u64);
        push_str(out, "\"");
    }
    assert(out@ =~= o + size_attrs(v@));
}

fn push_channels_line(out: &mut String, v: &VariantInfo)
    ensures
        final(out)@ == old(out)@ + channels_line(v@),
{
    let ghost o = out@;
    if !v.channels.as_str().is_empty() {
        push_str(
            out,
            "        <AudioChannelConfiguration schemeIdUri=\"urn:mpeg:dash:23003:3:audio_channel_configuration:2011\" value=\"",
        );
        push_str(out, &v.channels);
        push_str(out, "\"/>\n");
    }
    assert(out@ =~= o + channels_line(v@));
}

fn push_rep(out: &mut String, v: &VariantInfo, tmpl: &str, video: bool)
    ensures
        final(out)@ == old(out)@ + dash_rep(v@, tmpl@, video),
{
    let ghost o = out@;
    push_rep_open(out, v);
    let ghost o1 = out@;
    if video {
        push_size_attrs(out, v);
        let ghost o2 = out@;
        push_opt_attr(out, "codecs", &v.codec);
        let ghost o3 = out@;
        push_opt_attr(out, "frameRate", &v.frame_rate);
        let ghost o4 = out@;
        push_str(out, ">\n");
        push_str(out, tmpl);
        push_str(out, "      </Representation>\n");
        proof {
            reveal_strlit("codecs");
            reveal_strlit("frameRate");
            assert(out@ =~= o4 + ">\n"@ + tmpl@ + "      </Representation>\n"@);
        }
    } else {
        push_opt_attr(out, "codecs", &v.codec);
        let ghost o3 = out@;
        push_opt_attr(out, "audioSamplingRate", &v.sample_rate);
        let ghost o4 = out@;
        push_str(out, ">\n");
        push_channels_line(out, v);
        push_str(out, tmpl);
        push_str(out, "      </Representation>\n");
        proof {
            reveal_strlit("codecs");
            reveal_strlit("audioSamplingRate");
        }
    }
    assert(out@ =~= o + dash_rep(v@, tmpl@, video));
}

fn push_reps(out: &mut String, vs: &[VariantInfo], ts: &[String], t: &str, video: bool)
    requires
        vs@.len() == ts@.len(),
    ensures
        final(out)@ == old(out)@ + dash_reps(variant_views(vs@), string_views(ts@), t@, video),
{
    let ghost views = variant_views(vs@);
    let ghost tv = string_views(ts@);
    let mut i: usize = 0;
    assert(views.take(0) =~= Seq::<VariantView>::empty());
    while i < vs.len()
        invariant
            i <= vs@.len() == ts@.len(),
            views == variant_views(vs@),
            tv == string_views(ts@),
            out@ == old(out)@ + dash_reps(views.take(i as int), tv.take(i as int), t@, video),
        decreases vs@.len() - i,
    {
        let v = &vs[i];
        if crate::keys::key_eq(&v.media_type, t) {
            push_rep(out, v, &ts[i], video);
        }
        proof {
            assert(views.take(i + 1).drop_last() =~= views.take(i as int));
            assert(tv.take(i + 1).drop_last() =~= tv.take(i as int));
            assert(views.take(i + 1).last() == v@);
            assert(tv.take(i + 1).last() == ts@[i as int]@);
            assert(out@ =~= old(out)@ + dash_reps(views.take(i + 1), tv.take(i + 1), t@, video));
        }
        i = i + 1;
    }
    assert(views.take(vs@.len() as int) =~= views);
    assert(tv.take(vs@.len() as int) =~= tv);
}

fn push_set(out: &mut String, vs: &[VariantInfo], ts: &[String], t: &str, mime: &str, video: bool)
    requires
        vs@.len() == ts@.len(),
    ensures
        final(out)@ == old(out)@ + dash_set(variant_views(vs@), string_views(ts@), t@, mime@, video),
{
    let ghost o = out@;
    if has_media_type(vs, t) {
        push_str(out, "    <AdaptationSet mimeType=\"");
        push_str(out, mime);
        push_str(out, "\" segmentAlignment=\"true\" startWithSAP=\"1\">\n");
        push_reps(out, vs, ts, t, video);
        push_str(out, "    </AdaptationSet>\n");
    }
    assert(out@ =~= o + dash_set(variant_views(vs@), string_views(ts@), t@, mime@, video));
}

/// The DASH manifest of a stream: `duration` is its ISO 8601 duration and
/// `templates[i]` the segment template of `variants[i]`.
pub fn dash_mpd(variants: &[VariantInfo], duration: &str, templates: &[String]) -> (r: String)
    requires
        variants@.len() == templates@.len(),
    ensures
        r@ == dash_mpd_spec(variant_views(variants@), duration@, string_views(templates@)),
{
    let mut out = String::new();
    push_str(&mut out, "<?xml version=\"1.0\" encoding=\"UTF-8\"?>\n");
    push_str(&mut out, "<MPD xmlns=\"urn:mpeg:dash:schema:mpd:2011\" type=\"static\" mediaPresentationDuration=\"");
    push_str(&mut out, duration);
    push_str(
        &mut out,
        "\" minBufferTime=\"PT2S\" profiles=\"urn:mpeg:dash:profile:isoff-on-demand:2011\">\n",
    );
    push_str(&mut out, "  <Period>\n");
    push_set(&mut out, variants, templates, "video", "video/mp4", true);
    push_set(&mut out, variants, templates, "audio", "audio/mp4", false);
    push_str(&mut out, "  </Period>\n");
    push_str(&mut out, "</MPD>\n");
    assert(out@ =~= dash_mpd_spec(variant_views(variants@), duration@, string_views(templates@)));
    out
}

/// A segment template with one duration for every segment.
pub open spec fn uniform_template(init_url: Seq<char>, duration_ms: u64, media: Seq<char>) -> Seq<char> {
    "        <SegmentTemplate timescale=\"1000\" duration=\""@ + decimal(duration_ms as nat)
        + "\" startNumber=\"0\" initialization=\""@ + init_url + "\" media=\""@ + media + "\"/>\n"@
}

/// The `<S d="…"/>` lines of a segment timeline.
pub open spec fn timeline_lines(ds: Seq<u64>) -> Seq<char>
    decreases ds.len(),
{
    if ds.len() == 0 {
        Seq::empty()
    } else {
        timeline_lines(ds.drop_last()) + "            <S d=\""@ + decimal(ds.last() as nat) + "\"/>\n"@
    }
}

/// A segment template that lists each segment's duration.
pub open spec fn timeline_template(init_url: Seq<char>, ds: Seq<u64>) -> Seq<char> {
    "        <SegmentTemplate timescale=\"1000\" startNumber=\"0\" initialization=\""@ + init_url
        + "\">\n"@ + "          <SegmentTimeline>\n"@ + timeline_lines(ds) + "          </SegmentTimeline>\n"@
        + "        </SegmentTemplate>\n"@
}

/// The segment template of one variant: with `uniform` (every segment that
/// long, in milliseconds) a single template over the `media` URL pattern,
/// else a timeline of the segments' durations in milliseconds.
pub fn dash_template(init_url: &str, uniform: Option<u64>, media: &str, durations_ms: &Vec<u64>) -> (r: String)
    ensures
        r@ == (match uniform {
            Some(d) => uniform_template(init_url@, d, media@),
            None => timeline_template(init_url@, durations_ms@),
        }),
{
    let mut out = String::new();
    match uniform {
        Some(d) => {
            push_str(&mut out, "        <SegmentTemplate timescale=\"1000\" duration=\"");
            push_decimal(&mut out, d);
            push_str(&mut out, "\" startNumber=\"0\" initialization=\"");
            push_str(&mut out, init_url);
            push_str(&mut out, "\" media=\"");
            push_str(&mut out, media);
            push_str(&mut out, "\"/>\n");
            assert(out@ =~= uniform_template(init_url@, d, media@));
        },
        None => {
            push_str(&mut out, "        <SegmentTemplate timescale=\"1000\" startNumber=\"0\" initialization=\"");
            push_str(&mut out, init_url);
            push_str(&mut out, "\">\n");
            push_str(&mut out, "          <SegmentTimeline>\n");
            let ghost head = out@;
            let mut i: usize = 0;
            assert(durations_ms@.take(0) =~= Seq::<u64>::empty());
            assert(out@ =~= head + timeline_lines(durations_ms@.take(0)));
            while i < durations_ms.len()
                invariant
                    i <= durations_ms@.len(),
                    out@ == head + timeline_lines(durations_ms@.take(i as int)),
                decreases durations_ms@.len() - i,
            {
                push_str(&mut out, "            <S d=\"");
                push_decimal(&mut out, durations_ms[i]);
                push_str(&mut out, "\"/>\n");
                assert(durations_ms@.take(i + 1).drop_last() =~= durations_ms@.take(i as int));
                assert(out@ =~= head + timeline_lines(durations_ms@.take(i + 1)));
                i = i + 1;
            }
            assert(durations_ms@.take(durations_ms@.len() as int) =~= durations_ms@);
            push_str(&mut out, "          </SegmentTimeline>\n");
            push_str(&mut out, "        </SegmentTemplate>\n");
            assert(out@ =~= timeline_template(init_url@, durations_ms@));
        },
    }
    out
}

/// The opening and closing of a representation.
proof fn lemma_rep_parts(v: VariantView, x: Seq<char>, video: bool) -> (r: (Seq<char>, Seq<char>))
    ensures
        dash_rep(v, x, video) == "      <Representation id=\""@ + v.variant_id + "\" bandwidth=\""@ + decimal(
            v.bandwidth as nat,
        ) + "\""@ + r.0 + ">\n"@ + r.1 + x + "      </Representation>\n"@,
{
    let o = "      <Representation id=\""@ + v.variant_id + "\" bandwidth=\""@ + decimal(v.bandwidth as nat) + "\""@;
    assert(rep_open(v) == o);
    if video {
        let a = size_attrs(v) + opt_attr("codecs"@, v.codec) + opt_attr("frameRate"@, v.frame_rate);
        assert(dash_rep(v, x, video) =~= o + a + ">\n"@ + Seq::<char>::empty() + x + "      </Representation>\n"@);
        (a, Seq::empty())
    } else {
        let a = opt_attr("codecs"@, v.codec) + opt_attr("audioSamplingRate"@, v.sample_rate);
        assert(dash_rep(v, x, video) =~= o + a + ">\n"@ + channels_line(v) + x + "      </Representation>\n"@);
        (a, channels_line(v))
    }
}

/// A representation names its variant and carries that variant's
/// template: it opens with `<Representation id="…" bandwidth="…"` and ends
/// with the template and `</Representation>`.
pub proof fn lemma_dash_rep_names_variant(v: VariantView, x: Seq<char>, video: bool)
    ensures
        exists|a: Seq<char>, c: Seq<char>|
            dash_rep(v, x, video) == "      <Representation id=\""@ + v.variant_id + "\" bandwidth=\""@ + decimal(
                v.bandwidth as nat,
            ) + "\""@ + a + ">\n"@ + c + x + "      </Representation>\n"@,
{
    let r = lemma_rep_parts(v, x, video);
}

/// Each variant has its own representation: one more variant (with its
/// template) adds exactly its representation to the set of its media type
/// and leaves the sets of other types unchanged.
pub proof fn lemma_dash_reps_push(
    vs: Seq<VariantView>,
    ts: Seq<Seq<char>>,
    v: VariantView,
    x: Seq<char>,
    t: Seq<char>,
    video: bool,
)
    requires
        vs.len() == ts.len(),
    ensures
        v.media_type == t ==> dash_reps(vs.push(v), ts.push(x), t, video) == dash_reps(vs, ts, t, video) + dash_rep(
            v,
            x,
            video,
        ),
        v.media_type != t ==> dash_reps(vs.push(v), ts.push(x), t, video) == dash_reps(vs, ts, t, video),
{
    assert(vs.push(v).drop_last() =~= vs);
    assert(ts.push(x).drop_last() =~= ts);
    if v.media_type != t {
        assert(dash_reps(vs.push(v), ts.push(x), t, video) =~= dash_reps(vs, ts, t, video));
    }
}

proof fn lemma_dash_reps_hold(vs: Seq<VariantView>, ts: Seq<Seq<char>>, t: Seq<char>, video: bool, i: int)
    requires
        vs.len() == ts.len(),
        0 <= i < vs.len(),
        vs[i].media_type == t,
    ensures
        exists|p: Seq<char>, q: Seq<char>| dash_reps(vs, ts, t, video) == p + dash_rep(vs[i], ts[i], video) + q,
    decreases vs.len(),
{
    let l = dash_rep(vs[i], ts[i], video);
    if i == vs.len() - 1 {
        let p = dash_reps(vs.drop_last(), ts.drop_last(), t, video);
        assert(dash_reps(vs, ts, t, video) =~= p + l + Seq::<char>::empty());
    } else {
        let dv = vs.drop_last();
        let dt = ts.drop_last();
        assert(dv[i] == vs[i] && dt[i] == ts[i]);
        lemma_dash_reps_hold(dv, dt, t, video, i);
        let (p, q) = choose|p: Seq<char>, q: Seq<char>| dash_reps(dv, dt, t, video) == p + l + q;
        let extra = if vs.last().media_type == t {
            dash_rep(vs.last(), ts.last(), video)
        } else {
            Seq::<char>::empty()
        };
        assert(dash_reps(vs, ts, t, video) =~= p + l + (q + extra));
    }
}

proof fn lemma_regroup_rep(
    h: Seq<char>,
    p: Seq<char>,
    q: Seq<char>,
    e: Seq<char>,
    id: Seq<char>,
    bw: Seq<char>,
    a: Seq<char>,
    c: Seq<char>,
    x: Seq<char>,
)
    ensures
        ({
            let r = "      <Representation id=\""@ + id + "\" bandwidth=\""@ + bw + "\""@ + a + ">\n"@ + c + x
                + "      </Representation>\n"@;
            h + (p + r + q) + e == (h + p) + "      <Representation id=\""@ + id + "\" bandwidth=\""@ + bw + "\""@ + a
                + ">\n"@ + c + x + "      </Representation>\n"@ + (q + e)
        }),
{
    let r = "      <Representation id=\""@ + id + "\" bandwidth=\""@ + bw + "\""@ + a + ">\n"@ + c + x
        + "      </Representation>\n"@;
    assert(h + (p + r + q) + e =~= (h + p) + "      <Representation id=\""@ + id + "\" bandwidth=\""@ + bw + "\""@ + a
        + ">\n"@ + c + x + "      </Representation>\n"@ + (q + e));
}

/// No video or audio variant is left out of the DASH manifest: each has a
/// representation with its own id, bandwidth and segment template.
pub proof fn lemma_dash_lists_every_variant(vs: Seq<VariantView>, duration: Seq<char>, ts: Seq<Seq<char>>, i: int)
    requires
        vs.len() == ts.len(),
        0 <= i < vs.len(),
        vs[i].media_type == "video"@ || vs[i].media_type == "audio"@,
    ensures
        exists|p: Seq<char>, a: Seq<char>, c: Seq<char>, q: Seq<char>|
            dash_mpd_spec(vs, duration, ts) == p + "      <Representation id=\""@ + vs[i].variant_id + "\" bandwidth=\""@
                + decimal(vs[i].bandwidth as nat) + "\""@ + a + ">\n"@ + c + ts[i] + "      </Representation>\n"@ + q,
{
    let v = vs[i];
    let t = v.media_type;
    let video = t == "video"@;
    let mime = if video { "video/mp4"@ } else { "audio/mp4"@ };
    assert(has_type(vs, t));
    lemma_dash_reps_hold(vs, ts, t, video, i);
    let (p, q) = choose|p: Seq<char>, q: Seq<char>| dash_reps(vs, ts, t, video) == p + dash_rep(v, ts[i], video) + q;
    let (a, c) = lemma_rep_parts(v, ts[i], video);
    let open = "    <AdaptationSet mimeType=\""@ + mime + "\" segmentAlignment=\"true\" startWithSAP=\"1\">\n"@;
    let close = "    </AdaptationSet>\n"@;
    assert(dash_set(vs, ts, t, mime, video) == open + dash_reps(vs, ts, t, video) + close);
    let start = "<?xml version=\"1.0\" encoding=\"UTF-8\"?>\n"@
        + "<MPD xmlns=\"urn:mpeg:dash:schema:mpd:2011\" type=\"static\" mediaPresentationDuration=\""@ + duration
        + "\" minBufferTime=\"PT2S\" profiles=\"urn:mpeg:dash:profile:isoff-on-demand:2011\">\n"@ + "  <Period>\n"@;
    let vset = dash_set(vs, ts, "video"@, "video/mp4"@, true);
    let aset = dash_set(vs, ts, "audio"@, "audio/mp4"@, false);
    let fin = "  </Period>\n"@ + "</MPD>\n"@;
    assert(dash_mpd_spec(vs, duration, ts) =~= start + vset + aset + fin);
    if video {
        lemma_regroup_rep(start + open, p, q, close + aset + fin, v.variant_id, decimal(v.bandwidth as nat), a, c, ts[i]);
        assert(start + vset + aset + fin =~= (start + open) + (p + dash_rep(v, ts[i], video) + q) + (close + aset
            + fin));
        assert(dash_mpd_spec(vs, duration, ts) == (start + open + p) + "      <Representation id=\""@ + v.variant_id
            + "\" bandwidth=\""@ + decimal(v.bandwidth as nat) + "\""@ + a + ">\n"@ + c + ts[i]
            + "      </Representation>\n"@ + (q + (close + aset + fin)));
    } else {
        assert(t == "audio"@);
        lemma_regroup_rep(start + vset + open, p, q, close + fin, v.variant_id, decimal(v.bandwidth as nat), a, c, ts[i]);
        assert(start + vset + aset + fin =~= (start + vset + open) + (p + dash_rep(v, ts[i], video) + q) + (close
            + fin));
        assert(dash_mpd_spec(vs, duration, ts) == (start + vset + open + p) + "      <Representation id=\""@
            + v.variant_id + "\" bandwidth=\""@ + decimal(v.bandwidth as nat) + "\""@ + a + ">\n"@ + c + ts[i]
            + "      </Representation>\n"@ + (q + (close + fin)));
    }
}

} // verus!
