//! The REST interface's decisions: keys from request paths, byte ranges
//! from `Range` headers, and which streaming endpoint a path names.
use vstd::prelude::*;

use crate::streaming::{push_chars};
use crate::text::{chars_of, decimal, parse_unsigned, parse_unsigned_in, push_decimal, push_str, string_of};

verus! {

/// A key taken from a path capture, without its leading `/`.
pub open spec fn normalize_key_spec(raw: Seq<char>) -> Seq<char> {
    if raw.len() > 0 && raw[0] == '/' {
        raw.drop_first()
    } else {
        raw
    }
}

/// Wildcard captures include a leading `/`; strip it so keys stay consistent.
pub fn normalize_key(raw: String) -> (r: String)
    ensures
        r@ == normalize_key_spec(raw@),
{
    let v = chars_of(raw.as_str());
    if v.len() > 0 && v[0] == '/' {
        let mut s = String::new();
        push_chars(&mut s, &v, 1, v.len());
        assert(s@ =~= raw@.drop_first());
        s
    } else {
        raw
    }
}

/// `bytes=`, the only range unit served.
pub open spec fn bytes_unit() -> Seq<char> {
    seq!['b', 'y', 't', 'e', 's', '=']
}

/// Whether `s` contains `c`.
pub open spec fn has_char(s: Seq<char>, c: char) -> bool {
    exists|i: int| 0 <= i < s.len() && s[i] == c
}

/// The position of the first `c` in `s` (when there is one).
pub open spec fn first_index(s: Seq<char>, c: char) -> int {
    choose|i: int| 0 <= i < s.len() && s[i] == c && forall|j: int| 0 <= j < i ==> s[j] != c
}

/// What a `Range` header asks for of an object of `total` bytes: the start
/// offset, the length, and whether a partial response is due. `bytes=-N`
/// asks for the last `N` bytes; `bytes=A-B` for bytes `A` to `B` (`B` capped
/// at the last byte, and the end of the object when missing or not a
/// number). Anything else, an empty object, or a range that starts past
/// the end gives the whole object.
pub open spec fn range_spec(header: Option<Seq<char>>, total: u64) -> (u64, u64, bool) {
    let whole = (0u64, 0u64, false);
    if total == 0 {
        whole
    } else {
        match header {
            None => whole,
            Some(h) => if !bytes_unit().is_prefix_of(h) {
                whole
            } else {
                let br = h.skip(6);
                if br.len() > 0 && br[0] == '-' {
                    match parse_unsigned(br.drop_first(), u64::MAX as nat) {
                        Some(n) => if n == 0 {
                            whole
                        } else {
                            let start: int = if n >= total {
                                0
                            } else {
                                total - n
                            };
                            (start as u64, (total - start) as u64, true)
                        },
                        None => whole,
                    }
                } else if !has_char(br, '-') {
                    whole
                } else {
                    let d = first_index(br, '-');
                    match parse_unsigned(br.take(d), u64::MAX as nat) {
                        None => whole,
                        Some(start) => if start >= total {
                            whole
                        } else {
                            let rest = br.skip(d + 1);
                            let end: int = if rest.len() == 0 {
                                total - 1
                            } else {
                                match parse_unsigned(rest, u64::MAX as nat) {
                                    Some(e) => if e < total - 1 {
                                        e as int
                                    } else {
                                        total - 1
                                    },
                                    None => total - 1,
                                }
                            };
                            if end < start {
                                whole
                            } else {
                                (start as u64, (end - start + 1) as u64, true)
                            }
                        },
                    }
                }
            },
        }
    }
}

/// Reads a `Range` header (`None` when absent or not visible ASCII) for an
/// object of `total_size` bytes: `(offset, length, is_range)`.
pub fn parse_range_header(range: Option<&str>, total_size: u64) -> (r: (u64, u64, bool))
    ensures
        r == range_spec(
            match range {
                Some(h) => Some(h@),
                None => None,
            },
            total_size,
        ),
{
    if total_size == 0 {
        return (0, 0, false);
    }
    let h = match range {
        Some(h) => h,
        None => {
            return (0, 0, false);
        },
    };
    let v = chars_of(h);
    let ghost hv = v@;
    let vl = v.len();
    if vl < 6 || v[0] != 'b' || v[1] != 'y' || v[2] != 't' || v[3] != 'e' || v[4] != 's' || v[5]
        != '=' {
        proof {
            if bytes_unit().is_prefix_of(hv) {
                assert(hv.subrange(0, 6) =~= bytes_unit());
                assert(hv[0] == 'b' && hv[1] == 'y' && hv[2] == 't' && hv[3] == 'e' && hv[4] == 's'
                    && hv[5] == '=');
            }
        }
        return (0, 0, false);
    }
    assert(hv.subrange(0, 6) =~= bytes_unit());
    assert(bytes_unit().is_prefix_of(hv));
    let ghost br = hv.skip(6);
    if vl > 6 && v[6] == '-' {
        assert(br.drop_first() =~= hv.subrange(7, vl as int));
        match parse_unsigned_in(&v, 7, vl, u64::MAX) {
            Some(n) => {
                if n == 0 {
                    return (0, 0, false);
                }
                let start = if n >= total_size {
                    0
                } else {
                    total_size - n
                };
                return (start, total_size - start, true);
            },
            None => {
                return (0, 0, false);
            },
        }
    }
    let mut d: usize = 6;
    while d < vl && v[d] != '-'
        invariant
            6 <= d <= vl,
            vl == v@.len(),
            hv == v@,
            br == hv.skip(6),
            forall|j: int| 6 <= j < d ==> v@[j] != '-',
        decreases vl - d,
    {
        d = d + 1;
    }
    if d == vl {
        assert(!has_char(br, '-')) by {
            if has_char(br, '-') {
                let j = choose|j: int| 0 <= j < br.len() && br[j] == '-';
                assert(hv[6 + j] == '-');
            }
        }
        return (0, 0, false);
    }
    proof {
        assert(br[d - 6] == '-');
        assert(has_char(br, '-'));
        let f = first_index(br, '-');
        if f < d - 6 {
            assert(br[f] == hv[6 + f]);
        } else if f > d - 6 {
            assert(br[d - 6] != '-');
        }
        assert(f == d - 6);
        assert(br.take(d - 6) =~= hv.subrange(6, d as int));
        assert(br.skip(d - 6 + 1) =~= hv.subrange(d + 1, vl as int));
    }
    let start = match parse_unsigned_in(&v, 6, d, u64::MAX) {
        Some(s) => s,
        None => {
            return (0, 0, false);
        },
    };
    if start >= total_size {
        return (0, 0, false);
    }
    let end: u64 = if d + 1 == vl {
        total_size - 1
    } else {
        match parse_unsigned_in(&v, d + 1, vl, u64::MAX) {
            Some(e) => if e < total_size - 1 {
                e
            } else {
                total_size - 1
            },
            None => total_size - 1,
        }
    };
    if end < start {
        return (0, 0, false);
    }
    (start, end - start + 1, true)
}

/// `bytes A-B/T`, the `Content-Range` of a partial response.
pub open spec fn content_range_spec(offset: u64, end: u64, total: u64) -> Seq<char> {
    "bytes "@ + decimal(offset as nat) + "-"@ + decimal((end - 1) as nat) + "/"@ + decimal(
        total as nat,
    )
}

/// The `Content-Range` value for bytes `[offset, end)` of `total`.
pub fn content_range(offset: u64, end: u64, total: u64) -> (r: String)
    requires
        end > 0,
    ensures
        r@ == content_range_spec(offset, end, total),
{
    let mut s = string_of("bytes ");
    push_decimal(&mut s, offset);
    push_str(&mut s, "-");
    push_decimal(&mut s, end - 1);
    push_str(&mut s, "/");
    push_decimal(&mut s, total);
    assert(s@ =~= content_range_spec(offset, end, total));
    s
}

/// How a read of an object answers a `Range` header.
pub struct RangeAnswer {
    /// Whether the answer is partial (206) rather than whole (200).
    pub partial: bool,
    /// The first byte sent.
    pub offset: u64,
    /// How many bytes are asked for (0: to the end).
    pub length: u64,
    /// The `Content-Length` header.
    pub content_length: u64,
    /// The `Content-Range` header of a partial answer.
    pub content_range: Option<String>,
}

/// The answer to a read of an object of `total_size` bytes with the given
/// `Range` header: a partial answer sends the requested bytes with their
/// `Content-Range`; a whole one sends every byte.
pub fn answer_range(range: Option<&str>, total_size: u64) -> (r: RangeAnswer)
    ensures
        ({
            let (o, l, p) = range_spec(
                match range {
                    Some(h) => Some(h@),
                    None => None,
                },
                total_size,
            );
            &&& r.partial == p
            &&& r.offset == o
            &&& r.length == l
            &&& p ==> (0 < l && o + l <= total_size && r.content_length == l && (r.content_range matches Some(
                c,
            ) && c@ == content_range_spec(o, (o + l) as u64, total_size)))
            &&& !p ==> r.content_length == total_size && r.content_range is None
        }),
{
    let (offset, length, partial) = parse_range_header(range, total_size);
    if partial {
        let end = offset + length;
        let c = content_range(offset, end, total_size);
        RangeAnswer { partial, offset, length, content_length: length, content_range: Some(c) }
    } else {
        RangeAnswer { partial, offset, length, content_length: total_size, content_range: None }
    }
}

/// Whether `s` ends with `t`.
pub open spec fn has_suffix(s: Seq<char>, t: Seq<char>) -> bool {
    t.len() <= s.len() && s.skip(s.len() - t.len()) == t
}

/// `s` without its last `t.len()` characters.
pub open spec fn strip_suffix(s: Seq<char>, t: Seq<char>) -> Seq<char> {
    s.take(s.len() - t.len())
}

/// Whether `t` occurs in `s` at position `i`.
pub open spec fn occurs_at(s: Seq<char>, t: Seq<char>, i: int) -> bool {
    0 <= i && i + t.len() <= s.len() && s.subrange(i, i + t.len()) == t
}

/// Whether the last occurrence of `t` in `s` is at position `i`.
pub open spec fn last_occurrence_at(s: Seq<char>, t: Seq<char>, i: int) -> bool {
    occurs_at(s, t, i) && forall|j: int| i < j ==> !occurs_at(s, t, j)
}

pub open spec fn master_suffix() -> Seq<char> {
    seq!['/', 'm', 'a', 's', 't', 'e', 'r', '.', 'm', '3', 'u', '8']
}

pub open spec fn mpd_suffix() -> Seq<char> {
    seq!['/', 'm', 'a', 'n', 'i', 'f', 'e', 's', 't', '.', 'm', 'p', 'd']
}

pub open spec fn playlist_suffix() -> Seq<char> {
    seq!['/', 'p', 'l', 'a', 'y', 'l', 'i', 's', 't', '.', 'm', '3', 'u', '8']
}

pub open spec fn variant_marker() -> Seq<char> {
    seq!['/', 'v', 'a', 'r', 'i', 'a', 'n', 't', '/']
}

/// The request methods the streaming routes tell apart.
pub enum RequestMethod {
    Get,
    Delete,
    Other,
}

/// What a path under `/v1/streams/` names.
pub enum StreamRoute {
    /// `{stream_id}/master.m3u8`
    Master(String),
    /// `{stream_id}/manifest.mpd`
    Dash(String),
    /// `{stream_id}/variant/{variant_id}/playlist.m3u8`
    VariantPlaylist(String, String),
    /// `DELETE {stream_id}`
    Delete(String),
    /// A playlist path with a method other than GET.
    MethodNotAllowed,
    /// Nothing.
    NotFound,
}

/// What a `StreamRoute` holds.
pub enum RouteView {
    Master(Seq<char>),
    Dash(Seq<char>),
    VariantPlaylist(Seq<char>, Seq<char>),
    Delete(Seq<char>),
    MethodNotAllowed,
    NotFound,
}

impl View for StreamRoute {
    type V = RouteView;

    open spec fn view(&self) -> RouteView {
        match self {
            StreamRoute::Master(s) => RouteView::Master(s@),
            StreamRoute::Dash(s) => RouteView::Dash(s@),
            StreamRoute::VariantPlaylist(s, v) => RouteView::VariantPlaylist(s@, v@),
            StreamRoute::Delete(s) => RouteView::Delete(s@),
            StreamRoute::MethodNotAllowed => RouteView::MethodNotAllowed,
            StreamRoute::NotFound => RouteView::NotFound,
        }
    }
}

/// Route streaming requests under /v1/streams/: master playlists, DASH
/// manifests and variant playlists answer GET only; a DELETE of a plain
/// stream identifier (no `.`) deletes the stream.
pub open spec fn route_spec(m: RequestMethod, p: Seq<char>) -> RouteView {
    if has_suffix(p, master_suffix()) {
        if m is Get {
            RouteView::Master(strip_suffix(p, master_suffix()))
        } else {
            RouteView::MethodNotAllowed
        }
    } else if has_suffix(p, mpd_suffix()) {
        if m is Get {
            RouteView::Dash(strip_suffix(p, mpd_suffix()))
        } else {
            RouteView::MethodNotAllowed
        }
    } else if has_suffix(p, playlist_suffix()) && (exists|i: int| occurs_at(p, variant_marker(), i))
        && has_suffix(
        p.skip((choose|i: int| last_occurrence_at(p, variant_marker(), i)) + 9),
        playlist_suffix(),
    ) {
        let pos = choose|i: int| last_occurrence_at(p, variant_marker(), i);
        if m is Get {
            RouteView::VariantPlaylist(
                p.take(pos),
                strip_suffix(p.skip(pos + 9), playlist_suffix()),
            )
        } else {
            RouteView::MethodNotAllowed
        }
    } else if m is Delete && p.len() > 0 && !has_char(p, '.') {
        RouteView::Delete(p)
    } else {
        RouteView::NotFound
    }
}

/// Whether `v[lo..]` ends with `t`.
fn ends_with_from(v: &Vec<char>, lo: usize, t: &Vec<char>) -> (r: bool)
    requires
        lo <= v@.len(),
    ensures
        r == has_suffix(v@.skip(lo as int), t@),
{
    let n = v.len();
    if t.len() > n - lo {
        return false;
    }
    let off = n - t.len();
    let mut i: usize = 0;
    while i < t.len()
        invariant
            n == v@.len(),
            off + t@.len() == n,
            lo <= off,
            i <= t@.len(),
            forall|j: int| 0 <= j < i ==> v@[off + j] == t@[j],
        decreases t@.len() - i,
    {
        if v[off + i] != t[i] {
            assert(v@.skip(lo as int).skip(v@.skip(lo as int).len() - t@.len())[i as int] != t@[i as int]);
            return false;
        }
        i = i + 1;
    }
    assert(v@.skip(lo as int).skip(v@.skip(lo as int).len() - t@.len()) =~= t@);
    true
}

/// Whether `t` occurs in `v` at `i`.
fn occurs_at_exec(v: &Vec<char>, t: &Vec<char>, i: usize) -> (r: bool)
    ensures
        r == occurs_at(v@, t@, i as int),
{
    let n = v.len();
    if i > n || t.len() > n - i {
        return false;
    }
    let mut j: usize = 0;
    while j < t.len()
        invariant
            n == v@.len(),
            i + t@.len() <= n,
            j <= t@.len(),
            forall|q: int| 0 <= q < j ==> v@[i + q] == t@[q],
        decreases t@.len() - j,
    {
        if v[i + j] != t[j] {
            assert(v@.subrange(i as int, i + t@.len())[j as int] != t@[j as int]);
            return false;
        }
        j = j + 1;
    }
    assert(v@.subrange(i as int, i + t@.len()) =~= t@);
    true
}

/// Where the last occurrence of `t` in `v` starts (`t` nonempty).
fn last_occurrence(v: &Vec<char>, t: &Vec<char>) -> (r: Option<usize>)
    requires
        t@.len() > 0,
    ensures
        match r {
            Some(i) => last_occurrence_at(v@, t@, i as int),
            None => forall|j: int| !occurs_at(v@, t@, j),
        },
{
    let n = v.len();
    if t.len() > n {
        return None;
    }
    let mut k: usize = n - t.len() + 1;
    while k > 0
        invariant
            n == v@.len(),
            k + t@.len() <= n + 1,
            forall|j: int| k <= j ==> !occurs_at(v@, t@, j),
        decreases k,
    {
        let c = k - 1;
        if occurs_at_exec(v, t, c) {
            return Some(c);
        }
        k = c;
    }
    None
}

/// Whether `v` has a `c`.
fn has_char_exec(v: &Vec<char>, c: char) -> (r: bool)
    ensures
        r == has_char(v@, c),
{
    let mut i: usize = 0;
    while i < v.len()
        invariant
            i <= v@.len(),
            forall|j: int| 0 <= j < i ==> v@[j] != c,
        decreases v@.len() - i,
    {
        if v[i] == c {
            return true;
        }
        i = i + 1;
    }
    false
}

/// Which streaming endpoint `path` (after `/v1/streams/`) names.
pub fn route_streams_path(method: RequestMethod, path: &str) -> (r: StreamRoute)
    ensures
        r@ == route_spec(method, path@),
{
    let v = chars_of(path);
    let n = v.len();
    let master = vec!['/', 'm', 'a', 's', 't', 'e', 'r', '.', 'm', '3', 'u', '8'];
    let mpd = vec!['/', 'm', 'a', 'n', 'i', 'f', 'e', 's', 't', '.', 'm', 'p', 'd'];
    let playlist = vec!['/', 'p', 'l', 'a', 'y', 'l', 'i', 's', 't', '.', 'm', '3', 'u', '8'];
    let marker = vec!['/', 'v', 'a', 'r', 'i', 'a', 'n', 't', '/'];
    assert(master@ =~= master_suffix());
    assert(mpd@ =~= mpd_suffix());
    assert(playlist@ =~= playlist_suffix());
    assert(marker@ =~= variant_marker());
    assert(v@.skip(0) =~= v@);
    let is_get = match method {
        RequestMethod::Get => true,
        _ => false,
    };
    if ends_with_from(&v, 0, &master) {
        if is_get {
            let s = crate::streaming::string_from_chars(&v, 0, n - 12);
            return StreamRoute::Master(s);
        }
        return StreamRoute::MethodNotAllowed;
    }
    if ends_with_from(&v, 0, &mpd) {
        if is_get {
            let s = crate::streaming::string_from_chars(&v, 0, n - 13);
            return StreamRoute::Dash(s);
        }
        return StreamRoute::MethodNotAllowed;
    }
    if ends_with_from(&v, 0, &playlist) {
        match last_occurrence(&v, &marker) {
            Some(pos) => {
                proof {
                    let c = choose|i: int| last_occurrence_at(v@, variant_marker(), i);
                    assert(last_occurrence_at(v@, variant_marker(), pos as int));
                    assert(last_occurrence_at(v@, variant_marker(), c));
                    if c < pos {
                        assert(!occurs_at(v@, variant_marker(), pos as int));
                    } else if c > pos {
                        assert(!occurs_at(v@, variant_marker(), c));
                    }
                }
                if ends_with_from(&v, pos + 9, &playlist) {
                    if is_get {
                        let sid = crate::streaming::string_from_chars(&v, 0, pos);
                        let vid = crate::streaming::string_from_chars(&v, pos + 9, n - 14);
                        assert(v@.skip(pos + 9).take(v@.skip(pos + 9).len() - 14) =~= v@.subrange(
                            pos + 9,
                            n - 14,
                        ));
                        return StreamRoute::VariantPlaylist(sid, vid);
                    }
                    return StreamRoute::MethodNotAllowed;
                }
            },
            None => {},
        }
    }
    let is_delete = match method {
        RequestMethod::Delete => true,
        _ => false,
    };
    if is_delete && n > 0 && !has_char_exec(&v, '.') {
        return StreamRoute::Delete(string_of(path));
    }
    StreamRoute::NotFound
}


// ----- custom metadata from upload headers -----

/// The header name prefix that marks custom metadata on an upload.
pub open spec fn meta_prefix() -> Seq<char> {
    "x-kaidadb-meta-"@
}

/// The pairs whose name is not `k`, in order.
pub open spec fn without_name(m: Seq<(Seq<char>, Seq<char>)>, k: Seq<char>) -> Seq<(Seq<char>, Seq<char>)>
    decreases m.len(),
{
    if m.len() == 0 {
        m
    } else if m.last().0 == k {
        without_name(m.drop_last(), k)
    } else {
        without_name(m.drop_last(), k).push(m.last())
    }
}

/// The metadata an upload's headers (`name`, `value`, names in lowercase)
/// carry: each header named `x-kaidadb-meta-<name>` sets `<name>`, a later
/// one replacing an earlier one of the same name.
pub open spec fn header_metadata(hs: Seq<(Seq<char>, Seq<char>)>) -> Seq<(Seq<char>, Seq<char>)>
    decreases hs.len(),
{
    if hs.len() == 0 {
        Seq::empty()
    } else {
        let m = header_metadata(hs.drop_last());
        let h = hs.last();
        if meta_prefix().is_prefix_of(h.0) {
            let k = h.0.skip(meta_prefix().len() as int);
            without_name(m, k).push((k, h.1))
        } else {
            m
        }
    }
}

/// The pairs of `m` but those named `k`.
fn drop_name(m: &Vec<(String, String)>, k: &str) -> (r: Vec<(String, String)>)
    ensures
        crate::types::pairs_view(r@) == without_name(crate::types::pairs_view(m@), k@),
{
    let ghost mv = crate::types::pairs_view(m@);
    let mut out: Vec<(String, String)> = Vec::new();
    let mut i: usize = 0;
    assert(mv.take(0) =~= Seq::<(Seq<char>, Seq<char>)>::empty());
    assert(crate::types::pairs_view(out@) =~= without_name(mv.take(0), k@));
    while i < m.len()
        invariant
            i <= m@.len(),
            mv == crate::types::pairs_view(m@),
            crate::types::pairs_view(out@) == without_name(mv.take(i as int), k@),
        decreases m@.len() - i,
    {
        assert(mv.take(i + 1).drop_last() =~= mv.take(i as int));
        assert(mv.take(i + 1).last() == (m@[i as int].0@, m@[i as int].1@));
        if !crate::keys::key_eq(m[i].0.as_str(), k) {
            let ghost o0 = out@;
            out.push((m[i].0.clone(), m[i].1.clone()));
            assert(crate::types::pairs_view(out@) =~= crate::types::pairs_view(o0).push(mv[i as int]));
        }
        i = i + 1;
    }
    assert(mv.take(m@.len() as int) =~= mv);
    out
}

/// The custom metadata an upload's headers carry.
pub fn metadata_from_headers(headers: &Vec<(String, String)>) -> (r: Vec<(String, String)>)
    ensures
        crate::types::pairs_view(r@) == header_metadata(crate::types::pairs_view(headers@)),
{
    let ghost hv = crate::types::pairs_view(headers@);
    let prefix = chars_of("x-kaidadb-meta-");
    proof {
        reveal_strlit("x-kaidadb-meta-");
    }
    let mut m: Vec<(String, String)> = Vec::new();
    let mut i: usize = 0;
    assert(hv.take(0) =~= Seq::<(Seq<char>, Seq<char>)>::empty());
    assert(crate::types::pairs_view(m@) =~= header_metadata(hv.take(0)));
    while i < headers.len()
        invariant
            i <= headers@.len(),
            hv == crate::types::pairs_view(headers@),
            prefix@ == meta_prefix(),
            crate::types::pairs_view(m@) == header_metadata(hv.take(i as int)),
        decreases headers@.len() - i,
    {
        let h = &headers[i];
        assert(hv.take(i + 1).drop_last() =~= hv.take(i as int));
        assert(hv.take(i + 1).last() == (h.0@, h.1@));
        let name = chars_of(h.0.as_str());
        if crate::text::starts_with_chars(&name, &prefix) {
            let mut k = String::new();
            push_chars(&mut k, &name, prefix.len(), name.len());
            assert(name@.subrange(prefix@.len() as int, name@.len() as int) =~= name@.skip(
                prefix@.len() as int,
            ));
            let mut kept = drop_name(&m, k.as_str());
            let ghost k0 = kept@;
            kept.push((k, h.1.clone()));
            assert(crate::types::pairs_view(kept@) =~= crate::types::pairs_view(k0).push(
                (name@.skip(prefix@.len() as int), h.1@),
            ));
            m = kept;
        }
        i = i + 1;
    }
    assert(hv.take(headers@.len() as int) =~= hv);
    m
}

} // verus!
