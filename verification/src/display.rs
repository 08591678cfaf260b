//! What the terminal client shows: content types guessed from file names,
//! timestamps as UTC dates, byte counts, and truncated labels.
use vstd::prelude::*;

use crate::streaming::{after_last_dot, push_chars, string_from_chars};
use crate::text::{chars_of, decimal, push_char, push_decimal, push_str, string_of};
use vstd::string::StringSliceAdditionalSpecFns;

verus! {

/// The MIME type for a file extension.
pub open spec fn content_type_for(ext: Seq<char>) -> Seq<char> {
    if ext == "mp4"@ {
        "video/mp4"@
    } else if ext == "mkv"@ {
        "video/x-matroska"@
    } else if ext == "webm"@ {
        "video/webm"@
    } else if ext == "avi"@ {
        "video/x-msvideo"@
    } else if ext == "mp3"@ {
        "audio/mpeg"@
    } else if ext == "flac"@ {
        "audio/flac"@
    } else if ext == "wav"@ {
        "audio/wav"@
    } else if ext == "ogg"@ {
        "audio/ogg"@
    } else if ext == "png"@ {
        "image/png"@
    } else if ext == "jpg"@ || ext == "jpeg"@ {
        "image/jpeg"@
    } else if ext == "gif"@ {
        "image/gif"@
    } else if ext == "webp"@ {
        "image/webp"@
    } else {
        "application/octet-stream"@
    }
}

/// The MIME type of a file, from the part of its name after the last `.`.
pub fn guess_content_type(path: &str) -> (r: &'static str)
    ensures
        r@ == content_type_for(after_last_dot(path@)),
{
    let v = chars_of(path);
    let d = crate::streaming::last_dot_start_of(&v);
    let ext = string_from_chars(&v, d, v.len());
    let e = ext.as_str();
    if crate::keys::key_eq(e, "mp4") {
        "video/mp4"
    } else if crate::keys::key_eq(e, "mkv") {
        "video/x-matroska"
    } else if crate::keys::key_eq(e, "webm") {
        "video/webm"
    } else if crate::keys::key_eq(e, "avi") {
        "video/x-msvideo"
    } else if crate::keys::key_eq(e, "mp3") {
        "audio/mpeg"
    } else if crate::keys::key_eq(e, "flac") {
        "audio/flac"
    } else if crate::keys::key_eq(e, "wav") {
        "audio/wav"
    } else if crate::keys::key_eq(e, "ogg") {
        "audio/ogg"
    } else if crate::keys::key_eq(e, "png") {
        "image/png"
    } else if crate::keys::key_eq(e, "jpg") || crate::keys::key_eq(e, "jpeg") {
        "image/jpeg"
    } else if crate::keys::key_eq(e, "gif") {
        "image/gif"
    } else if crate::keys::key_eq(e, "webp") {
        "image/webp"
    } else {
        "application/octet-stream"
    }
}

/// How the client colours a file name.
#[derive(Debug, Clone, Copy, PartialEq, Eq, Structural)]
pub enum FileKind {
    Video,
    Audio,
    Image,
    Plain,
}

/// The kind of a file, from the part of its name after the last `.`.
pub open spec fn kind_for(ext: Seq<char>) -> FileKind {
    if ext == "mp4"@ || ext == "mkv"@ || ext == "webm"@ || ext == "avi"@ || ext == "mov"@ {
        FileKind::Video
    } else if ext == "mp3"@ || ext == "flac"@ || ext == "wav"@ || ext == "ogg"@ || ext == "aac"@ {
        FileKind::Audio
    } else if ext == "png"@ || ext == "jpg"@ || ext == "jpeg"@ || ext == "gif"@ || ext == "webp"@
        || ext == "bmp"@ {
        FileKind::Image
    } else {
        FileKind::Plain
    }
}

/// Whether `e` is one of `names`.
fn one_of(e: &str, names: &[&str]) -> (r: bool)
    ensures
        r == exists|i: int| 0 <= i < names@.len() && names@[i]@ == e@,
{
    let mut i: usize = 0;
    while i < names.len()
        invariant
            i <= names@.len(),
            forall|j: int| 0 <= j < i ==> names@[j]@ != e@,
        decreases names@.len() - i,
    {
        if crate::keys::key_eq(names[i], e) {
            return true;
        }
        i = i + 1;
    }
    false
}

/// The kind of a file, from its name.
pub fn file_kind(name: &str) -> (r: FileKind)
    ensures
        r == kind_for(after_last_dot(name@)),
{
    let v = chars_of(name);
    let d = crate::streaming::last_dot_start_of(&v);
    let ext = string_from_chars(&v, d, v.len());
    let e = ext.as_str();
    let video = ["mp4", "mkv", "webm", "avi", "mov"];
    let audio = ["mp3", "flac", "wav", "ogg", "aac"];
    let image = ["png", "jpg", "jpeg", "gif", "webp", "bmp"];
    proof {
        reveal_strlit("mp4");
        reveal_strlit("mkv");
        reveal_strlit("webm");
        reveal_strlit("avi");
        reveal_strlit("mov");
        reveal_strlit("mp3");
        reveal_strlit("flac");
        reveal_strlit("wav");
        reveal_strlit("ogg");
        reveal_strlit("aac");
        reveal_strlit("png");
        reveal_strlit("jpg");
        reveal_strlit("jpeg");
        reveal_strlit("gif");
        reveal_strlit("webp");
        reveal_strlit("bmp");
    }
    if one_of(e, &video) {
        FileKind::Video
    } else if one_of(e, &audio) {
        FileKind::Audio
    } else if one_of(e, &image) {
        FileKind::Image
    } else {
        FileKind::Plain
    }
}

/// `bytes` followed by ` bytes`.
pub fn format_bytes(bytes: u64) -> (r: String)
    ensures
        r@ == decimal(bytes as nat) + " bytes"@,
{
    let mut s = String::new();
    push_decimal(&mut s, bytes);
    push_str(&mut s, " bytes");
    assert(s@ =~= decimal(bytes as nat) + " bytes"@);
    s
}

/// `n / den` rounded to the nearest integer, a tie going to the even one.
pub open spec fn round_half_even(n: nat, den: nat) -> nat {
    let q = n / den;
    let r = n % den;
    if 2 * r > den || (2 * r == den && q % 2 == 1) {
        q + 1
    } else {
        q
    }
}

/// `2^s`.
pub open spec fn two_to(s: nat) -> nat
    decreases s,
{
    if s == 0 {
        1
    } else {
        2 * two_to((s - 1) as nat)
    }
}

/// How many low bits of `b` do not fit in the 53-bit significand of a double.
pub open spec fn double_shift(b: nat) -> nat
    decreases b,
{
    if b < 0x20_0000_0000_0000 {
        0
    } else {
        1 + double_shift(b / 2)
    }
}

/// The integer that `b as f64` holds: `b` rounded to 53 significant bits,
/// a tie going to the even significand.
pub open spec fn as_double(b: nat) -> nat {
    let d = two_to(double_shift(b));
    round_half_even(b, d) * d
}

/// `q / 10^places` written with `places` decimals (one or two).
pub open spec fn with_decimals(q: nat, places: nat) -> Seq<char> {
    if places == 1 {
        decimal(q / 10) + "."@ + decimal(q % 10)
    } else {
        decimal(q / 100) + "."@ + decimal((q / 10) % 10) + decimal(q % 10)
    }
}

/// A size for people: bytes below a KiB, else KB and MB with one decimal
/// and GB with two, of the size as a double divided by the unit, rounded
/// to nearest with ties to even (how `{:.1}` and `{:.2}` round).
pub open spec fn size_text(bytes: nat) -> Seq<char> {
    if bytes < 1024 {
        decimal(bytes) + " B"@
    } else if bytes < 1048576 {
        with_decimals(round_half_even(bytes * 10, 1024), 1) + " KB"@
    } else if bytes < 1073741824 {
        with_decimals(round_half_even(bytes * 10, 1048576), 1) + " MB"@
    } else {
        with_decimals(round_half_even(as_double(bytes) * 100, 1073741824), 2) + " GB"@
    }
}

fn round_half_even_of(n: u128, den: u128) -> (r: u128)
    requires
        den > 0,
        n / den < u128::MAX,
    ensures
        r == round_half_even(n as nat, den as nat),
{
    let q = n / den;
    let r = n % den;
    if r > den - r || (r == den - r && q % 2 == 1) {
        q + 1
    } else {
        q
    }
}

fn double_shift_of(b: u64) -> (s: u32)
    ensures
        s == double_shift(b as nat),
    decreases b,
{
    if b < 0x20_0000_0000_0000 {
        0
    } else {
        let t = double_shift_of(b / 2);
        proof {
            assert(two_to(11) == 2048) by {
                reveal_with_fuel(two_to, 12);
            }
            lemma_shift_bound(b as nat, 11);
        }
        1 + t
    }
}

proof fn lemma_shift_bound(b: nat, k: nat)
    requires
        b < 0x20_0000_0000_0000 * two_to(k),
    ensures
        double_shift(b) <= k,
    decreases k,
{
    if b >= 0x20_0000_0000_0000 {
        assert(k > 0);
        let h = two_to((k - 1) as nat);
        assert(b / 2 < 0x20_0000_0000_0000 * h) by (nonlinear_arith)
            requires
                b < 0x20_0000_0000_0000 * (2 * h),
        ;
        lemma_shift_bound(b / 2, (k - 1) as nat);
    }
}

proof fn lemma_two_to_grows(a: nat, b: nat)
    requires
        a <= b,
    ensures
        1 <= two_to(a) <= two_to(b),
    decreases b,
{
    if b > a {
        lemma_two_to_grows(a, (b - 1) as nat);
    } else if a > 0 {
        lemma_two_to_grows((a - 1) as nat, (a - 1) as nat);
    }
}

fn two_to_of(s: u32) -> (r: u128)
    requires
        s <= 11,
    ensures
        r == two_to(s as nat),
        1 <= r <= 2048,
    decreases s,
{
    proof {
        lemma_two_to_grows(s as nat, 11);
        assert(two_to(11) == 2048) by {
            reveal_with_fuel(two_to, 12);
        }
    }
    if s == 0 {
        1
    } else {
        let h = two_to_of(s - 1);
        2 * h
    }
}

/// Appends `q / 10^places` with `places` decimals.
fn push_with_decimals(out: &mut String, q: u64, places: u32)
    requires
        places == 1 || places == 2,
    ensures
        final(out)@ == old(out)@ + with_decimals(q as nat, places as nat),
{
    if places == 1 {
        push_decimal(out, q / 10);
        push_str(out, ".");
        push_decimal(out, q % 10);
    } else {
        push_decimal(out, q / 100);
        push_str(out, ".");
        push_decimal(out, (q / 10) % 10);
        push_decimal(out, q % 10);
    }
}

/// A size for people, as the client shows it.
pub fn format_size(bytes: u64) -> (r: String)
    ensures
        r@ == size_text(bytes as nat),
{
    let mut s = String::new();
    if bytes < 1024 {
        push_decimal(&mut s, bytes);
        push_str(&mut s, " B");
    } else if bytes < 1048576 {
        let q = round_half_even_of(bytes as u128 * 10, 1024);
        assert(q <= 10240);
        push_with_decimals(&mut s, q as u64, 1);
        push_str(&mut s, " KB");
    } else if bytes < 1073741824 {
        let q = round_half_even_of(bytes as u128 * 10, 1048576);
        assert(q <= 10240);
        push_with_decimals(&mut s, q as u64, 1);
        push_str(&mut s, " MB");
    } else {
        let t = double_shift_of(bytes);
        proof {
            assert(two_to(11) == 2048) by {
            reveal_with_fuel(two_to, 12);
        }
            lemma_shift_bound(bytes as nat, 11);
        }
        let d = two_to_of(t);
        let w = round_half_even_of(bytes as u128, d);
        assert(w <= bytes as u128 / d + 1);
        assert(w * d <= 0x1_0000_0000_0000_0800) by {
            let bn = bytes as nat;
            let dn = d as nat;
            let q = bn / dn;
            assert(q * dn <= bn) by (nonlinear_arith)
                requires
                    dn >= 1,
                    q == bn / dn,
            ;
            assert(w * dn <= q * dn + dn) by (nonlinear_arith)
                requires
                    w <= q + 1,
            ;
        }
        let v = w * d;
        let q = round_half_even_of(v * 100, 1073741824);
        assert(q <= 0x10_0000_0000_0000);
        push_with_decimals(&mut s, q as u64, 2);
        push_str(&mut s, " GB");
    }
    s
}

/// Gregorian leap years.
pub open spec fn is_leap_spec(y: int) -> bool {
    (y % 4 == 0 && y % 100 != 0) || y % 400 == 0
}

pub fn is_leap(y: i64) -> (r: bool)
    ensures
        r == is_leap_spec(y as int),
{
    (y % 4 == 0 && y % 100 != 0) || y % 400 == 0
}

/// `s` cut to its first `max` bytes (all of it when shorter); the cut must
/// fall on a character boundary.
pub fn truncate(s: &str, max: usize) -> (r: &str)
    requires
        s.spec_bytes().len() > max ==> vstd::utf8::is_char_boundary(s.spec_bytes(), max as int),
    ensures
        r.spec_bytes() == (if s.spec_bytes().len() <= max {
            s.spec_bytes()
        } else {
            s.spec_bytes().subrange(0, max as int)
        }),
{
    if s.as_bytes().len() <= max {
        s
    } else {
        let (a, _) = s.split_at(max);
        a
    }
}

/// Division rounding toward zero, as Rust's `/` on integers.
pub open spec fn tdiv(x: int, d: int) -> int {
    if x >= 0 {
        x / d
    } else {
        -((-x) / d)
    }
}

/// The remainder that goes with `tdiv`, as Rust's `%` on integers.
pub open spec fn trem(x: int, d: int) -> int {
    if x >= 0 {
        x % d
    } else {
        -((-x) % d)
    }
}

/// Days in year `y`.
pub open spec fn year_length(y: int) -> int {
    if is_leap_spec(y) {
        366
    } else {
        365
    }
}

/// Counts whole years off `days`, starting at year `y`: the year reached
/// and the days left into it.
pub open spec fn split_years(days: int, y: int) -> (int, int)
    decreases (if days > 0 {
        days
    } else {
        0
    }),
{
    if days < year_length(y) {
        (y, days)
    } else {
        split_years(days - year_length(y), y + 1)
    }
}

/// Days in month `m` (0 for January).
pub open spec fn month_length(m: int, leap: bool) -> int {
    if m == 1 {
        if leap {
            29
        } else {
            28
        }
    } else if m == 3 || m == 5 || m == 8 || m == 10 {
        30
    } else {
        31
    }
}

/// Counts whole months off `rem`, from month `i`: the month reached and the
/// days left into it (month 0 and what is left when all twelve pass).
pub open spec fn split_months(rem: int, leap: bool, i: int) -> (int, int)
    decreases 12 - i,
{
    if i >= 12 {
        (0, rem)
    } else if rem < month_length(i, leap) {
        (i, rem)
    } else {
        split_months(rem - month_length(i, leap), leap, i + 1)
    }
}

/// `{:02}`: two digits at least, a minus sign before negative numbers.
pub open spec fn two_digits(n: int) -> Seq<char> {
    if n < 0 {
        seq!['-'] + decimal((-n) as nat)
    } else if n < 10 {
        seq!['0'] + decimal(n as nat)
    } else {
        decimal(n as nat)
    }
}

/// `{:04}` of a year from 1000 on: its digits.
pub open spec fn four_digits(n: int) -> Seq<char> {
    if n < 10 {
        seq!['0', '0', '0'] + decimal(n as nat)
    } else if n < 100 {
        seq!['0', '0'] + decimal(n as nat)
    } else if n < 1000 {
        seq!['0'] + decimal(n as nat)
    } else {
        decimal(n as nat)
    }
}

/// A Unix timestamp as `YYYY-MM-DD hh:mm:ss UTC` (an em dash for 0); days
/// before 1970 are not counted back, so negative times show negative
/// fields, as the arithmetic gives them.
pub open spec fn timestamp_text(ts: int) -> Seq<char> {
    if ts == 0 {
        seq!['\u{2014}']
    } else {
        let days = tdiv(ts, 86400);
        let tod = trem(ts, 86400);
        let hours = tdiv(tod, 3600);
        let minutes = tdiv(trem(tod, 3600), 60);
        let seconds = trem(tod, 60);
        let (y, rem) = split_years(days, 1970);
        let (m, d) = split_months(rem, is_leap_spec(y), 0);
        four_digits(y) + seq!['-'] + two_digits(m + 1) + seq!['-'] + two_digits(d + 1) + seq![' ']
            + two_digits(hours) + seq![':'] + two_digits(minutes) + seq![':'] + two_digits(seconds)
            + seq![' ', 'U', 'T', 'C']
    }
}

fn push_two_digits(out: &mut String, n: i64)
    requires
        n > i64::MIN,
    ensures
        final(out)@ == old(out)@ + two_digits(n as int),
{
    if n < 0 {
        push_char(out, '-');
        push_decimal(out, (-n) as u64);
    } else if n < 10 {
        push_char(out, '0');
        push_decimal(out, n as u64);
    } else {
        push_decimal(out, n as u64);
    }
    assert(out@ =~= old(out)@ + two_digits(n as int));
}

fn month_len(m: i64, leap: bool) -> (r: i64)
    ensures
        r == month_length(m as int, leap),
{
    if m == 1 {
        if leap {
            29
        } else {
            28
        }
    } else if m == 3 || m == 5 || m == 8 || m == 10 {
        30
    } else {
        31
    }
}

/// The signed value `-x` or `x`.
fn signed(neg: bool, x: u64) -> (r: i64)
    requires
        x <= i64::MAX,
    ensures
        r == (if neg {
            -(x as int)
        } else {
            x as int
        }),
{
    if neg {
        -(x as i64)
    } else {
        x as i64
    }
}

/// The day count and the time of day of a nonzero timestamp, each split as
/// Rust's integer division splits it.
fn time_fields(ts: i64) -> (r: (i64, i64, i64, i64))
    ensures
        r.0 == tdiv(ts as int, 86400),
        r.1 == tdiv(trem(ts as int, 86400), 3600),
        r.2 == tdiv(trem(trem(ts as int, 86400), 3600), 60),
        r.3 == trem(trem(ts as int, 86400), 60),
        -106751991167301 <= r.0 <= 106751991167301,
        -24 < r.1 < 24,
        -60 < r.2 < 60,
        -60 < r.3 < 60,
{
    let neg = ts < 0;
    let a: u64 = if neg {
        if ts == i64::MIN {
            9223372036854775808u64
        } else {
            (-ts) as u64
        }
    } else {
        ts as u64
    };
    let tod_abs = a % 86400;
    let days = signed(neg, a / 86400);
    let tod = signed(neg, tod_abs);
    let hours = signed(neg, tod_abs / 3600);
    let minutes = signed(neg, (tod_abs % 3600) / 60);
    let seconds = signed(neg, tod_abs % 60);
    assert(tod == trem(ts as int, 86400));
    (days, hours, minutes, seconds)
}

/// Whole years counted off a day count from 1970.
fn year_and_rest(days: i64) -> (r: (i64, i64))
    requires
        -106751991167301 <= days <= 106751991167301,
    ensures
        (r.0 as int, r.1 as int) == split_years(days as int, 1970),
        r.0 >= 1970,
        r.1 >= -106751991167301,
        r.1 <= days,
{
    let mut y: i64 = 1970;
    let mut rem: i64 = days;
    loop
        invariant
            y >= 1970,
            (y - 1970) * 365 <= days - rem,
            -106751991167301 <= days <= 106751991167301,
            rem <= days,
            rem >= days || rem >= 0,
            split_years(rem as int, y as int) == split_years(days as int, 1970),
        decreases rem,
    {
        let diy: i64 = if is_leap(y) {
            366
        } else {
            365
        };
        if rem < diy {
            assert(split_years(rem as int, y as int) == (y as int, rem as int));
            return (y, rem);
        }
        rem = rem - diy;
        y = y + 1;
    }
}

/// Whole months counted off the days into a year.
fn month_and_day(rem: i64, leap: bool) -> (r: (i64, i64))
    requires
        rem >= -106751991167301,
    ensures
        (r.0 as int, r.1 as int) == split_months(rem as int, leap, 0),
        0 <= r.0 < 12,
        rem - 372 <= r.1 <= rem,
{
    let mut m: i64 = 0;
    let mut i: i64 = 0;
    let mut d = rem;
    let mut found = false;
    while i < 12 && !found
        invariant
            0 <= i <= 12,
            rem >= d,
            d >= rem - 31 * i,
            rem >= -106751991167301,
            found ==> 0 <= m < 12,
            !found ==> m == 0,
            !found ==> split_months(d as int, leap, i as int) == split_months(rem as int, leap, 0),
            found ==> (m as int, d as int) == split_months(rem as int, leap, 0),
        decreases 12 - i + (if found {
            0int
        } else {
            1int
        }),
    {
        let md = month_len(i, leap);
        if d < md {
            m = i;
            found = true;
        } else {
            d = d - md;
            i = i + 1;
        }
    }
    proof {
        if !found {
            assert(split_months(d as int, leap, 12) == (0int, d as int));
        }
    }
    (m, d)
}

/// Format a Unix timestamp as a UTC date and time.
pub fn format_timestamp(ts: i64) -> (r: String)
    ensures
        r@ == timestamp_text(ts as int),
{
    if ts == 0 {
        let mut s = String::new();
        push_char(&mut s, '\u{2014}');
        assert(s@ =~= timestamp_text(0));
        return s;
    }
    let (days, hours, minutes, seconds) = time_fields(ts);
    let (y, rem) = year_and_rest(days);
    let (m, d) = month_and_day(rem, is_leap(y));
    let mut s = String::new();
    push_decimal(&mut s, y as u64);
    push_char(&mut s, '-');
    push_two_digits(&mut s, m + 1);
    push_char(&mut s, '-');
    push_two_digits(&mut s, d + 1);
    push_char(&mut s, ' ');
    push_two_digits(&mut s, hours);
    push_char(&mut s, ':');
    push_two_digits(&mut s, minutes);
    push_char(&mut s, ':');
    push_two_digits(&mut s, seconds);
    push_str(&mut s, " UTC");
    proof {
        reveal_strlit(" UTC");
        assert(four_digits(y as int) == decimal(y as nat));
        assert(s@ =~= timestamp_text(ts as int));
    }
    s
}


// ----- the command-line client's listings -----

/// `n` spaces.
pub open spec fn spaces(n: nat) -> Seq<char> {
    Seq::new(n, |i: int| ' ')
}

/// `{:w}` of a string: spaces after it up to `w` characters.
pub open spec fn pad_right(s: Seq<char>, w: nat) -> Seq<char> {
    if s.len() < w {
        s + spaces((w - s.len()) as nat)
    } else {
        s
    }
}

/// `{:>w}`: spaces before it up to `w` characters.
pub open spec fn pad_left(s: Seq<char>, w: nat) -> Seq<char> {
    if s.len() < w {
        spaces((w - s.len()) as nat) + s
    } else {
        s
    }
}

fn push_spaces(out: &mut String, n: usize)
    ensures
        final(out)@ == old(out)@ + spaces(n as nat),
{
    let ghost start = out@;
    let mut i: usize = 0;
    while i < n
        invariant
            i <= n,
            out@ == start + spaces(i as nat),
        decreases n - i,
    {
        push_char(out, ' ');
        assert(spaces((i + 1) as nat) =~= spaces(i as nat).push(' '));
        i = i + 1;
    }
}

/// One line of a listing: the key padded to 40 characters, the size
/// right-aligned in 12, then the content type.
pub open spec fn list_line_text(key: Seq<char>, size: nat, content_type: Seq<char>) -> Seq<char> {
    pad_right(key, 40) + " "@ + pad_left(decimal(size), 12) + " bytes  "@ + content_type
}

/// A line of the listing of stored objects.
pub fn list_line(key: &str, size: u64, content_type: &str) -> (r: String)
    ensures
        r@ == list_line_text(key@, size as nat, content_type@),
{
    let mut s = string_of(key);
    let n = key.unicode_len();
    if n < 40 {
        push_spaces(&mut s, 40 - n);
    }
    push_str(&mut s, " ");
    let d = crate::text::decimal_string(size);
    let m = d.as_str().unicode_len();
    if m < 12 {
        push_spaces(&mut s, 12 - m);
    }
    push_str(&mut s, d.as_str());
    push_str(&mut s, " bytes  ");
    push_str(&mut s, content_type);
    s
}

/// The lines that describe an object: its key, size, chunk count, content
/// type and checksum, then its metadata, one `name: value` per line, under
/// a heading when there is any.
pub open spec fn meta_text(m: crate::types::MediaMetadata) -> Seq<Seq<char>> {
    let head = seq![
        "Key:          "@ + m.key@,
        "Size:         "@ + decimal(m.total_size as nat) + " bytes"@,
        "Chunks:       "@ + decimal(m.chunk_count as nat),
        "Content-Type: "@ + m.content_type@,
        "Checksum:     "@ + m.checksum@
    ];
    if m.metadata@.len() == 0 {
        head
    } else {
        head.push("Metadata:"@) + m.metadata@.map_values(
            |p: (String, String)| "  "@ + p.0@ + ": "@ + p.1@,
        )
    }
}

pub open spec fn lines_view(v: Seq<String>) -> Seq<Seq<char>> {
    v.map_values(|s: String| s@)
}

/// The description of an object the command-line client prints.
pub fn meta_lines(m: &crate::types::MediaMetadata) -> (r: Vec<String>)
    ensures
        lines_view(r@) == meta_text(*m),
{
    let mut out: Vec<String> = Vec::new();
    let mut l = string_of("Key:          ");
    push_str(&mut l, m.key.as_str());
    out.push(l);
    let mut l = string_of("Size:         ");
    push_decimal(&mut l, m.total_size);
    push_str(&mut l, " bytes");
    out.push(l);
    let mut l = string_of("Chunks:       ");
    push_decimal(&mut l, m.chunk_count as u64);
    out.push(l);
    let mut l = string_of("Content-Type: ");
    push_str(&mut l, m.content_type.as_str());
    out.push(l);
    let mut l = string_of("Checksum:     ");
    push_str(&mut l, m.checksum.as_str());
    out.push(l);
    let ghost head = lines_view(out@);
    if m.metadata.len() == 0 {
        assert(lines_view(out@) =~= meta_text(*m));
        return out;
    }
    out.push(string_of("Metadata:"));
    let ghost top = lines_view(out@);
    let ghost pairs = m.metadata@.map_values(|p: (String, String)| "  "@ + p.0@ + ": "@ + p.1@);
    let mut i: usize = 0;
    assert(lines_view(out@) =~= top + pairs.take(0));
    while i < m.metadata.len()
        invariant
            i <= m.metadata@.len(),
            pairs == m.metadata@.map_values(|p: (String, String)| "  "@ + p.0@ + ": "@ + p.1@),
            lines_view(out@) == top + pairs.take(i as int),
        decreases m.metadata@.len() - i,
    {
        let p = &m.metadata[i];
        let mut l = string_of("  ");
        push_str(&mut l, p.0.as_str());
        push_str(&mut l, ": ");
        push_str(&mut l, p.1.as_str());
        let ghost o0 = out@;
        out.push(l);
        assert(lines_view(out@) =~= lines_view(o0).push(pairs[i as int]));
        assert(pairs.take(i + 1) =~= pairs.take(i as int).push(pairs[i as int]));
        i = i + 1;
    }
    assert(pairs.take(m.metadata@.len() as int) =~= pairs);
    assert(lines_view(out@) =~= meta_text(*m));
    out
}

} // verus!
