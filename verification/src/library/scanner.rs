//! Metadata of recordings found in the output folder, how each is displayed,
//! and which files count as recordings.
use vstd::prelude::*;

use crate::path::{extension, file_stem, path_extension, path_stem};
use crate::text::{first_index_exec, first_index_of, lines, lines_of, parse_u32_range, parse_u32_spec, slice_chars, string_of_range, trim, trim_range, ascii_lower_char, ascii_lowercase, chars_eq, chars_of, decimal, digit_char, digit_to_char, push_char, push_decimal, push_decimal_padded, zero_padded};

verus! {

/// Text of a duration in seconds: `H:MM:SS` when at least an hour, else `MM:SS`.
pub open spec fn duration_text(secs: nat) -> Seq<char> {
    let h = secs / 3600;
    let m = (secs % 3600) / 60;
    let s = secs % 60;
    if h > 0 {
        decimal(h) + seq![':'] + zero_padded(decimal(m), 2) + seq![':'] + zero_padded(
            decimal(s),
            2,
        )
    } else {
        zero_padded(decimal(m), 2) + seq![':'] + zero_padded(decimal(s), 2)
    }
}

pub fn format_duration(secs: u64) -> (r: String)
    ensures
        r@ == duration_text(secs as nat),
{
    let h = secs / 3600;
    let m = (secs % 3600) / 60;
    let s = secs % 60;
    let mut out = String::new();
    if h > 0 {
        push_decimal(&mut out, h);
        push_char(&mut out, ':');
    }
    push_decimal_padded(&mut out, m, 2);
    push_char(&mut out, ':');
    push_decimal_padded(&mut out, s, 2);
    out
}

pub open spec fn two_pow(e: nat) -> nat
    decreases e,
{
    if e == 0 {
        1
    } else {
        2 * two_pow((e - 1) as nat)
    }
}

/// `n / d` rounded to the nearest integer, ties to the even neighbour.
pub open spec fn div_round_half_even(n: nat, d: nat) -> nat
    recommends
        d > 0,
{
    let q = n / d;
    let r = n % d;
    if 2 * r > d || (2 * r == d && q % 2 == 1) {
        q + 1
    } else {
        q
    }
}

/// How many low bits of `b` a 53-bit significand cannot hold.
pub open spec fn excess_bits(b: nat) -> nat
    decreases b,
{
    if b < 0x20_0000_0000_0000 {
        0
    } else {
        1 + excess_bits(b / 2)
    }
}

/// The `f64` nearest to the integer `b` (ties to even), as `b as f64` gives it.
pub open spec fn nearest_f64(b: nat) -> nat {
    let p = two_pow(excess_bits(b));
    div_round_half_even(b, p) * p
}

/// Tenths of a gibibyte shown for `bytes`: `bytes as f64 / 2^30` printed with
/// one decimal (`{:.1}`, which rounds the exact value half to even).
pub open spec fn gib_tenths(bytes: nat) -> nat {
    div_round_half_even(10 * nearest_f64(bytes), 0x4000_0000)
}

pub open spec fn suffix_gb() -> Seq<char> {
    seq![' ', 'G', 'B']
}

pub open spec fn suffix_mb() -> Seq<char> {
    seq![' ', 'M', 'B']
}

pub open spec fn suffix_kb() -> Seq<char> {
    seq![' ', 'K', 'B']
}

pub open spec fn suffix_b() -> Seq<char> {
    seq![' ', 'B']
}

/// Text of a file size: the largest of GB, MB, KB (powers of 1024) not above
/// the size, GB with one decimal, MB and KB as whole (truncated) numbers, and
/// plain bytes below 1 KB.
pub open spec fn size_text(bytes: nat) -> Seq<char> {
    if bytes >= 0x4000_0000 {
        let t = gib_tenths(bytes);
        decimal(t / 10) + seq!['.', digit_char(t % 10)] + suffix_gb()
    } else if bytes >= 0x10_0000 {
        decimal(bytes / 0x10_0000) + suffix_mb()
    } else if bytes >= 0x400 {
        decimal(bytes / 0x400) + suffix_kb()
    } else {
        decimal(bytes) + suffix_b()
    }
}

proof fn lemma_two_pow_pos(e: nat)
    ensures
        two_pow(e) >= 1,
    decreases e,
{
    if e > 0 {
        lemma_two_pow_pos((e - 1) as nat);
    }
}

/// The value of `b as f64`, which is an integer for every `u64`.
fn nearest_f64_of(b: u64) -> (v: u128)
    ensures
        v as nat == nearest_f64(b as nat),
        v <= 2 * (b as nat),
{
    let mut p: u128 = 1;
    let mut k: u64 = b;
    let ghost mut e: nat = 0;
    while k >= 0x20_0000_0000_0000
        invariant
            p as nat == two_pow(e),
            k as nat == (b as nat) / two_pow(e),
            excess_bits(b as nat) == e + excess_bits(k as nat),
            p * (k as nat) <= b as nat,
            p >= 1,
            p == 1 || k >= 1,
        decreases k,
    {
        assert(p <= b) by (nonlinear_arith)
            requires
                p * (k as nat) <= b as nat,
                k >= 1,
        ;
        proof {
            lemma_two_pow_pos(e);
            vstd::arithmetic::div_mod::lemma_div_denominator(b as int, two_pow(e) as int, 2);
            assert(two_pow(e + 1) == two_pow(e) * 2);
            assert(p * 2 * ((k / 2) as nat) <= p * (k as nat)) by (nonlinear_arith)
                requires
                    p >= 1,
            ;
        }
        k = k / 2;
        p = p * 2;
        proof {
            e = e + 1;
        }
    }
    assert(excess_bits(k as nat) == 0);
    assert(p == 1 || p <= b) by (nonlinear_arith)
        requires
            p * (k as nat) <= b as nat,
            p == 1 || k >= 1,
    ;
    let bb: u128 = b as u128;
    let q: u128 = bb / p;
    let r: u128 = bb % p;
    let rounded: u128 = if 2 * r > p || (2 * r == p && q % 2 == 1) {
        q + 1
    } else {
        q
    };
    assert(q * p <= bb) by (nonlinear_arith)
        requires
            q == bb / p,
            p >= 1,
    ;
    assert(rounded * p <= 2 * bb) by {
        if rounded == q + 1 {
            assert(r >= 1);
            assert(p <= bb);
            assert(rounded * p == q * p + p) by (nonlinear_arith)
                requires
                    rounded == q + 1,
            ;
        } else {
            assert(rounded == q);
        }
    }
    rounded * p
}

/// `bytes` shown in tenths of a gibibyte, as `{:.1}` prints `bytes as f64 / 2^30`.
fn gib_tenths_of(bytes: u64) -> (t: u128)
    ensures
        t as nat == gib_tenths(bytes as nat),
        t <= 0x10_0000_0000_0000,
{
    let v = nearest_f64_of(bytes);
    let n: u128 = v * 10;
    let q: u128 = n / 0x4000_0000;
    let r: u128 = n % 0x4000_0000;
    if 2 * r > 0x4000_0000 || (2 * r == 0x4000_0000 && q % 2 == 1) {
        q + 1
    } else {
        q
    }
}

pub fn format_size(bytes: u64) -> (r: String)
    ensures
        r@ == size_text(bytes as nat),
{
    let mut out = String::new();
    if bytes >= 0x4000_0000 {
        let t = gib_tenths_of(bytes);
        let whole: u64 = (t / 10) as u64;
        push_decimal(&mut out, whole);
        push_char(&mut out, '.');
        let c = digit_to_char((t % 10) as u64);
        push_char(&mut out, c);
        push_char(&mut out, ' ');
        push_char(&mut out, 'G');
        push_char(&mut out, 'B');
    } else if bytes >= 0x10_0000 {
        push_decimal(&mut out, bytes / 0x10_0000);
        push_char(&mut out, ' ');
        push_char(&mut out, 'M');
        push_char(&mut out, 'B');
    } else if bytes >= 0x400 {
        push_decimal(&mut out, bytes / 0x400);
        push_char(&mut out, ' ');
        push_char(&mut out, 'K');
        push_char(&mut out, 'B');
    } else {
        push_decimal(&mut out, bytes);
        push_char(&mut out, ' ');
        push_char(&mut out, 'B');
    }
    out
}


/// An instant, as seconds since the Unix epoch and the nanoseconds within that
/// second (above 999_999_999 only within a leap second).
#[derive(Clone, Copy, Debug, PartialEq, Eq, Structural)]
pub struct Timestamp {
    pub secs: i64,
    pub nanos: u32,
}

/// `a` is strictly later than `b`.
pub open spec fn later(a: Timestamp, b: Timestamp) -> bool {
    a.secs > b.secs || (a.secs == b.secs && a.nanos > b.nanos)
}

pub fn is_later(a: Timestamp, b: Timestamp) -> (r: bool)
    ensures
        r == later(a, b),
{
    a.secs > b.secs || (a.secs == b.secs && a.nanos > b.nanos)
}

/// A calendar date in the local time zone.
#[derive(Clone, Copy, Debug, PartialEq, Eq, Structural)]
pub struct CalendarDate {
    pub year: i32,
    pub month: u32,
    pub day: u32,
}

impl CalendarDate {
    /// Month and day lie in their calendar ranges.
    pub open spec fn wf(&self) -> bool {
        1 <= self.month <= 12 && 1 <= self.day <= 31
    }
}

/// A recording found in the output folder.
#[derive(Clone, Debug)]
pub struct Recording {
    pub path: String,
    pub title: String,
    /// Last modification (or, failing that, creation) time of the file.
    pub created: Timestamp,
    /// The local calendar date of `created`.
    pub created_date: CalendarDate,
    pub size_bytes: u64,
    /// Length in whole seconds (fractions dropped), when it could be probed.
    pub duration_seconds: Option<u64>,
    /// Video width and height, when they could be probed.
    pub resolution: Option<(u32, u32)>,
    /// A transcript `<stem>.txt` lies next to the recording.
    pub has_transcript: bool,
}

/// The dash shown for missing metadata.
pub open spec fn dash() -> Seq<char> {
    seq!['\u{2014}']
}

/// Year as `%Y` prints it: four digits, zero-padded, within 0..=9999; a sign
/// and at least four digits outside it.
pub open spec fn year_text(y: int) -> Seq<char> {
    if 0 <= y <= 9999 {
        zero_padded(decimal(y as nat), 4)
    } else if y > 0 {
        seq!['+'] + zero_padded(decimal(y as nat), 4)
    } else {
        seq!['-'] + zero_padded(decimal((-y) as nat), 4)
    }
}

/// `DD.MM.YYYY`.
pub open spec fn date_text(d: CalendarDate) -> Seq<char> {
    zero_padded(decimal(d.day as nat), 2) + seq!['.'] + zero_padded(decimal(d.month as nat), 2)
        + seq!['.'] + year_text(d.year as int)
}

pub open spec fn resolution_text(w: nat, h: nat) -> Seq<char> {
    decimal(w) + seq!['\u{d7}'] + decimal(h)
}

impl Recording {
    pub fn duration_display(&self) -> (r: String)
        ensures
            r@ == match self.duration_seconds {
                Some(secs) => duration_text(secs as nat),
                None => dash(),
            },
    {
        match self.duration_seconds {
            Some(secs) => format_duration(secs),
            None => {
                let mut out = String::new();
                push_char(&mut out, '\u{2014}');
                out
            },
        }
    }

    pub fn resolution_display(&self) -> (r: String)
        ensures
            r@ == match self.resolution {
                Some((w, h)) => resolution_text(w as nat, h as nat),
                None => dash(),
            },
    {
        let mut out = String::new();
        match self.resolution {
            Some((w, h)) => {
                push_decimal(&mut out, w as u64);
                push_char(&mut out, '\u{d7}');
                push_decimal(&mut out, h as u64);
            },
            None => {
                push_char(&mut out, '\u{2014}');
            },
        }
        out
    }

    pub fn size_display(&self) -> (r: String)
        ensures
            r@ == size_text(self.size_bytes as nat),
    {
        format_size(self.size_bytes)
    }

    pub fn date_display(&self) -> (r: String)
        requires
            self.created_date.wf(),
        ensures
            r@ == date_text(self.created_date),
    {
        let d = self.created_date;
        let mut out = String::new();
        push_decimal_padded(&mut out, d.day as u64, 2);
        push_char(&mut out, '.');
        push_decimal_padded(&mut out, d.month as u64, 2);
        push_char(&mut out, '.');
        if 0 <= d.year && d.year <= 9999 {
            push_decimal_padded(&mut out, d.year as u64, 4);
        } else if d.year > 0 {
            push_char(&mut out, '+');
            push_decimal_padded(&mut out, d.year as u64, 4);
        } else {
            push_char(&mut out, '-');
            let mag: u64 = (-(d.year as i64)) as u64;
            push_decimal_padded(&mut out, mag, 4);
        }
        out
    }
}


/// Extensions (compared in ASCII lower case) of the files counted as recordings.
pub open spec fn is_video_extension(lower: Seq<char>) -> bool {
    lower == seq!['m', 'p', '4'] || lower == seq!['m', 'k', 'v'] || lower == seq!['w', 'e', 'b', 'm']
}

pub open spec fn is_video_path(path: Seq<char>) -> bool {
    match path_extension(path) {
        Some(e) => is_video_extension(ascii_lowercase(e)),
        None => false,
    }
}

/// Whether the file at `path` counts as a recording: its extension is `mp4`,
/// `mkv` or `webm` in any ASCII case.
pub fn is_video(path: &str) -> (r: bool)
    ensures
        r == is_video_path(path@),
{
    match extension(path) {
        None => false,
        Some(ext) => {
            let v = chars_of(ext.as_str());
            let mut lower: Vec<char> = Vec::new();
            let mut i: usize = 0;
            while i < v.len()
                invariant
                    i <= v@.len(),
                    lower@ == ascii_lowercase(v@.subrange(0, i as int)),
                decreases v@.len() - i,
            {
                let c = ascii_lower_char(v[i]);
                lower.push(c);
                i = i + 1;
                assert(ascii_lowercase(v@.subrange(0, i as int)) == ascii_lowercase(
                    v@.subrange(0, i - 1),
                ).push(c));
            }
            assert(v@.subrange(0, v@.len() as int) == v@);
            let mp4 = vec!['m', 'p', '4'];
            let mkv = vec!['m', 'k', 'v'];
            let webm = vec!['w', 'e', 'b', 'm'];
            assert(mp4@ == seq!['m', 'p', '4']);
            assert(mkv@ == seq!['m', 'k', 'v']);
            assert(webm@ == seq!['w', 'e', 'b', 'm']);
            chars_eq(&lower, &mp4) || chars_eq(&lower, &mkv) || chars_eq(&lower, &webm)
        },
    }
}

/// The title shown for a recording at `path`.
pub open spec fn title_text(path: Seq<char>) -> Seq<char> {
    match path_stem(path) {
        Some(stem) => stem,
        None => untitled(),
    }
}

pub open spec fn untitled() -> Seq<char> {
    seq!['\u{411}', '\u{435}', '\u{437}', ' ', '\u{43d}', '\u{430}', '\u{437}', '\u{432}', '\u{430}', '\u{43d}', '\u{438}', '\u{44f}']
}

/// Title of the recording at `path`: the file stem, or "Без названия".
pub fn recording_title(path: &str) -> (r: String)
    ensures
        r@ == title_text(path@),
{
    match file_stem(path) {
        Some(stem) => stem,
        None => {
            let mut out = String::new();
            push_char(&mut out, '\u{411}');
            push_char(&mut out, '\u{435}');
            push_char(&mut out, '\u{437}');
            push_char(&mut out, ' ');
            push_char(&mut out, '\u{43d}');
            push_char(&mut out, '\u{430}');
            push_char(&mut out, '\u{437}');
            push_char(&mut out, '\u{432}');
            push_char(&mut out, '\u{430}');
            push_char(&mut out, '\u{43d}');
            push_char(&mut out, '\u{438}');
            push_char(&mut out, '\u{44f}');
            out
        },
    }
}


/// Every recording is at least as recent as those listed after it.
pub open spec fn newest_first(s: Seq<Recording>) -> bool {
    forall|i: int, j: int| 0 <= i < j < s.len() ==> !later(#[trigger] s[j].created, #[trigger] s[i].created)
}

pub open spec fn created_at(t: Timestamp) -> spec_fn(Recording) -> bool {
    |r: Recording| r.created == t
}

/// Recordings created at the same instant appear in the same order in `a` and `b`.
pub open spec fn same_order_per_time(a: Seq<Recording>, b: Seq<Recording>) -> bool {
    forall|t: Timestamp| #[trigger] a.filter(created_at(t)) == b.filter(created_at(t))
}

proof fn lemma_filter_none(s: Seq<Recording>, t: Timestamp)
    requires
        forall|j: int| 0 <= j < s.len() ==> (#[trigger] s[j]).created != t,
    ensures
        s.filter(created_at(t)) == Seq::<Recording>::empty(),
{
    let pred = created_at(t);
    assert(s.all(|x: Recording| !pred(x)));
    s.lemma_all_neg_filter_empty(pred);
}

/// Inserting `x` in front of the recordings strictly later than it keeps the
/// arrangement sorted and stable.
proof fn lemma_insert_sorted(old: Seq<Recording>, p: int, x: Recording, suffix: Seq<Recording>)
    requires
        0 <= p <= old.len(),
        newest_first(old),
        same_order_per_time(old, suffix),
        old.to_multiset() == suffix.to_multiset(),
        forall|j: int| 0 <= j < p ==> later(#[trigger] old[j].created, x.created),
        p < old.len() ==> !later(old[p].created, x.created),
    ensures
        newest_first(old.insert(p, x)),
        same_order_per_time(old.insert(p, x), seq![x] + suffix),
        old.insert(p, x).to_multiset() == (seq![x] + suffix).to_multiset(),
{
    let new = old.insert(p, x);
    let a = old.subrange(0, p);
    let b = old.subrange(p, old.len() as int);
    assert(new == a + seq![x] + b);
    assert(old == a + b);
    assert forall|i: int, j: int| 0 <= i < j < new.len() implies !later(
        #[trigger] new[j].created,
        #[trigger] new[i].created,
    ) by {
        if j < p {
        } else if j == p {
        } else if i < p {
            assert(new[j] == old[j - 1]);
        } else if i == p {
            assert(new[j] == old[j - 1]);
            if j - 1 > p {
                assert(!later(old[j - 1].created, old[p].created));
            }
        } else {
            assert(new[j] == old[j - 1]);
            assert(new[i] == old[i - 1]);
        }
    }
    assert forall|t: Timestamp| #[trigger] new.filter(created_at(t)) == (seq![x] + suffix).filter(
        created_at(t),
    ) by {
        let pred = created_at(t);
        Seq::filter_distributes_over_add(a + seq![x], b, pred);
        Seq::filter_distributes_over_add(a, seq![x], pred);
        Seq::filter_distributes_over_add(a, b, pred);
        suffix.lemma_filter_prepend(x, pred);
        assert(seq![x] == Seq::<Recording>::empty() + seq![x]);
        Seq::<Recording>::empty().lemma_filter_prepend(x, pred);
        assert(Seq::<Recording>::empty().filter(pred) == Seq::<Recording>::empty()) by {
            reveal(Seq::filter);
        }
        if x.created == t {
            assert forall|j: int| 0 <= j < a.len() implies (#[trigger] a[j]).created != t by {
                assert(a[j] == old[j]);
            }
            lemma_filter_none(a, t);
            assert(old.filter(pred) == suffix.filter(pred));
        } else {
            assert(old.filter(pred) == suffix.filter(pred));
        }
    }
    vstd::seq_lib::to_multiset_insert(old, p, x);
    vstd::seq_lib::to_multiset_insert(suffix, 0, x);
    assert(suffix.insert(0, x) == seq![x] + suffix);
}

/// The recordings ordered from the most recent to the oldest; recordings of
/// the same instant keep their relative order (a stable sort).
pub fn sort_newest_first(recordings: Vec<Recording>) -> (sorted: Vec<Recording>)
    ensures
        sorted@.to_multiset() == recordings@.to_multiset(),
        newest_first(sorted@),
        same_order_per_time(sorted@, recordings@),
{
    let ghost orig = recordings@;
    let mut rest = recordings;
    let mut out: Vec<Recording> = Vec::new();
    proof {
        assert(orig.subrange(orig.len() as int, orig.len() as int) == Seq::<Recording>::empty());
        assert forall|t: Timestamp| #[trigger] out@.filter(created_at(t)) == Seq::<
            Recording,
        >::empty().filter(created_at(t)) by {
            reveal(Seq::filter);
        }
        assert(rest@ == orig.subrange(0, rest@.len() as int));
    }
    while rest.len() > 0
        invariant
            rest@.len() <= orig.len(),
            rest@ == orig.subrange(0, rest@.len() as int),
            out@.to_multiset() == orig.subrange(rest@.len() as int, orig.len() as int).to_multiset(),
            newest_first(out@),
            same_order_per_time(out@, orig.subrange(rest@.len() as int, orig.len() as int)),
        decreases rest@.len(),
    {
        let ghost suffix = orig.subrange(rest@.len() as int, orig.len() as int);
        let x = rest.pop().unwrap();
        proof {
            assert(orig.subrange(rest@.len() as int, orig.len() as int) == seq![x] + suffix);
            assert(rest@ == orig.subrange(0, rest@.len() as int));
        }
        let mut p: usize = 0;
        while p < out.len() && is_later(out[p].created, x.created)
            invariant
                p <= out@.len(),
                forall|j: int| 0 <= j < p ==> later(#[trigger] out@[j].created, x.created),
            decreases out@.len() - p,
        {
            p = p + 1;
        }
        proof {
            lemma_insert_sorted(out@, p as int, x, suffix);
        }
        out.insert(p, x);
    }
    proof {
        assert(orig.subrange(0, orig.len() as int) == orig);
    }
    out
}


/// What `ffprobe` reported of a video: the text of its duration (a decimal
/// number of seconds, parsed by the caller) and its resolution.
#[derive(Clone, Debug)]
pub struct ProbedMeta {
    pub duration_text: Option<String>,
    pub resolution: Option<(u32, u32)>,
}

/// Values gathered from `key=value` lines: the last duration text, width and height.
pub struct ProbeFields {
    pub duration: Option<Seq<char>>,
    pub width: Option<u32>,
    pub height: Option<u32>,
}

pub open spec fn key_duration() -> Seq<char> {
    seq!['d', 'u', 'r', 'a', 't', 'i', 'o', 'n']
}

pub open spec fn key_width() -> Seq<char> {
    seq!['w', 'i', 'd', 't', 'h']
}

pub open spec fn key_height() -> Seq<char> {
    seq!['h', 'e', 'i', 'g', 'h', 't']
}

/// One line of `ffprobe` output applied to the fields gathered so far: a line
/// `key=value` (split at its first `=`, key and value trimmed) sets the field
/// of a known key; every other line changes nothing.
pub open spec fn probe_step(acc: ProbeFields, line: Seq<char>) -> ProbeFields {
    let i = first_index_of(line, '=');
    if i < 0 {
        acc
    } else {
        let k = trim(line.subrange(0, i));
        let v = trim(line.subrange(i + 1, line.len() as int));
        if k == key_duration() {
            ProbeFields { duration: Some(v), ..acc }
        } else if k == key_width() {
            ProbeFields { width: parse_u32_spec(v), ..acc }
        } else if k == key_height() {
            ProbeFields { height: parse_u32_spec(v), ..acc }
        } else {
            acc
        }
    }
}

pub open spec fn probe_fields(ls: Seq<Seq<char>>) -> ProbeFields
    decreases ls.len(),
{
    if ls.len() == 0 {
        ProbeFields { duration: None, width: None, height: None }
    } else {
        probe_step(probe_fields(ls.drop_last()), ls.last())
    }
}

/// The metadata read from `ffprobe`'s `key=value` output.
pub open spec fn probe_meta(out: Seq<char>, duration: Option<Seq<char>>, resolution: Option<(u32, u32)>) -> bool {
    let f = probe_fields(lines(out));
    &&& duration == f.duration
    &&& resolution == match (f.width, f.height) {
        (Some(w), Some(h)) => Some((w, h)),
        _ => None,
    }
}

/// Reads duration and resolution from the output of
/// `ffprobe -show_entries format=duration:stream=width,height -of default=noprint_wrappers=1`.
pub fn parse_ffprobe_output(output: &str) -> (m: ProbedMeta)
    ensures
        probe_meta(
            output@,
            match m.duration_text {
                Some(d) => Some(d@),
                None => None,
            },
            m.resolution,
        ),
{
    let chars = chars_of(output);
    let ls = lines_of(&chars);
    let ghost all = lines(chars@);
    let dkey = vec!['d', 'u', 'r', 'a', 't', 'i', 'o', 'n'];
    let wkey = vec!['w', 'i', 'd', 't', 'h'];
    let hkey = vec!['h', 'e', 'i', 'g', 'h', 't'];
    assert(dkey@ == key_duration());
    assert(wkey@ == key_width());
    assert(hkey@ == key_height());
    let mut duration: Option<String> = None;
    let mut width: Option<u32> = None;
    let mut height: Option<u32> = None;
    let mut i: usize = 0;
    while i < ls.len()
        invariant
            ls@.len() == all.len(),
            forall|k: int| 0 <= k < ls@.len() ==> (#[trigger] ls@[k])@ == all[k],
            i <= ls@.len(),
            dkey@ == key_duration(),
            wkey@ == key_width(),
            hkey@ == key_height(),
            ({
                let f = probe_fields(all.subrange(0, i as int));
                &&& f.width == width
                &&& f.height == height
                &&& f.duration == match duration {
                    Some(d) => Some(d@),
                    None => None,
                }
            }),
        decreases ls@.len() - i,
    {
        let line = &ls[i];
        assert(all.subrange(0, i + 1).drop_last() == all.subrange(0, i as int));
        assert(all.subrange(0, i + 1).last() == line@);
        match first_index_exec(line, '=') {
            None => {},
            Some(eq) => {
                let n = line.len();
                assert(eq < n);
                let (ka, kb) = trim_range(line, 0, eq);
                let (va, vb) = trim_range(line, eq + 1, n);
                let key = slice_chars(line, ka, kb);
                if chars_eq(&key, &dkey) {
                    duration = Some(string_of_range(line, va, vb));
                } else if chars_eq(&key, &wkey) {
                    width = parse_u32_range(line, va, vb);
                } else if chars_eq(&key, &hkey) {
                    height = parse_u32_range(line, va, vb);
                }
            },
        }
        i = i + 1;
    }
    assert(all.subrange(0, ls@.len() as int) == all);
    let resolution = match (width, height) {
        (Some(w), Some(h)) => Some((w, h)),
        _ => None,
    };
    ProbedMeta { duration_text: duration, resolution }
}

} // verus!
