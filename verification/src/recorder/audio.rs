//! Audio sources of a recording: the monitor of the default output (system
//! sound) and the default input (microphone), found by asking `pactl`, and
//! the volume check of a source. The `pactl` calls are made by the caller;
//! this module decides what to ask next and what the answers mean.
use vstd::prelude::*;

use crate::text::{
    chars_of, contains, contains_chars, first_index_exec, first_index_of, lines, lines_of,
    parse_u32_range, parse_u32_spec, trim, trimmed,
};

verus! {

/// The sources to record from.
#[derive(Clone, Debug)]
pub struct AudioDevices {
    pub monitor_source: String,
    pub mic_source: String,
}

/// The `pactl` queries made to find the sources.
#[derive(Clone, Copy, Debug, PartialEq, Eq, Structural)]
pub enum PactlQuery {
    /// `pactl get-default-sink`
    DefaultSink,
    /// `pactl get-default-source`
    DefaultSource,
    /// `pactl list short sources`
    ListSources,
}

/// What has been learnt so far.
#[derive(Clone, Debug)]
pub enum DetectProgress {
    Start,
    HaveMonitor { monitor_source: String },
    HaveBoth { monitor_source: String, mic_source: String },
}

/// What follows an answer from `pactl`.
#[derive(Clone, Debug)]
pub enum DetectStep {
    /// Run this query and hand its output to `detect_audio_devices_step` with the progress.
    Ask(DetectProgress, PactlQuery),
    /// The sources; `listed` tells whether the monitor appears among the listed sources.
    Found { devices: AudioDevices, listed: bool },
    /// The search failed with this message.
    Failed(String),
}

/// The query that starts the search.
pub fn detect_audio_devices_start() -> (r: (DetectProgress, PactlQuery))
    ensures
        r.0 is Start,
        r.1 == PactlQuery::DefaultSink,
{
    (DetectProgress::Start, PactlQuery::DefaultSink)
}

/// The monitor source of an output sink.
pub open spec fn monitor_of(sink: Seq<char>) -> Seq<char> {
    sink + ".monitor"@
}

/// Some line of `list` mentions `name`.
pub open spec fn listed_in(list: Seq<char>, name: Seq<char>) -> bool {
    exists|i: int| 0 <= i < lines(list).len() && contains(#[trigger] lines(list)[i], name)
}

/// The step of the search after `pactl` answered `output` (its standard output).
pub open spec fn detect_step_ok(progress: DetectProgress, output: Seq<char>, step: DetectStep) -> bool {
    let out = trim(output);
    match progress {
        DetectProgress::Start => if out.len() == 0 {
            step matches DetectStep::Failed(m) && m@ == "pactl returned empty default-sink"@
        } else {
            step matches DetectStep::Ask(DetectProgress::HaveMonitor { monitor_source }, q) && q
                == PactlQuery::DefaultSource && monitor_source@ == monitor_of(out)
        },
        DetectProgress::HaveMonitor { monitor_source } => if out.len() == 0 {
            step matches DetectStep::Failed(m) && m@ == "pactl returned empty default-source"@
        } else {
            step matches DetectStep::Ask(DetectProgress::HaveBoth { monitor_source: mon, mic_source }, q)
                && q == PactlQuery::ListSources && mon@ == monitor_source@ && mic_source@ == out
        },
        DetectProgress::HaveBoth { monitor_source, mic_source } => step matches DetectStep::Found {
            devices,
            listed,
        } && devices.monitor_source@ == monitor_source@ && devices.mic_source@ == mic_source@
            && listed == listed_in(out, monitor_source@),
    }
}

fn any_line_contains(list: &str, name: &str) -> (r: bool)
    ensures
        r == listed_in(list@, name@),
{
    let chars = chars_of(list);
    let pat = chars_of(name);
    let ls = lines_of(&chars);
    let mut i: usize = 0;
    while i < ls.len()
        invariant
            i <= ls@.len(),
            ls@.len() == lines(list@).len(),
            chars@ == list@,
            pat@ == name@,
            forall|k: int| 0 <= k < ls@.len() ==> (#[trigger] ls@[k])@ == lines(chars@)[k],
            forall|k: int| 0 <= k < i ==> !contains(#[trigger] lines(list@)[k], name@),
        decreases ls@.len() - i,
    {
        if contains_chars(&ls[i], &pat) {
            assert(contains(lines(list@)[i as int], name@));
            return true;
        }
        i = i + 1;
    }
    false
}

/// Takes `pactl`'s answer to the pending query and decides what comes next.
pub fn detect_audio_devices_step(progress: DetectProgress, output: &str) -> (r: DetectStep)
    ensures
        detect_step_ok(progress, output@, r),
{
    let out = trimmed(output);
    match progress {
        DetectProgress::Start => {
            if out.unicode_len() == 0 {
                DetectStep::Failed("pactl returned empty default-sink".to_owned())
            } else {
                let mut monitor = out;
                monitor.append(".monitor");
                DetectStep::Ask(DetectProgress::HaveMonitor { monitor_source: monitor }, PactlQuery::DefaultSource)
            }
        },
        DetectProgress::HaveMonitor { monitor_source } => {
            if out.unicode_len() == 0 {
                DetectStep::Failed("pactl returned empty default-source".to_owned())
            } else {
                DetectStep::Ask(
                    DetectProgress::HaveBoth { monitor_source, mic_source: out },
                    PactlQuery::ListSources,
                )
            }
        },
        DetectProgress::HaveBoth { monitor_source, mic_source } => {
            let listed = any_line_contains(out.as_str(), monitor_source.as_str());
            DetectStep::Found { devices: AudioDevices { monitor_source, mic_source }, listed }
        },
    }
}

pub open spec fn is_digit(c: char) -> bool {
    '0' <= c <= '9'
}

/// The part of `s` before its first `%` (all of it when there is none).
pub open spec fn before_percent(s: Seq<char>) -> Seq<char> {
    let i = first_index_of(s, '%');
    if i < 0 {
        s
    } else {
        s.subrange(0, i)
    }
}

/// The run of digits that ends `s`.
pub open spec fn trailing_digits(s: Seq<char>) -> Seq<char>
    decreases s.len(),
{
    if s.len() > 0 && is_digit(s.last()) {
        trailing_digits(s.drop_last()).push(s.last())
    } else {
        seq![]
    }
}

/// The last run of digits in `s`, if any.
pub open spec fn last_digit_run(s: Seq<char>) -> Option<Seq<char>>
    decreases s.len(),
{
    if s.len() == 0 {
        None
    } else if is_digit(s.last()) {
        Some(trailing_digits(s))
    } else {
        last_digit_run(s.drop_last())
    }
}

/// The volume in percent that `pactl get-source-volume` reports: the last
/// number before the first `%`, when it fits in 32 bits.
pub open spec fn volume_percent(s: Seq<char>) -> Option<u32> {
    match last_digit_run(before_percent(s)) {
        Some(d) => parse_u32_spec(d),
        None => None,
    }
}

/// Reads the volume from `pactl get-source-volume` output such as
/// `Volume: front-left: 13107 /  20% / -41,94 dB, ...`.
pub fn parse_volume_percent(pactl_out: &str) -> (r: Option<u32>)
    ensures
        r == volume_percent(pactl_out@),
{
    let v = chars_of(pactl_out);
    let n = v.len();
    let end = match first_index_exec(&v, '%') {
        Some(i) => i,
        None => n,
    };
    assert(v@.subrange(0, n as int) == v@);
    let ghost seg = before_percent(v@);
    assert(seg == v@.subrange(0, end as int));
    let mut j = end;
    while j > 0 && !crate::text::is_ascii_digit(v[j - 1])
        invariant
            j <= end <= n == v@.len(),
            last_digit_run(seg) == last_digit_run(v@.subrange(0, j as int)),
        decreases j,
    {
        assert(v@.subrange(0, j as int).drop_last() == v@.subrange(0, j - 1));
        j = j - 1;
    }
    if j == 0 {
        return None;
    }
    let mut k = j;
    assert(v@.subrange(k as int, j as int) == Seq::<char>::empty());
    while k > 0 && crate::text::is_ascii_digit(v[k - 1])
        invariant
            k <= j <= n == v@.len(),
            trailing_digits(v@.subrange(0, j as int)) == trailing_digits(v@.subrange(0, k as int))
                + v@.subrange(k as int, j as int),
        decreases k,
    {
        assert(v@.subrange(0, k as int).drop_last() == v@.subrange(0, k - 1));
        assert(v@.subrange(k - 1, j as int) == seq![v@[k - 1]] + v@.subrange(k as int, j as int));
        k = k - 1;
    }
    assert(trailing_digits(v@.subrange(0, k as int)) == Seq::<char>::empty());
    assert(v@.subrange(0, j as int).drop_last() == v@.subrange(0, j - 1));
    parse_u32_range(&v, k, j)
}

/// A source quieter than 90% is raised to 100%; an unreadable volume counts as 100%.
pub open spec fn needs_raise(output: Seq<char>) -> bool {
    match volume_percent(output) {
        Some(p) => p < 90,
        None => false,
    }
}

proof fn lemma_first_index_at(s: Seq<char>, c: char, k: int)
    requires
        0 <= k < s.len(),
        s[k] == c,
        forall|i: int| 0 <= i < k ==> s[i] != c,
    ensures
        first_index_of(s, c) == k,
    decreases k,
{
    if k > 0 {
        lemma_first_index_at(s.drop_first(), c, k - 1);
    }
}

proof fn lemma_trailing_digits_after(pre: Seq<char>, d: Seq<char>)
    requires
        pre.len() == 0 || !is_digit(pre.last()),
        forall|i: int| 0 <= i < d.len() ==> is_digit(#[trigger] d[i]),
    ensures
        trailing_digits(pre + d) == d,
    decreases d.len(),
{
    if d.len() == 0 {
        assert(pre + d == pre);
    } else {
        lemma_trailing_digits_after(pre, d.drop_last());
        assert((pre + d).drop_last() == pre + d.drop_last());
        assert((pre + d).last() == d.last());
    }
}

/// The volume is the number written right before the first `%`: for output
/// `pre`, digits, `%`, `rest`, where `pre` holds no `%` and does not end in a
/// digit, the volume is the value of those digits.
pub proof fn lemma_volume_is_number_before_percent(pre: Seq<char>, digits: Seq<char>, rest: Seq<char>)
    requires
        forall|i: int| 0 <= i < pre.len() ==> #[trigger] pre[i] != '%',
        pre.len() == 0 || !('0' <= pre.last() <= '9'),
        digits.len() > 0,
        forall|i: int| 0 <= i < digits.len() ==> '0' <= #[trigger] digits[i] <= '9',
    ensures
        volume_percent(pre + digits + seq!['%'] + rest) == parse_u32_spec(digits),
{
    let s = pre + digits + seq!['%'] + rest;
    let k: int = (pre.len() + digits.len()) as int;
    assert forall|i: int| 0 <= i < k implies s[i] != '%' by {
        if i < pre.len() {
            assert(s[i] == pre[i]);
        } else {
            assert(s[i] == digits[i - pre.len()]);
        }
    }
    lemma_first_index_at(s, '%', k);
    assert(before_percent(s) == pre + digits);
    lemma_trailing_digits_after(pre, digits);
    assert((pre + digits).last() == digits.last());
}

/// Three answers from `pactl` in a row (the default sink, the default source,
/// the list of sources) find the monitor of the default sink, named
/// `<sink>.monitor`, and the default source, and tell whether the monitor is
/// among the listed sources (some line of the trimmed list mentions it).
pub proof fn lemma_detection_finds_sink_monitor_and_source(
    sink_out: Seq<char>,
    source_out: Seq<char>,
    list_out: Seq<char>,
    p1: DetectProgress,
    q1: PactlQuery,
    p2: DetectProgress,
    q2: PactlQuery,
    last: DetectStep,
)
    requires
        trim(sink_out).len() > 0,
        trim(source_out).len() > 0,
        detect_step_ok(DetectProgress::Start, sink_out, DetectStep::Ask(p1, q1)),
        detect_step_ok(p1, source_out, DetectStep::Ask(p2, q2)),
        detect_step_ok(p2, list_out, last),
    ensures
        q1 == PactlQuery::DefaultSource,
        q2 == PactlQuery::ListSources,
        last matches DetectStep::Found { devices, listed } && devices.monitor_source@ == trim(sink_out)
            + seq!['.', 'm', 'o', 'n', 'i', 't', 'o', 'r'] && devices.mic_source@ == trim(source_out)
            && listed == exists|i: int|
            0 <= i < lines(trim(list_out)).len() && contains(
                #[trigger] lines(trim(list_out))[i],
                trim(sink_out) + seq!['.', 'm', 'o', 'n', 'i', 't', 'o', 'r'],
            ),
{
    reveal_strlit(".monitor");
    assert(".monitor"@ == seq!['.', 'm', 'o', 'n', 'i', 't', 'o', 'r']);
}

/// A source is raised exactly when its volume reads below 90 percent; one
/// whose volume cannot be read is left as it is.
pub proof fn lemma_raise_below_ninety(output: Seq<char>)
    ensures
        needs_raise(output) <==> (volume_percent(output) matches Some(p) && p < 90),
        volume_percent(output) is None ==> !needs_raise(output),
{
}

/// The volume read from `pactl get-source-volume` output (100 when unreadable),
/// and whether the source has to be raised to 100%.
pub fn volume_check(pactl_out: &str) -> (r: (u32, bool))
    ensures
        r.0 == match volume_percent(pactl_out@) {
            Some(p) => p,
            None => 100,
        },
        r.1 == needs_raise(pactl_out@),
        r.1 == (r.0 < 90),
        volume_percent(pactl_out@) is None ==> r == (100u32, false),
{
    let percent = match parse_volume_percent(pactl_out) {
        Some(p) => p,
        None => 100,
    };
    (percent, percent < 90)
}

} // verus!
