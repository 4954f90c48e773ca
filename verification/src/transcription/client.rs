//! The speech-to-text API exchange: which requests to send, how to read the
//! answers, and when to retry. The HTTP transfer itself is the caller's.
use serde_json::Value;
use vstd::prelude::*;

use super::{ErrorView, TranscriptionError};
use crate::config::TranscriptionModel;
use crate::path::{extension, file_name, path_extension, path_file_name};
use crate::text::{
    ascii_digits, ascii_digits_of, decimal, join, join_strings, parse_u32_range, parse_u32_spec,
    push_decimal, push_signed_decimal, signed_decimal, str_eq, trim, trim_end, trim_start, trimmed,
    views,
};

verus! {

/// An error worth another attempt: rate limiting, a server fault, or a
/// network failure.
pub open spec fn retryable(err: TranscriptionError) -> bool {
    match err {
        TranscriptionError::Api { status, .. } => status == 429 || status == 500 || status == 502
            || status == 503 || status == 504,
        TranscriptionError::Http(_) => true,
        _ => false,
    }
}

pub fn is_retryable(err: &TranscriptionError) -> (r: bool)
    ensures
        r == retryable(*err),
{
    match err {
        TranscriptionError::Api { status, .. } => *status == 429 || *status == 500 || *status
            == 502 || *status == 503 || *status == 504,
        TranscriptionError::Http(_) => true,
        _ => false,
    }
}

/// The errors worth another attempt are exactly rate limiting (status 429),
/// the server faults 500, 502, 503 and 504, and network failures.
pub proof fn lemma_retryable_errors(err: TranscriptionError)
    ensures
        retryable(err) <==> (err is Http || (err matches TranscriptionError::Api { status, .. } && (
        status == 429 || status == 500 || status == 502 || status == 503 || status == 504))),
{
}

/// An API error with one of the statuses worth retrying, met on an attempt
/// that is not the last, is waited out for 2^attempt seconds and retried.
pub proof fn lemma_server_fault_is_retried(attempt: u32, attempts: u32, status: u16, body: String)
    requires
        status == 429 || status == 500 || status == 502 || status == 503 || status == 504,
        attempt + 1 < attempts,
    ensures
        after_failure_spec(attempt, attempts, TranscriptionError::Api { status, body })
            == AfterFailure::WaitThenRetry(vstd::arithmetic::power2::pow2(attempt as nat) as u64),
{
}

/// Seconds to wait after failed attempt number `attempt` (counted from 0):
/// 1, 2, 4, ... seconds.
pub fn backoff_secs(attempt: u32) -> (r: u64)
    requires
        attempt < 64,
    ensures
        r as nat == vstd::arithmetic::power2::pow2(attempt as nat),
{
    proof {
        vstd::bits::lemma_u64_pow2_no_overflow(attempt as nat);
        vstd::bits::lemma_u64_shl_is_mul(1, attempt as u64);
    }
    1u64 << (attempt as u64)
}

/// MIME type announced for an audio file with extension `ext`.
pub open spec fn mime_text(ext: Seq<char>) -> Seq<char> {
    if ext == "mp3"@ {
        "audio/mpeg"@
    } else if ext == "m4a"@ || ext == "mp4"@ {
        "audio/mp4"@
    } else if ext == "webm"@ {
        "audio/webm"@
    } else if ext == "wav"@ {
        "audio/wav"@
    } else if ext == "flac"@ {
        "audio/flac"@
    } else if ext == "ogg"@ {
        "audio/ogg"@
    } else {
        "application/octet-stream"@
    }
}

/// MIME type of the audio file at `path`, by its extension (case-sensitive).
pub fn mime_for(path: &str) -> (r: &'static str)
    ensures
        r@ == mime_text(
            match path_extension(path@) {
                Some(e) => e,
                None => ""@,
            },
        ),
{
    let ext = match extension(path) {
        Some(e) => e,
        None => "".to_owned(),
    };
    let e = ext.as_str();
    if str_eq(e, "mp3") {
        "audio/mpeg"
    } else if str_eq(e, "m4a") || str_eq(e, "mp4") {
        "audio/mp4"
    } else if str_eq(e, "webm") {
        "audio/webm"
    } else if str_eq(e, "wav") {
        "audio/wav"
    } else if str_eq(e, "flac") {
        "audio/flac"
    } else if str_eq(e, "ogg") {
        "audio/ogg"
    } else {
        "application/octet-stream"
    }
}

/// The file name sent with an upload: the part's own, `audio` when it has none.
pub open spec fn upload_file_name_spec(path: Seq<char>) -> Seq<char> {
    match path_file_name(path) {
        Some(n) => n,
        None => "audio"@,
    }
}

pub fn upload_file_name(path: &str) -> (r: String)
    ensures
        r@ == upload_file_name_spec(path@),
{
    match file_name(path) {
        Some(n) => n,
        None => "audio".to_owned(),
    }
}

/// The speaker number carried by a raw label: the value of its ASCII digits.
pub open spec fn speaker_number(raw: Seq<char>) -> Option<u32> {
    parse_u32_spec(ascii_digits(raw))
}

/// `speaker_0` becomes `Speaker 1`, `speaker_1` `Speaker 2`, and so on; a
/// label whose digits do not form a `u32` stays as it is.
pub open spec fn pretty_speaker_text(raw: Seq<char>) -> Seq<char> {
    match speaker_number(raw) {
        Some(n) => "Speaker "@ + decimal((n + 1) as nat),
        None => raw,
    }
}

/// A label that `pretty_speaker` can number: its digits are not the largest `u32`.
pub open spec fn numberable(raw: Seq<char>) -> bool {
    speaker_number(raw) != Some(u32::MAX)
}

pub fn pretty_speaker(raw: &str) -> (r: String)
    requires
        numberable(raw@),
    ensures
        r@ == pretty_speaker_text(raw@),
{
    let digits = ascii_digits_of(raw);
    assert(digits@.subrange(0, digits@.len() as int) == digits@);
    match parse_u32_range(&digits, 0, digits.len()) {
        Some(n) => {
            let mut out = "Speaker ".to_owned();
            push_decimal(&mut out, (n + 1) as u64);
            out
        },
        None => raw.to_owned(),
    }
}


/// One element of a segment list in an API answer, as far as it is read: the
/// numbers `start` and `end` (each an IEEE-754 double, kept as its bit
/// pattern), and the strings `text` and `speaker`, and the integer `speaker_id`.
/// A field is `None` when absent or of another JSON type.
#[derive(Clone, Debug)]
pub struct SegmentFields {
    pub start: Option<u64>,
    pub end: Option<u64>,
    pub text: Option<String>,
    pub speaker: Option<String>,
    pub speaker_id: Option<i64>,
}

/// The parts of a JSON answer that are read: the string `text` and the arrays
/// `segments` and `results`.
#[derive(Clone, Debug)]
pub struct ResponseFields {
    pub text: Option<String>,
    pub segments: Option<Vec<SegmentFields>>,
    pub results: Option<Vec<SegmentFields>>,
}

pub struct SegmentFieldsView {
    pub start: Option<u64>,
    pub end: Option<u64>,
    pub text: Option<Seq<char>>,
    pub speaker: Option<Seq<char>>,
    pub speaker_id: Option<i64>,
}

impl View for SegmentFields {
    type V = SegmentFieldsView;

    open spec fn view(&self) -> SegmentFieldsView {
        SegmentFieldsView {
            start: self.start,
            end: self.end,
            text: opt_text(self.text),
            speaker: opt_text(self.speaker),
            speaker_id: self.speaker_id,
        }
    }
}

pub open spec fn fields_views(l: Seq<SegmentFields>) -> Seq<SegmentFieldsView> {
    l.map_values(|s: SegmentFields| s@)
}

pub open spec fn opt_fields(o: Option<Vec<SegmentFields>>) -> Option<Seq<SegmentFieldsView>> {
    match o {
        Some(l) => Some(fields_views(l@)),
        None => None,
    }
}

pub struct ResponseFieldsView {
    pub text: Option<Seq<char>>,
    pub segments: Option<Seq<SegmentFieldsView>>,
    pub results: Option<Seq<SegmentFieldsView>>,
}

impl View for ResponseFields {
    type V = ResponseFieldsView;

    open spec fn view(&self) -> ResponseFieldsView {
        ResponseFieldsView {
            text: opt_text(self.text),
            segments: opt_fields(self.segments),
            results: opt_fields(self.results),
        }
    }
}

/// A transcribed segment with its time range (doubles kept as bit patterns).
#[derive(Clone, Debug)]
pub struct Segment {
    pub start_bits: u64,
    pub end_bits: u64,
    pub speaker: Option<String>,
    pub text: String,
}

pub struct SegmentView {
    pub start_bits: u64,
    pub end_bits: u64,
    pub speaker: Option<Seq<char>>,
    pub text: Seq<char>,
}

pub open spec fn opt_text(o: Option<String>) -> Option<Seq<char>> {
    match o {
        Some(s) => Some(s@),
        None => None,
    }
}

impl View for Segment {
    type V = SegmentView;

    open spec fn view(&self) -> SegmentView {
        SegmentView {
            start_bits: self.start_bits,
            end_bits: self.end_bits,
            speaker: opt_text(self.speaker),
            text: self.text@,
        }
    }
}

pub open spec fn segment_views(s: Seq<Segment>) -> Seq<SegmentView> {
    s.map_values(|x: Segment| x@)
}

/// The segment list of an answer: `segments`, or else `results`.
pub open spec fn segment_list(v: ResponseFieldsView) -> Option<Seq<SegmentFieldsView>> {
    match v.segments {
        Some(l) => Some(l),
        None => match v.results {
            Some(l) => Some(l),
            None => None,
        },
    }
}

/// The speaker of a segment: its `speaker`, else `speaker_<speaker_id>`.
pub open spec fn speaker_label(s: SegmentFieldsView) -> Option<Seq<char>> {
    match s.speaker {
        Some(sp) => Some(sp),
        None => match s.speaker_id {
            Some(i) => Some("speaker_"@ + signed_decimal(i as int)),
            None => None,
        },
    }
}

/// A segment of a diarized answer, when its text is present and not blank.
pub open spec fn diarized_segment(s: SegmentFieldsView) -> Option<SegmentView> {
    match s.text {
        None => None,
        Some(t) => {
            let text = trim(t);
            if text.len() == 0 {
                None
            } else {
                let start = match s.start {
                    Some(b) => b,
                    None => 0u64,
                };
                Some(
                    SegmentView {
                        start_bits: start,
                        end_bits: match s.end {
                            Some(b) => b,
                            None => start,
                        },
                        speaker: speaker_label(s),
                        text,
                    },
                )
            }
        },
    }
}

/// The segments of `l` that `f` keeps, in order.
pub open spec fn keep_segments(
    l: Seq<SegmentFieldsView>,
    f: spec_fn(SegmentFieldsView) -> Option<SegmentView>,
) -> Seq<SegmentView>
    decreases l.len(),
{
    if l.len() == 0 {
        seq![]
    } else {
        let rest = keep_segments(l.drop_last(), f);
        match f(l.last()) {
            Some(x) => rest.push(x),
            None => rest,
        }
    }
}

/// The timed, attributed segments of a diarized answer, `None` when there
/// is no segment list or it keeps nothing.
pub open spec fn diarized_segments(v: ResponseFieldsView) -> Option<Seq<SegmentView>> {
    match segment_list(v) {
        None => None,
        Some(l) => {
            let kept = keep_segments(l, |s: SegmentFieldsView| diarized_segment(s));
            if kept.len() == 0 {
                None
            } else {
                Some(kept)
            }
        },
    }
}

fn speaker_label_of(s: &SegmentFields) -> (r: Option<String>)
    ensures
        opt_text(r) == speaker_label(s@),
{
    match &s.speaker {
        Some(sp) => Some(sp.clone()),
        None => match s.speaker_id {
            Some(i) => {
                let mut out = "speaker_".to_owned();
                push_signed_decimal(&mut out, i);
                Some(out)
            },
            None => None,
        },
    }
}

fn diarized_segment_of(s: &SegmentFields) -> (r: Option<Segment>)
    ensures
        match r {
            Some(x) => diarized_segment(s@) == Some(x@),
            None => diarized_segment(s@) is None,
        },
{
    match &s.text {
        None => None,
        Some(t) => {
            let text = trimmed(t.as_str());
            if text.unicode_len() == 0 {
                None
            } else {
                let start = match s.start {
                    Some(b) => b,
                    None => 0u64,
                };
                let end = match s.end {
                    Some(b) => b,
                    None => start,
                };
                Some(Segment { start_bits: start, end_bits: end, speaker: speaker_label_of(s), text })
            }
        },
    }
}

fn list_of(v: &ResponseFields) -> (r: Option<&Vec<SegmentFields>>)
    ensures
        match r {
            Some(l) => segment_list(v@) == Some(fields_views(l@)),
            None => segment_list(v@) is None,
        },
{
    match &v.segments {
        Some(l) => Some(l),
        None => match &v.results {
            Some(l) => Some(l),
            None => None,
        },
    }
}

/// The segments of a diarized answer.
pub fn parse_diarized_segments(v: &ResponseFields) -> (r: Option<Vec<Segment>>)
    ensures
        match r {
            Some(segs) => diarized_segments(v@) == Some(segment_views(segs@)),
            None => diarized_segments(v@) is None,
        },
{
    let list = match list_of(v) {
        Some(l) => l,
        None => return None,
    };
    let ghost f = |s: SegmentFieldsView| diarized_segment(s);
    let ghost lv = fields_views(list@);
    let mut out: Vec<Segment> = Vec::new();
    let mut i: usize = 0;
    while i < list.len()
        invariant
            i <= list@.len(),
            lv == fields_views(list@),
            f == (|s: SegmentFieldsView| diarized_segment(s)),
            segment_views(out@) == keep_segments(lv.subrange(0, i as int), f),
        decreases list@.len() - i,
    {
        proof {
            assert(lv.subrange(0, i + 1).drop_last() == lv.subrange(0, i as int));
            assert(lv.subrange(0, i + 1).last() == list@[i as int]@);
        }
        match diarized_segment_of(&list[i]) {
            Some(x) => {
                out.push(x);
            },
            None => {},
        }
        i = i + 1;
    }
    assert(lv.subrange(0, lv.len() as int) == lv);
    if out.len() == 0 {
        None
    } else {
        Some(out)
    }
}


/// Progress of turning a diarized answer into dialogue: the finished
/// paragraphs, and the speaker and text of the paragraph being gathered.
pub struct DialogueState {
    pub paragraphs: Seq<Seq<char>>,
    /// The speaker of each finished paragraph.
    pub speakers: Seq<Seq<char>>,
    pub speaker: Option<Seq<char>>,
    pub text: Seq<char>,
}

/// `Speaker N: text` for a finished paragraph.
pub open spec fn paragraph(speaker: Seq<char>, text: Seq<char>) -> Seq<char> {
    pretty_speaker_text(speaker) + ": "@ + trim(text)
}

/// The speaker a segment is attributed to in dialogue (`speaker` when unknown).
pub open spec fn dialogue_speaker(s: SegmentFieldsView) -> Seq<char> {
    match speaker_label(s) {
        Some(l) => l,
        None => "speaker"@,
    }
}

pub open spec fn dialogue_text(s: SegmentFieldsView) -> Seq<char> {
    trim(
        match s.text {
            Some(t) => t,
            None => seq![],
        },
    )
}

/// One segment added to the dialogue: a blank segment changes nothing; one
/// of the current speaker extends the paragraph after a space; one of another
/// speaker closes the paragraph and opens a new one.
pub open spec fn dialogue_step(st: DialogueState, s: SegmentFieldsView) -> DialogueState {
    let speaker = dialogue_speaker(s);
    let text = dialogue_text(s);
    if text.len() == 0 {
        st
    } else if st.speaker == Some(speaker) {
        DialogueState { text: st.text + seq![' '] + text, ..st }
    } else {
        DialogueState {
            paragraphs: match st.speaker {
                Some(sp) => st.paragraphs.push(paragraph(sp, st.text)),
                None => st.paragraphs,
            },
            speakers: match st.speaker {
                Some(sp) => st.speakers.push(sp),
                None => st.speakers,
            },
            speaker: Some(speaker),
            text,
        }
    }
}

pub open spec fn dialogue_fold(l: Seq<SegmentFieldsView>) -> DialogueState
    decreases l.len(),
{
    if l.len() == 0 {
        DialogueState { paragraphs: seq![], speakers: seq![], speaker: None, text: seq![] }
    } else {
        dialogue_step(dialogue_fold(l.drop_last()), l.last())
    }
}

/// The paragraphs of the dialogue, the last one closed.
pub open spec fn dialogue_paragraphs(l: Seq<SegmentFieldsView>) -> Seq<Seq<char>> {
    let st = dialogue_fold(l);
    match st.speaker {
        Some(sp) => st.paragraphs.push(paragraph(sp, st.text)),
        None => st.paragraphs,
    }
}

/// The speaker of each paragraph of the dialogue.
pub open spec fn dialogue_speakers(l: Seq<SegmentFieldsView>) -> Seq<Seq<char>> {
    let st = dialogue_fold(l);
    match st.speaker {
        Some(sp) => st.speakers.push(sp),
        None => st.speakers,
    }
}

proof fn lemma_fold_alternates(l: Seq<SegmentFieldsView>)
    ensures
        ({
            let st = dialogue_fold(l);
            &&& st.speakers.len() == st.paragraphs.len()
            &&& forall|i: int| 0 <= i < st.speakers.len() ==> (#[trigger] st.paragraphs[i]).len() >= pretty_speaker_text(st.speakers[i]).len()
                && st.paragraphs[i].subrange(0, pretty_speaker_text(st.speakers[i]).len() as int) == pretty_speaker_text(st.speakers[i])
            &&& forall|i: int| 0 <= i < st.speakers.len() - 1 ==> #[trigger] st.speakers[i] != st.speakers[i + 1]
            &&& st.speaker is None ==> st.speakers.len() == 0
            &&& (st.speaker is Some && st.speakers.len() > 0) ==> st.speakers.last() != st.speaker->0
        }),
    decreases l.len(),
{
    if l.len() > 0 {
        lemma_fold_alternates(l.drop_last());
        let st0 = dialogue_fold(l.drop_last());
        let st = dialogue_fold(l);
        if st0.speaker is Some && !(st.speaker == st0.speaker) {
            let sp = st0.speaker->0;
            let para = paragraph(sp, st0.text);
            assert(para.subrange(0, pretty_speaker_text(sp).len() as int) == pretty_speaker_text(sp));
            assert(st.paragraphs == st0.paragraphs.push(para));
            assert(st.speakers == st0.speakers.push(sp));
        }
    }
}

/// Segments of one speaker in a row share a paragraph: neighbouring
/// paragraphs of the dialogue are of different speakers, and each paragraph
/// begins with its speaker's name.
pub proof fn lemma_dialogue_alternates(l: Seq<SegmentFieldsView>)
    ensures
        dialogue_speakers(l).len() == dialogue_paragraphs(l).len(),
        forall|i: int|
            0 <= i < dialogue_speakers(l).len() - 1 ==> #[trigger] dialogue_speakers(l)[i]
                != dialogue_speakers(l)[i + 1],
        forall|i: int|
            0 <= i < dialogue_speakers(l).len() ==> (#[trigger] dialogue_paragraphs(l)[i]).subrange(
                0,
                pretty_speaker_text(dialogue_speakers(l)[i]).len() as int,
            ) == pretty_speaker_text(dialogue_speakers(l)[i]),
{
    lemma_fold_alternates(l);
    let st = dialogue_fold(l);
    if st.speaker is Some {
        let sp = st.speaker->0;
        let para = paragraph(sp, st.text);
        assert(para.subrange(0, pretty_speaker_text(sp).len() as int) == pretty_speaker_text(sp));
        let sps = dialogue_speakers(l);
        let ps = dialogue_paragraphs(l);
        assert forall|i: int| 0 <= i < sps.len() - 1 implies #[trigger] sps[i] != sps[i + 1] by {
            if i + 1 < st.speakers.len() {
                assert(sps[i] == st.speakers[i]);
                assert(sps[i + 1] == st.speakers[i + 1]);
            } else {
                assert(sps[i] == st.speakers.last());
            }
        }
        assert forall|i: int| 0 <= i < sps.len() implies (#[trigger] ps[i]).subrange(
            0,
            pretty_speaker_text(sps[i]).len() as int,
        ) == pretty_speaker_text(sps[i]) by {
            if i < st.speakers.len() {
                assert(ps[i] == st.paragraphs[i]);
                assert(sps[i] == st.speakers[i]);
            }
        }
    }
}

/// A diarized answer as a dialogue: paragraphs `Speaker N: text`, separated
/// by blank lines, where neighbouring segments of one speaker share a
/// paragraph; `None` when there is no segment list or nothing to say.
pub open spec fn dialogue(v: ResponseFieldsView) -> Option<Seq<char>> {
    match segment_list(v) {
        None => None,
        Some(l) => {
            let ps = dialogue_paragraphs(l);
            if l.len() == 0 || ps.len() == 0 {
                None
            } else {
                Some(join(ps, "\n\n"@))
            }
        },
    }
}

/// A segment is kept as a diarized segment exactly when it adds to the dialogue.
proof fn lemma_kept_iff_spoken(s: SegmentFieldsView)
    ensures
        diarized_segment(s) is Some <==> dialogue_text(s).len() > 0,
{
    if s.text is None {
        let e: Seq<char> = seq![];
        assert(trim_start(e) == e);
        assert(trim_end(e) == e);
    }
}

/// No segment of `l` is kept exactly when the dialogue of `l` has no speaker.
proof fn lemma_kept_none_iff_silent(l: Seq<SegmentFieldsView>)
    ensures
        keep_segments(l, |s: SegmentFieldsView| diarized_segment(s)).len() == 0 <==> dialogue_fold(
            l,
        ).speaker is None,
    decreases l.len(),
{
    if l.len() > 0 {
        lemma_kept_none_iff_silent(l.drop_last());
        lemma_kept_iff_spoken(l.last());
    }
}

/// The segment reader and the dialogue writer agree on when an answer has
/// nothing to give: the timed segments of a diarized answer are absent
/// exactly when its dialogue is.
pub proof fn lemma_segments_none_iff_dialogue_none(v: ResponseFieldsView)
    ensures
        diarized_segments(v) is None <==> dialogue(v) is None,
{
    if let Some(l) = segment_list(v) {
        lemma_kept_none_iff_silent(l);
        lemma_fold_alternates(l);
    }
}

/// Every speaker of the answer's non-blank segments can be numbered.
pub open spec fn speakers_numberable(v: ResponseFieldsView) -> bool {
    match segment_list(v) {
        None => true,
        Some(l) => forall|i: int|
            0 <= i < l.len() && dialogue_text(#[trigger] l[i]).len() > 0 ==> numberable(
                dialogue_speaker(l[i]),
            ),
    }
}

/// The speaker held by a dialogue state can be numbered.
pub open spec fn state_numberable(st: DialogueState) -> bool {
    match st.speaker {
        Some(sp) => numberable(sp),
        None => true,
    }
}

proof fn lemma_fold_numberable(l: Seq<SegmentFieldsView>)
    requires
        forall|i: int|
            0 <= i < l.len() && dialogue_text(#[trigger] l[i]).len() > 0 ==> numberable(
                dialogue_speaker(l[i]),
            ),
    ensures
        state_numberable(dialogue_fold(l)),
    decreases l.len(),
{
    if l.len() > 0 {
        assert forall|i: int|
            0 <= i < l.drop_last().len() && dialogue_text(
                #[trigger] l.drop_last()[i],
            ).len() > 0 implies numberable(dialogue_speaker(l.drop_last()[i])) by {
            assert(l.drop_last()[i] == l[i]);
        }
        lemma_fold_numberable(l.drop_last());
        assert(l.last() == l[l.len() - 1]);
    }
}

/// Whether every speaker of the answer's non-blank segments can be numbered
/// (the condition `format_diarized` needs).
pub fn check_speakers_numberable(v: &ResponseFields) -> (r: bool)
    ensures
        r == speakers_numberable(v@),
{
    let list = match list_of(v) {
        Some(l) => l,
        None => return true,
    };
    let ghost lv = fields_views(list@);
    let mut i: usize = 0;
    while i < list.len()
        invariant
            i <= list@.len(),
            lv == fields_views(list@),
            segment_list(v@) == Some(lv),
            forall|k: int|
                0 <= k < i && dialogue_text(#[trigger] lv[k]).len() > 0 ==> numberable(
                    dialogue_speaker(lv[k]),
                ),
        decreases list@.len() - i,
    {
        let seg = &list[i];
        let text = match &seg.text {
            Some(t) => trimmed(t.as_str()),
            None => String::new(),
        };
        if text.unicode_len() > 0 {
            let speaker = match speaker_label_of(seg) {
                Some(l) => l,
                None => "speaker".to_owned(),
            };
            let digits = ascii_digits_of(speaker.as_str());
            assert(digits@.subrange(0, digits@.len() as int) == digits@);
            let n = parse_u32_range(&digits, 0, digits.len());
            if let Some(m) = n {
                if m == u32::MAX {
                    assert(seg@ == lv[i as int]);
                    assert(text@ == dialogue_text(lv[i as int]));
                    assert(speaker@ == dialogue_speaker(lv[i as int]));
                    assert(!numberable(dialogue_speaker(lv[i as int])));
                    let ghost k = i as int;
                    assert(0 <= k < lv.len() && dialogue_text(lv[k]).len() > 0 && !numberable(
                        dialogue_speaker(lv[k]),
                    ));
                    assert(!speakers_numberable(v@)) by {
                        if speakers_numberable(v@) {
                            let l = segment_list(v@)->0;
                            assert(l == lv);
                            assert(dialogue_text(l[k]).len() > 0 ==> numberable(
                                dialogue_speaker(l[k]),
                            ));
                        }
                    }
                    return false;
                }
            }
        }
        i = i + 1;
    }
    true
}

/// The answer of a diarizing model as a dialogue.
pub fn format_diarized(v: &ResponseFields) -> (r: Option<String>)
    requires
        speakers_numberable(v@),
    ensures
        opt_text(r) == dialogue(v@),
{
    let list = match list_of(v) {
        Some(l) => l,
        None => return None,
    };
    if list.len() == 0 {
        return None;
    }
    let ghost lv = fields_views(list@);
    let mut out: Vec<String> = Vec::new();
    let mut cur_speaker: Option<String> = None;
    let mut cur_text = String::new();
    let mut i: usize = 0;
    while i < list.len()
        invariant
            i <= list@.len(),
            lv == fields_views(list@),
            forall|k: int|
                0 <= k < lv.len() && dialogue_text(#[trigger] lv[k]).len() > 0
                    ==> numberable(dialogue_speaker(lv[k])),
            ({
                let st = dialogue_fold(lv.subrange(0, i as int));
                &&& views(out@) == st.paragraphs
                &&& opt_text(cur_speaker) == st.speaker
                &&& cur_text@ == st.text
            }),
        decreases list@.len() - i,
    {
        let ghost prefix = lv.subrange(0, i + 1);
        let ghost st0 = dialogue_fold(lv.subrange(0, i as int));
        let ghost st1 = dialogue_step(st0, lv[i as int]);
        proof {
            assert(prefix.drop_last() == lv.subrange(0, i as int));
            assert(prefix.last() == lv[i as int]);
            assert(dialogue_fold(prefix) == st1);
            assert forall|k: int|
                0 <= k < lv.subrange(0, i as int).len() && dialogue_text(
                    #[trigger] lv.subrange(0, i as int)[k],
                ).len() > 0 implies numberable(
                dialogue_speaker(lv.subrange(0, i as int)[k]),
            ) by {
                assert(lv.subrange(0, i as int)[k] == lv[k]);
            }
            lemma_fold_numberable(lv.subrange(0, i as int));
        }
        let seg = &list[i];
        assert(seg@ == lv[i as int]);
        let speaker = match speaker_label_of(seg) {
            Some(l) => l,
            None => "speaker".to_owned(),
        };
        let text = match &seg.text {
            Some(t) => trimmed(t.as_str()),
            None => String::new(),
        };
        if text.unicode_len() == 0 {
        } else {
            let same = match &cur_speaker {
                Some(sp) => str_eq(sp.as_str(), speaker.as_str()),
                None => false,
            };
            if same {
                proof {
                    reveal_strlit(" ");
                }
                cur_text.append(" ");
                cur_text.append(text.as_str());
            } else {
                match &cur_speaker {
                    Some(sp) => {
                        let mut para = pretty_speaker(sp.as_str());
                        para.append(": ");
                        let body = trimmed(cur_text.as_str());
                        para.append(body.as_str());
                        let ghost before = out@;
                        out.push(para);
                        assert(views(out@) == views(before).push(para@));
                    },
                    None => {},
                }
                cur_speaker = Some(speaker);
                cur_text = text;
            }
        }
        assert(views(out@) == st1.paragraphs);
        assert(opt_text(cur_speaker) == st1.speaker);
        assert(cur_text@ == st1.text);
        i = i + 1;
    }
    assert(lv.subrange(0, lv.len() as int) == lv);
    proof {
        lemma_fold_numberable(lv);
    }
    match &cur_speaker {
        Some(sp) => {
            let mut para = pretty_speaker(sp.as_str());
            para.append(": ");
            let body = trimmed(cur_text.as_str());
            para.append(body.as_str());
            let ghost before = out@;
            out.push(para);
            assert(views(out@) == views(before).push(para@));
        },
        None => {},
    }
    if out.len() == 0 {
        None
    } else {
        Some(join_strings(&out, "\n\n"))
    }
}


/// The `response_format` requested from a model.
pub open spec fn response_format_text(model: TranscriptionModel) -> Seq<char> {
    if model is Gpt4oTranscribeDiarize {
        "diarized_json"@
    } else if model is Whisper1 {
        "verbose_json"@
    } else if model.supports_text_spec() {
        "text"@
    } else {
        "json"@
    }
}

pub fn response_format_for(model: TranscriptionModel) -> (r: &'static str)
    ensures
        r@ == response_format_text(model),
{
    match model {
        TranscriptionModel::Gpt4oTranscribeDiarize => "diarized_json",
        TranscriptionModel::Whisper1 => "verbose_json",
        _ => {
            if model.supports_text_response() {
                "text"
            } else {
                "json"
            }
        },
    }
}

/// The text fields of the upload form, in order: the model, the response
/// format, the language when one is set, and the chunking strategy `auto`
/// that diarizing models need. The audio file is added after them.
pub open spec fn form_fields_spec(model: TranscriptionModel, language: Seq<char>) -> Seq<
    (Seq<char>, Seq<char>),
> {
    let base = seq![("model"@, model.api_id_spec()), ("response_format"@, response_format_text(model))];
    let with_lang = if language.len() > 0 {
        base.push(("language"@, language))
    } else {
        base
    };
    if model is Gpt4oTranscribeDiarize {
        with_lang.push(("chunking_strategy"@, "auto"@))
    } else {
        with_lang
    }
}

/// What each model is asked for: `whisper-1` answers `verbose_json`, the
/// diarizing model `diarized_json`, and the other two plain `text`.
pub proof fn lemma_models_and_formats(model: TranscriptionModel)
    ensures
        model is Whisper1 ==> model.api_id_spec() == "whisper-1"@ && response_format_text(model)
            == "verbose_json"@,
        model is Gpt4oTranscribe ==> model.api_id_spec() == "gpt-4o-transcribe"@
            && response_format_text(model) == "text"@,
        model is Gpt4oMiniTranscribe ==> model.api_id_spec() == "gpt-4o-mini-transcribe"@
            && response_format_text(model) == "text"@,
        model is Gpt4oTranscribeDiarize ==> model.api_id_spec() == "gpt-4o-transcribe-diarize"@
            && response_format_text(model) == "diarized_json"@,
{
}

/// The form always starts with the model and the response format; a
/// non-empty language follows them, for every model, and an empty one is not
/// sent at all; only the diarizing model adds `chunking_strategy=auto`, last.
pub proof fn lemma_form_sends_the_language(model: TranscriptionModel, language: Seq<char>)
    ensures
        ({
            let f = form_fields_spec(model, language);
            &&& f.len() == 2 + (if language.len() > 0 {
                1int
            } else {
                0int
            }) + (if model is Gpt4oTranscribeDiarize {
                1int
            } else {
                0int
            })
            &&& f[0] == ("model"@, model.api_id_spec())
            &&& f[1] == ("response_format"@, response_format_text(model))
            &&& language.len() > 0 ==> f[2] == ("language"@, language)
            &&& language.len() == 0 ==> forall|i: int| 0 <= i < f.len() ==> (#[trigger] f[i]).0 != "language"@
            &&& model is Gpt4oTranscribeDiarize ==> f.last() == ("chunking_strategy"@, "auto"@)
        }),
{
    reveal_strlit("model");
    reveal_strlit("response_format");
    reveal_strlit("language");
    reveal_strlit("chunking_strategy");
    assert("model"@.len() != "language"@.len());
    assert("response_format"@.len() != "language"@.len());
    assert("chunking_strategy"@.len() != "language"@.len());
}

pub open spec fn pair_views(v: Seq<(String, String)>) -> Seq<(Seq<char>, Seq<char>)> {
    v.map_values(|p: (String, String)| (p.0@, p.1@))
}

pub fn form_fields(model: TranscriptionModel, language: &str) -> (r: Vec<(String, String)>)
    ensures
        pair_views(r@) == form_fields_spec(model, language@),
{
    let mut r: Vec<(String, String)> = Vec::new();
    r.push(("model".to_owned(), model.api_id().to_owned()));
    r.push(("response_format".to_owned(), response_format_for(model).to_owned()));
    let ghost base = r@;
    if language.unicode_len() > 0 {
        r.push(("language".to_owned(), language.to_owned()));
    }
    let ghost with_lang = r@;
    match model {
        TranscriptionModel::Gpt4oTranscribeDiarize => {
            r.push(("chunking_strategy".to_owned(), "auto".to_owned()));
        },
        _ => {},
    }
    assert(pair_views(r@) == form_fields_spec(model, language@));
    r
}

/// What an upload yields: the transcript and, when the model gave them,
/// its timed segments.
#[derive(Clone, Debug)]
pub struct UploadResult {
    pub text: String,
    pub segments: Option<Vec<Segment>>,
}

pub struct UploadView {
    pub text: Seq<char>,
    pub segments: Option<Seq<SegmentView>>,
}

impl View for UploadResult {
    type V = UploadView;

    open spec fn view(&self) -> UploadView {
        UploadView {
            text: self.text@,
            segments: match self.segments {
                Some(s) => Some(segment_views(s@)),
                None => None,
            },
        }
    }
}

/// A segment of a `verbose_json` answer, when it has a start and a text.
pub open spec fn whisper_segment(s: SegmentFieldsView) -> Option<SegmentView> {
    match (s.start, s.text) {
        (Some(st), Some(t)) => Some(
            SegmentView {
                start_bits: st,
                end_bits: match s.end {
                    Some(e) => e,
                    None => st,
                },
                speaker: None,
                text: trim(t),
            },
        ),
        _ => None,
    }
}

pub open spec fn segment_texts(s: Seq<SegmentView>) -> Seq<Seq<char>> {
    s.map_values(|x: SegmentView| x.text)
}

/// The texts present in a segment list, untrimmed.
pub open spec fn present_texts(l: Seq<SegmentFieldsView>) -> Seq<Seq<char>>
    decreases l.len(),
{
    if l.len() == 0 {
        seq![]
    } else {
        let rest = present_texts(l.drop_last());
        match l.last().text {
            Some(t) => rest.push(t),
            None => rest,
        }
    }
}

/// What a successful JSON answer yields.
pub open spec fn json_outcome(model: TranscriptionModel, v: ResponseFieldsView) -> UploadView {
    if model is Whisper1 && v.segments is Some {
        let parsed = keep_segments(v.segments->0, |s: SegmentFieldsView| whisper_segment(s));
        UploadView {
            text: match v.text {
                Some(t) => t,
                None => join(segment_texts(parsed), " "@),
            },
            segments: if parsed.len() == 0 {
                None
            } else {
                Some(parsed)
            },
        }
    } else if model is Gpt4oTranscribeDiarize && dialogue(v) is Some {
        UploadView { text: dialogue(v)->0, segments: diarized_segments(v) }
    } else if v.text is Some && v.text->0.len() > 0 {
        UploadView { text: v.text->0, segments: None }
    } else if v.segments is Some && present_texts(v.segments->0).len() > 0 {
        UploadView { text: join(present_texts(v.segments->0), "\n"@), segments: None }
    } else {
        UploadView { text: seq![], segments: None }
    }
}

/// What an upload answer yields: an API error for a status outside 200..=299;
/// the body itself for a plain-text format; else the decoded JSON (an HTTP
/// error `bad json: ...` when it could not be decoded).
pub open spec fn upload_outcome(
    model: TranscriptionModel,
    status: u16,
    body: Seq<char>,
    json: Result<ResponseFieldsView, Seq<char>>,
) -> Result<UploadView, ErrorView> {
    if !(200 <= status <= 299) {
        Err(ErrorView::Api { status, body })
    } else if response_format_text(model) == "text"@ {
        Ok(UploadView { text: body, segments: None })
    } else {
        match json {
            Err(e) => Err(ErrorView::Http("bad json: "@ + e)),
            Ok(v) => Ok(json_outcome(model, v)),
        }
    }
}

/// A decoded answer, or the decoder's message, by its view.
pub open spec fn answer_view(json: Result<ResponseFields, String>) -> Result<ResponseFieldsView, Seq<char>> {
    match json {
        Ok(v) => Ok(v@),
        Err(e) => Err(e@),
    }
}

/// The answer can be read without numbering a speaker past `u32::MAX`.
pub open spec fn answer_numberable(
    model: TranscriptionModel,
    json: Result<ResponseFieldsView, Seq<char>>,
) -> bool {
    match json {
        Ok(v) => model is Gpt4oTranscribeDiarize ==> speakers_numberable(v),
        Err(_) => true,
    }
}

fn whisper_segment_of(s: &SegmentFields) -> (r: Option<Segment>)
    ensures
        match r {
            Some(x) => whisper_segment(s@) == Some(x@),
            None => whisper_segment(s@) is None,
        },
{
    match (s.start, &s.text) {
        (Some(st), Some(t)) => {
            let end = match s.end {
                Some(e) => e,
                None => st,
            };
            Some(Segment { start_bits: st, end_bits: end, speaker: None, text: trimmed(t.as_str()) })
        },
        _ => None,
    }
}

fn texts_of(segs: &Vec<Segment>) -> (r: Vec<String>)
    ensures
        views(r@) == segment_texts(segment_views(segs@)),
{
    let mut r: Vec<String> = Vec::new();
    let mut i: usize = 0;
    while i < segs.len()
        invariant
            i <= segs@.len(),
            views(r@) == segment_texts(segment_views(segs@.subrange(0, i as int))),
        decreases segs@.len() - i,
    {
        let ghost before = r@;
        r.push(segs[i].text.clone());
        i = i + 1;
        assert(segment_views(segs@.subrange(0, i as int)) == segment_views(
            segs@.subrange(0, i - 1),
        ).push(segs@[i - 1]@));
        assert(views(r@) == views(before).push(segs@[i - 1].text@));
    }
    assert(segs@.subrange(0, segs@.len() as int) == segs@);
    r
}

fn present_texts_of(l: &Vec<SegmentFields>) -> (r: Vec<String>)
    ensures
        views(r@) == present_texts(fields_views(l@)),
{
    let ghost lv = fields_views(l@);
    let mut r: Vec<String> = Vec::new();
    let mut i: usize = 0;
    while i < l.len()
        invariant
            i <= l@.len(),
            lv == fields_views(l@),
            views(r@) == present_texts(lv.subrange(0, i as int)),
        decreases l@.len() - i,
    {
        proof {
            assert(lv.subrange(0, i + 1).drop_last() == lv.subrange(0, i as int));
            assert(lv.subrange(0, i + 1).last() == l@[i as int]@);
        }
        match &l[i].text {
            Some(t) => {
                let ghost before = r@;
                r.push(t.clone());
                assert(views(r@) == views(before).push(t@));
            },
            None => {},
        }
        i = i + 1;
    }
    assert(lv.subrange(0, lv.len() as int) == lv);
    r
}

fn whisper_segments_of(l: &Vec<SegmentFields>) -> (r: Vec<Segment>)
    ensures
        segment_views(r@) == keep_segments(fields_views(l@), |s: SegmentFieldsView| whisper_segment(s)),
{
    let ghost f = |s: SegmentFieldsView| whisper_segment(s);
    let ghost lv = fields_views(l@);
    let mut out: Vec<Segment> = Vec::new();
    let mut i: usize = 0;
    while i < l.len()
        invariant
            i <= l@.len(),
            lv == fields_views(l@),
            f == (|s: SegmentFieldsView| whisper_segment(s)),
            segment_views(out@) == keep_segments(lv.subrange(0, i as int), f),
        decreases l@.len() - i,
    {
        proof {
            assert(lv.subrange(0, i + 1).drop_last() == lv.subrange(0, i as int));
            assert(lv.subrange(0, i + 1).last() == l@[i as int]@);
        }
        match whisper_segment_of(&l[i]) {
            Some(x) => {
                out.push(x);
            },
            None => {},
        }
        i = i + 1;
    }
    assert(lv.subrange(0, lv.len() as int) == lv);
    out
}

/// Reads a decoded JSON answer.
fn read_json_answer(model: TranscriptionModel, v: &ResponseFields) -> (r: UploadResult)
    requires
        model is Gpt4oTranscribeDiarize ==> speakers_numberable(v@),
    ensures
        r@ == json_outcome(model, v@),
{
    if let TranscriptionModel::Whisper1 = model {
        if let Some(segments) = &v.segments {
            let parsed = whisper_segments_of(segments);
            let text = match &v.text {
                Some(t) => t.clone(),
                None => {
                    let texts = texts_of(&parsed);
                    join_strings(&texts, " ")
                },
            };
            let segs = if parsed.len() == 0 {
                None
            } else {
                Some(parsed)
            };
            return UploadResult { text, segments: segs };
        }
    }
    if let TranscriptionModel::Gpt4oTranscribeDiarize = model {
        let segments = parse_diarized_segments(v);
        if let Some(dialogue_text) = format_diarized(v) {
            return UploadResult { text: dialogue_text, segments };
        }
    }
    if let Some(t) = &v.text {
        if t.unicode_len() > 0 {
            return UploadResult { text: t.clone(), segments: None };
        }
    }
    if let Some(segments) = &v.segments {
        let joined = present_texts_of(segments);
        if joined.len() > 0 {
            return UploadResult { text: join_strings(&joined, "\n"), segments: None };
        }
    }
    UploadResult { text: String::new(), segments: None }
}

/// Reads the answer to an upload: the HTTP status, the body, and the body
/// decoded as JSON (or the decoder's message).
pub fn read_upload_response(
    model: TranscriptionModel,
    status: u16,
    body: String,
    json: Result<ResponseFields, String>,
) -> (r: Result<UploadResult, TranscriptionError>)
    requires
        answer_numberable(model, answer_view(json)),
    ensures
        match r {
            Ok(u) => upload_outcome(model, status, body@, answer_view(json)) == Ok::<UploadView, ErrorView>(u@),
            Err(e) => upload_outcome(model, status, body@, answer_view(json)) == Err::<UploadView, ErrorView>(e@),
        },
{
    if !(200 <= status && status <= 299) {
        return Err(TranscriptionError::Api { status, body });
    }
    let format = response_format_for(model);
    if str_eq(format, "text") {
        return Ok(UploadResult { text: body, segments: None });
    }
    match json {
        Err(e) => {
            let mut msg = "bad json: ".to_owned();
            msg.append(e.as_str());
            Err(TranscriptionError::Http(msg))
        },
        Ok(v) => Ok(read_json_answer(model, &v)),
    }
}


/// What `serde_json` makes of an answer body, as far as it is read: the
/// fields of the decoded value, or the decoder's message.
pub uninterp spec fn decoded_answer(body: Seq<char>) -> Result<ResponseFieldsView, Seq<char>>;

/// Decodes an answer body with `serde_json::from_str` into a
/// `serde_json::Value` and picks the fields that are read: the string `text`
/// and the arrays `segments` and `results`, each element by its numbers
/// `start` and `end` (`as_f64`, kept as bit patterns), its strings `text` and
/// `speaker`, and its integer `speaker_id` (`as_i64`); a field that is absent
/// or of another JSON type is `None`. The error is the decoder's message.
/// Claimed and not proved: the result depends on the body alone and is
/// `decoded_answer` of it; what the decoder accepts is not stated.
#[verifier::external_body]
fn decode_answer(body: &str) -> (r: Result<ResponseFields, String>)
    ensures
        answer_view(r) == decoded_answer(body@),
{
    let v: Value = serde_json::from_str(body).map_err(|e| e.to_string())?;
    let seg = |s: &Value| SegmentFields {
        start: s["start"].as_f64().map(|x| x.to_bits()),
        end: s["end"].as_f64().map(|x| x.to_bits()),
        text: s["text"].as_str().map(String::from),
        speaker: s["speaker"].as_str().map(String::from),
        speaker_id: s["speaker_id"].as_i64(),
    };
    let list = |k: &str| v[k].as_array().map(|a| a.iter().map(seg).collect());
    Ok(ResponseFields { text: v["text"].as_str().map(String::from), segments: list("segments"), results: list("results") })
}

/// Reads the answer to an upload from its HTTP status and body, decoding the
/// body as JSON only where the status is a success and the format is not
/// plain text. `None` where the dialogue of a diarized answer would number a
/// speaker past `u32::MAX`.
pub fn read_answer(model: TranscriptionModel, status: u16, body: String) -> (r: Option<
    Result<UploadResult, TranscriptionError>,
>)
    ensures
        r is None <==> (200 <= status <= 299 && !answer_numberable(model, decoded_answer(body@))),
        match r {
            Some(Ok(u)) => upload_outcome(model, status, body@, decoded_answer(body@)) == Ok::<
                UploadView,
                ErrorView,
            >(u@),
            Some(Err(e)) => upload_outcome(model, status, body@, decoded_answer(body@)) == Err::<
                UploadView,
                ErrorView,
            >(e@),
            None => true,
        },
{
    proof {
        reveal_strlit("text");
        reveal_strlit("diarized_json");
        assert("diarized_json"@.len() != "text"@.len());
    }
    let decodes = 200 <= status && status <= 299 && !str_eq(response_format_for(model), "text");
    let json = if decodes {
        decode_answer(body.as_str())
    } else {
        Err(String::new())
    };
    let numberable = match (&json, model) {
        (Ok(v), TranscriptionModel::Gpt4oTranscribeDiarize) => check_speakers_numberable(v),
        _ => true,
    };
    if !numberable {
        return None;
    }
    Some(read_upload_response(model, status, body, json))
}


/// What to do after a failed upload attempt.
#[derive(Clone, Copy, Debug, PartialEq, Eq, Structural)]
pub enum AfterFailure {
    /// Report this error now.
    GiveUp,
    /// Wait this many seconds, then make the next attempt.
    WaitThenRetry(u64),
    /// Wait this many seconds, then report this error (no attempt is left).
    WaitThenGiveUp(u64),
}

/// Attempts made by a run with the given limit: at least one.
pub open spec fn attempt_limit(attempts: u32) -> nat {
    if attempts == 0 {
        1
    } else {
        attempts as nat
    }
}

/// The decision after attempt `attempt` (from 0) failed with `err`: a
/// non-retryable error, or one on the last attempt of a run of `attempts`, is
/// reported at once; any other is waited out for 2^attempt seconds, then
/// retried while attempts remain.
pub open spec fn after_failure_spec(attempt: u32, attempts: u32, err: TranscriptionError) -> AfterFailure {
    if !retryable(err) || attempt + 1 == attempts {
        AfterFailure::GiveUp
    } else if attempt + 1 < attempt_limit(attempts) {
        AfterFailure::WaitThenRetry(vstd::arithmetic::power2::pow2(attempt as nat) as u64)
    } else {
        AfterFailure::WaitThenGiveUp(vstd::arithmetic::power2::pow2(attempt as nat) as u64)
    }
}

/// The wait can be computed: the shift that gives it stays below 64.
pub open spec fn wait_computable(attempt: u32, attempts: u32, err: TranscriptionError) -> bool {
    retryable(err) && attempt + 1 != attempts ==> attempt < 64
}

/// Decides what follows a failed upload attempt.
pub fn after_failure(attempt: u32, attempts: u32, err: &TranscriptionError) -> (r: AfterFailure)
    requires
        (attempt as nat) < attempt_limit(attempts),
        wait_computable(attempt, attempts, *err),
    ensures
        r == after_failure_spec(attempt, attempts, *err),
{
    if !is_retryable(err) || attempt as u64 + 1 == attempts as u64 {
        return AfterFailure::GiveUp;
    }
    let delay = backoff_secs(attempt);
    let limit: u64 = if attempts == 0 {
        1
    } else {
        attempts as u64
    };
    if (attempt as u64) + 1 < limit {
        AfterFailure::WaitThenRetry(delay)
    } else {
        AfterFailure::WaitThenGiveUp(delay)
    }
}

/// A run never makes more attempts than its limit: a retry is only offered
/// while the next attempt is within `attempt_limit(attempts)`, and the attempt
/// that reaches the limit always ends the run.
pub proof fn lemma_attempts_bounded(attempt: u32, attempts: u32, err: TranscriptionError)
    requires
        (attempt as nat) < attempt_limit(attempts),
    ensures
        after_failure_spec(attempt, attempts, err) is WaitThenRetry ==> attempt + 1 < attempt_limit(
            attempts,
        ),
        attempt + 1 == attempt_limit(attempts) ==> !(after_failure_spec(
            attempt,
            attempts,
            err,
        ) is WaitThenRetry),
{
}

/// The waits of one run double from one second: attempt `k` waits 2^k
/// seconds, twice what attempt `k - 1` waited.
pub proof fn lemma_backoff_doubles(attempt: u32, attempts: u32, err: TranscriptionError)
    requires
        0 < attempt < 63,
        retryable(err),
        attempt + 1 < attempt_limit(attempts),
    ensures
        after_failure_spec(attempt, attempts, err) == AfterFailure::WaitThenRetry(
            (2 * vstd::arithmetic::power2::pow2((attempt - 1) as nat)) as u64,
        ),
        after_failure_spec((attempt - 1) as u32, attempts, err) == AfterFailure::WaitThenRetry(
            vstd::arithmetic::power2::pow2((attempt - 1) as nat) as u64,
        ),
{
    vstd::arithmetic::power2::lemma_pow2_unfold(attempt as nat);
}

/// An error that cannot be retried is reported after the attempt that met it.
pub proof fn lemma_fatal_error_stops(attempt: u32, attempts: u32, err: TranscriptionError)
    requires
        !retryable(err),
    ensures
        after_failure_spec(attempt, attempts, err) == AfterFailure::GiveUp,
{
}


/// A run of upload attempts from attempt `attempt` on, where `outcomes[i]`
/// is what attempt `i` gives (`None` for success), each failure followed by
/// what `after_failure_spec` decides: the attempts made, the waits in
/// seconds in the order they happen, and the outcome the run reports.
pub open spec fn run_from(
    outcomes: Seq<Option<TranscriptionError>>,
    attempt: nat,
    attempts: u32,
) -> (nat, Seq<u64>, Option<TranscriptionError>)
    decreases attempt_limit(attempts) - attempt,
{
    if attempt >= attempt_limit(attempts) || attempt >= outcomes.len() {
        (0, seq![], None)
    } else {
        match outcomes[attempt as int] {
            None => (1, seq![], None),
            Some(e) => match after_failure_spec(attempt as u32, attempts, e) {
                AfterFailure::GiveUp => (1, seq![], Some(e)),
                AfterFailure::WaitThenGiveUp(d) => (1, seq![d], Some(e)),
                AfterFailure::WaitThenRetry(d) => {
                    let rest = run_from(outcomes, attempt + 1, attempts);
                    (1 + rest.0, seq![d] + rest.1, rest.2)
                },
            },
        }
    }
}

/// The outcome is a failure worth another attempt.
pub open spec fn retryable_outcome(o: Option<TranscriptionError>) -> bool {
    match o {
        Some(e) => retryable(e),
        None => false,
    }
}

/// A run of `attempts` never reaches the 65th failure worth retrying: the
/// limit is at most 65, or one of the first 64 outcomes ends the run.
pub open spec fn waits_fit(outcomes: Seq<Option<TranscriptionError>>, attempts: u32) -> bool {
    attempts <= 65 || exists|i: int| 0 <= i < 64 && !retryable_outcome(#[trigger] outcomes[i])
}

proof fn lemma_run_from(outcomes: Seq<Option<TranscriptionError>>, a: nat, attempts: u32)
    requires
        1 <= attempts,
        a < attempts,
        outcomes.len() >= attempts,
        attempts <= 65 || exists|i: int| a <= i < 64 && !retryable_outcome(#[trigger] outcomes[i]),
    ensures
        ({
            let (k, waits, res) = run_from(outcomes, a, attempts);
            &&& 1 <= k <= attempts - a
            &&& a + k <= 65
            &&& forall|i: int| a <= i < a + k - 1 ==> retryable_outcome(#[trigger] outcomes[i])
            &&& a + k < attempts ==> !retryable_outcome(outcomes[a + k - 1])
            &&& waits == Seq::new(
                (k - 1) as nat,
                |i: int| vstd::arithmetic::power2::pow2((a + i) as nat) as u64,
            )
            &&& res == outcomes[a + k - 1]
        }),
    decreases attempts - a,
{
    let r = run_from(outcomes, a, attempts);
    match outcomes[a as int] {
        None => {
            assert(r.1 =~= Seq::new(0, |i: int| vstd::arithmetic::power2::pow2((a + i) as nat) as u64));
        },
        Some(e) => {
            if !retryable(e) || a + 1 == attempts {
                assert(r.1 =~= Seq::new(
                    0,
                    |i: int| vstd::arithmetic::power2::pow2((a + i) as nat) as u64,
                ));
            } else {
                if attempts > 65 {
                    let w = choose|i: int| a <= i < 64 && !retryable_outcome(#[trigger] outcomes[i]);
                    assert(w != a);
                    assert(a + 1 <= w < 64 && !retryable_outcome(outcomes[w]));
                }
                lemma_run_from(outcomes, a + 1, attempts);
                let rest = run_from(outcomes, a + 1, attempts);
                assert((a as u32) as nat == a);
                assert(r.1 =~= Seq::new(
                    (r.0 - 1) as nat,
                    |i: int| vstd::arithmetic::power2::pow2((a + i) as nat) as u64,
                )) by {
                    assert forall|i: int| 0 <= i < r.0 - 1 implies #[trigger] r.1[i]
                        == vstd::arithmetic::power2::pow2((a + i) as nat) as u64 by {
                        if i > 0 {
                            assert(r.1[i] == rest.1[i - 1]);
                            assert((a + 1 + (i - 1)) as nat == (a + i) as nat);
                        }
                    }
                }
                assert forall|i: int| a <= i < a + r.0 - 1 implies retryable_outcome(
                    #[trigger] outcomes[i],
                ) by {
                    if i > a {
                        assert(a + 1 <= i < a + 1 + rest.0 - 1);
                    }
                }
            }
        },
    }
}

/// A run with a limit of at least one attempt, that never reaches a 65th
/// failure worth retrying (where the wait would overflow), stops at the first
/// attempt that succeeds or fails for good, or after the last attempt: every
/// attempt before the last one failed in a way worth retrying, the run
/// reports the last attempt's outcome, and it waits 1, 2, 4, ... seconds
/// between attempts and never after the last one; each wait is one that
/// `after_failure` can compute.
pub proof fn lemma_run_stops_at_first_final_outcome(
    outcomes: Seq<Option<TranscriptionError>>,
    attempts: u32,
)
    requires
        1 <= attempts,
        outcomes.len() >= attempts,
        waits_fit(outcomes, attempts),
    ensures
        ({
            let (k, waits, res) = run_from(outcomes, 0, attempts);
            &&& 1 <= k <= attempts
            &&& k <= 65
            &&& forall|i: int| 0 <= i < k - 1 ==> retryable_outcome(#[trigger] outcomes[i])
            &&& k < attempts ==> !retryable_outcome(outcomes[k - 1])
            &&& waits == Seq::new(
                (k - 1) as nat,
                |i: int| vstd::arithmetic::power2::pow2(i as nat) as u64,
            )
            &&& res == outcomes[k - 1]
        }),
{
    lemma_run_from(outcomes, 0, attempts);
    let r = run_from(outcomes, 0, attempts);
    assert(r.1 =~= Seq::new((r.0 - 1) as nat, |i: int| vstd::arithmetic::power2::pow2(i as nat) as u64));
}

} // verus!
