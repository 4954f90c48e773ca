//! Splitting a long audio file into parts no larger than the upload limit:
//! whether to split, how `ffmpeg -f segment` is asked to do it, and the plan
//! made of the parts it wrote.
use vstd::prelude::*;

use super::audio::MAX_UPLOAD_BYTES;
use crate::path::{extension, path_extension};
use crate::text::{decimal, lex_le, push_decimal, sort_strings, views};

verus! {

/// The files to upload, in order, and the temporary folder holding them when
/// the audio was split.
#[derive(Clone, Debug)]
pub struct ChunkPlan {
    pub paths: Vec<String>,
    pub temp_dir: Option<String>,
}

/// A file above the upload limit has to be split.
pub fn needs_split(size: u64) -> (r: bool)
    ensures
        r == (size > MAX_UPLOAD_BYTES),
{
    size > MAX_UPLOAD_BYTES
}

/// The plan for a file small enough to upload whole.
pub fn single_part_plan(audio: &str) -> (r: ChunkPlan)
    ensures
        views(r.paths@) == seq![audio@],
        r.temp_dir is None,
{
    let mut paths: Vec<String> = Vec::new();
    paths.push(audio.to_owned());
    assert(views(paths@) == seq![audio@]);
    ChunkPlan { paths, temp_dir: None }
}

/// Length of each part in seconds: the estimate kept between one minute and
/// 25 minutes.
pub fn clamp_segment_seconds(estimate: u64) -> (r: u64)
    ensures
        r == (if estimate < 60 {
            60
        } else if estimate > 1500 {
            1500
        } else {
            estimate
        }),
{
    if estimate < 60 {
        60
    } else if estimate > 1500 {
        1500
    } else {
        estimate
    }
}

/// The extension given to the parts: that of the audio file, `webm` when it has none.
pub open spec fn part_extension(audio: Seq<char>) -> Seq<char> {
    match path_extension(audio) {
        Some(e) => e,
        None => "webm"@,
    }
}

/// File-name pattern of the parts that keep the audio's format: `part-%03d.<ext>`.
pub open spec fn part_pattern_spec(audio: Seq<char>) -> Seq<char> {
    "part-%03d."@ + part_extension(audio)
}

pub fn part_pattern(audio: &str) -> (r: String)
    ensures
        r@ == part_pattern_spec(audio@),
{
    let ext = match extension(audio) {
        Some(e) => e,
        None => "webm".to_owned(),
    };
    let mut out = "part-%03d.".to_owned();
    out.append(ext.as_str());
    out
}

/// Arguments that cut `input` into parts of `seconds` without re-encoding.
pub open spec fn copy_segment_args_spec(input: Seq<char>, pattern: Seq<char>, seconds: u64) -> Seq<
    Seq<char>,
> {
    seq!["-y"@, "-hide_banner"@, "-loglevel"@, "error"@, "-i"@, input, "-f"@, "segment"@,
        "-segment_time"@, decimal(seconds as nat), "-c"@, "copy"@, pattern]
}

/// Arguments that cut `input` into mono 64 kb/s MP3 parts of `seconds`, for
/// containers that cannot be cut as they are.
pub open spec fn mp3_segment_args_spec(input: Seq<char>, pattern: Seq<char>, seconds: u64) -> Seq<
    Seq<char>,
> {
    seq!["-y"@, "-hide_banner"@, "-loglevel"@, "error"@, "-i"@, input, "-vn"@, "-ac"@, "1"@,
        "-c:a"@, "libmp3lame"@, "-b:a"@, "64k"@, "-f"@, "segment"@, "-segment_time"@, decimal(
        seconds as nat,
    ), pattern]
}

/// The pattern of the MP3 parts.
pub open spec fn mp3_pattern() -> Seq<char> {
    "part-%03d.mp3"@
}

pub fn mp3_part_pattern() -> (r: &'static str)
    ensures
        r@ == mp3_pattern(),
{
    "part-%03d.mp3"
}

fn push_arg(args: &mut Vec<String>, a: &str)
    ensures
        views(final(args)@) == views(old(args)@).push(a@),
{
    let ghost before = args@;
    args.push(a.to_owned());
    assert(views(args@) == views(before).push(a@));
}

fn push_number(args: &mut Vec<String>, n: u64)
    ensures
        views(final(args)@) == views(old(args)@).push(decimal(n as nat)),
{
    let mut s = String::new();
    push_decimal(&mut s, n);
    let ghost before = args@;
    args.push(s);
    assert(views(args@) == views(before).push(decimal(n as nat)));
}

pub fn copy_segment_args(input: &str, pattern: &str, seconds: u64) -> (r: Vec<String>)
    ensures
        views(r@) == copy_segment_args_spec(input@, pattern@, seconds),
{
    let mut a: Vec<String> = Vec::new();
    push_arg(&mut a, "-y");
    push_arg(&mut a, "-hide_banner");
    push_arg(&mut a, "-loglevel");
    push_arg(&mut a, "error");
    push_arg(&mut a, "-i");
    push_arg(&mut a, input);
    push_arg(&mut a, "-f");
    push_arg(&mut a, "segment");
    push_arg(&mut a, "-segment_time");
    push_number(&mut a, seconds);
    push_arg(&mut a, "-c");
    push_arg(&mut a, "copy");
    push_arg(&mut a, pattern);
    assert(views(a@) == copy_segment_args_spec(input@, pattern@, seconds));
    a
}

pub fn mp3_segment_args(input: &str, pattern: &str, seconds: u64) -> (r: Vec<String>)
    ensures
        views(r@) == mp3_segment_args_spec(input@, pattern@, seconds),
{
    let mut a: Vec<String> = Vec::new();
    push_arg(&mut a, "-y");
    push_arg(&mut a, "-hide_banner");
    push_arg(&mut a, "-loglevel");
    push_arg(&mut a, "error");
    push_arg(&mut a, "-i");
    push_arg(&mut a, input);
    push_arg(&mut a, "-vn");
    push_arg(&mut a, "-ac");
    push_arg(&mut a, "1");
    push_arg(&mut a, "-c:a");
    push_arg(&mut a, "libmp3lame");
    push_arg(&mut a, "-b:a");
    push_arg(&mut a, "64k");
    push_arg(&mut a, "-f");
    push_arg(&mut a, "segment");
    push_arg(&mut a, "-segment_time");
    push_number(&mut a, seconds);
    push_arg(&mut a, pattern);
    assert(views(a@) == mp3_segment_args_spec(input@, pattern@, seconds));
    a
}

/// Which `ffmpeg` cut has just run.
#[derive(Clone, Copy, Debug, PartialEq, Eq, Structural)]
pub enum SegmentRun {
    /// The cut that copies the stream.
    Copy,
    /// The cut that re-encodes to MP3.
    Mp3,
}

/// What follows a cut.
#[derive(Clone, Debug)]
pub enum AfterSegmentRun {
    /// The parts are written: list them.
    ListParts,
    /// Cut again, re-encoding to MP3.
    RetryAsMp3,
    /// Give up with this message.
    Fail(String),
}

/// A successful cut is followed by listing the parts; a failed stream copy
/// by an MP3 cut; a failed MP3 cut by an error.
pub fn after_segment_run(run: SegmentRun, success: bool) -> (r: AfterSegmentRun)
    ensures
        success ==> r is ListParts,
        !success && run == SegmentRun::Copy ==> r is RetryAsMp3,
        !success && run == SegmentRun::Mp3 ==> (r matches AfterSegmentRun::Fail(m) && m@
            == "ffmpeg segment failed even with mp3 fallback"@),
{
    if success {
        AfterSegmentRun::ListParts
    } else {
        match run {
            SegmentRun::Copy => AfterSegmentRun::RetryAsMp3,
            SegmentRun::Mp3 => AfterSegmentRun::Fail("ffmpeg segment failed even with mp3 fallback".to_owned()),
        }
    }
}

/// The paths of the parts, in the order given.
pub open spec fn part_paths(parts: Seq<(String, u64)>) -> Seq<Seq<char>> {
    parts.map_values(|p: (String, u64)| p.0@)
}

/// What the split comes to once `ffmpeg` has run, from the parts found in the
/// temporary folder with their sizes in bytes: the part paths in ascending
/// order (all in that one folder); an error when there is no part, or when a
/// part is larger than the upload limit.
pub fn plan_from_parts(parts: Vec<(String, u64)>, temp_dir: String) -> (r: Result<ChunkPlan, String>)
    ensures
        match r {
            Ok(plan) => {
                &&& parts@.len() > 0
                &&& forall|i: int| 0 <= i < parts@.len() ==> #[trigger] parts@[i].1 <= MAX_UPLOAD_BYTES
                &&& views(plan.paths@).to_multiset() == part_paths(parts@).to_multiset()
                &&& forall|i: int, j: int|
                    0 <= i < j < plan.paths@.len() ==> lex_le(
                        #[trigger] plan.paths@[i]@,
                        #[trigger] plan.paths@[j]@,
                    )
                &&& plan.temp_dir == Some(temp_dir)
            },
            Err(msg) => if parts@.len() == 0 {
                msg@ == "ffmpeg segment produced no output files"@
            } else {
                &&& exists|i: int| 0 <= i < parts@.len() && #[trigger] parts@[i].1 > MAX_UPLOAD_BYTES
                &&& msg@ == "ffmpeg segment produced a part larger than the upload limit"@
            },
        },
{
    if parts.len() == 0 {
        return Err("ffmpeg segment produced no output files".to_owned());
    }
    let mut paths: Vec<String> = Vec::new();
    let mut i: usize = 0;
    while i < parts.len()
        invariant
            i <= parts@.len(),
            views(paths@) == part_paths(parts@).subrange(0, i as int),
            forall|k: int| 0 <= k < i ==> #[trigger] parts@[k].1 <= MAX_UPLOAD_BYTES,
        decreases parts@.len() - i,
    {
        if parts[i].1 > MAX_UPLOAD_BYTES {
            return Err("ffmpeg segment produced a part larger than the upload limit".to_owned());
        }
        let ghost before = paths@;
        paths.push(parts[i].0.clone());
        assert(views(paths@) == views(before).push(parts@[i as int].0@));
        assert(part_paths(parts@).subrange(0, i + 1) == part_paths(parts@).subrange(0, i as int).push(
            parts@[i as int].0@,
        ));
        i = i + 1;
    }
    assert(part_paths(parts@).subrange(0, parts@.len() as int) == part_paths(parts@));
    let sorted = sort_strings(paths);
    Ok(ChunkPlan { paths: sorted, temp_dir: Some(temp_dir) })
}

/// Name of the temporary folder for the parts of a process at an instant:
/// `ralume-stt-chunks-<pid>-<nanoseconds>`.
pub open spec fn chunk_dir_name_spec(pid: u32, nanos: u128) -> Seq<char> {
    "ralume-stt-chunks-"@ + decimal(pid as nat) + "-"@ + decimal(nanos as nat)
}

pub fn chunk_dir_name(pid: u32, nanos: u128) -> (r: String)
    ensures
        r@ == chunk_dir_name_spec(pid, nanos),
{
    let mut out = "ralume-stt-chunks-".to_owned();
    push_decimal(&mut out, pid as u64);
    out.append("-");
    crate::text::push_decimal_u128(&mut out, nanos);
    out
}

} // verus!
