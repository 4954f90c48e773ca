//! Preparing the audio track of a recording for upload: always re-encoded to
//! mono 16 kHz Opus at 24 kb/s for speech, which keeps about two hours under
//! the upload limit.
use vstd::prelude::*;

use crate::text::{chars_of, lines, lines_of, push_decimal, push_decimal_u128, string_of_range, trim, trim_range, views};

verus! {

/// The largest file the API accepts in one upload.
pub const MAX_UPLOAD_BYTES: u64 = 24 * 1024 * 1024;

/// At the 24 kb/s target, 133 minutes of speech fit under the upload limit.
pub proof fn lemma_limit_holds_133_minutes()
    ensures
        133 * 60 * 24_000 / 8 <= MAX_UPLOAD_BYTES,
{
}

/// The audio file to upload, and whether it was made for the upload (and is
/// to be removed afterwards).
#[derive(Clone, Debug)]
pub struct PreparedAudio {
    pub path: String,
    pub is_temporary: bool,
}

/// The `ffmpeg` arguments that re-encode `input`'s audio into `output`.
pub open spec fn opus_args_spec(input: Seq<char>, output: Seq<char>) -> Seq<Seq<char>> {
    seq!["-y"@, "-hide_banner"@, "-loglevel"@, "error"@, "-i"@, input, "-vn"@, "-c:a"@, "libopus"@,
        "-ac"@, "1"@, "-ar"@, "16000"@, "-b:a"@, "24k"@, "-vbr"@, "on"@, "-application"@, "voip"@,
        "-frame_duration"@, "20"@, output]
}

fn push_arg(args: &mut Vec<String>, a: &str)
    ensures
        views(final(args)@) == views(old(args)@).push(a@),
{
    let ghost before = args@;
    args.push(a.to_owned());
    assert(views(args@) == views(before).push(a@));
}

pub fn opus_encode_args(input: &str, output: &str) -> (r: Vec<String>)
    ensures
        views(r@) == opus_args_spec(input@, output@),
{
    let mut a: Vec<String> = Vec::new();
    push_arg(&mut a, "-y");
    push_arg(&mut a, "-hide_banner");
    push_arg(&mut a, "-loglevel");
    push_arg(&mut a, "error");
    push_arg(&mut a, "-i");
    push_arg(&mut a, input);
    push_arg(&mut a, "-vn");
    push_arg(&mut a, "-c:a");
    push_arg(&mut a, "libopus");
    push_arg(&mut a, "-ac");
    push_arg(&mut a, "1");
    push_arg(&mut a, "-ar");
    push_arg(&mut a, "16000");
    push_arg(&mut a, "-b:a");
    push_arg(&mut a, "24k");
    push_arg(&mut a, "-vbr");
    push_arg(&mut a, "on");
    push_arg(&mut a, "-application");
    push_arg(&mut a, "voip");
    push_arg(&mut a, "-frame_duration");
    push_arg(&mut a, "20");
    push_arg(&mut a, output);
    assert(views(a@) == opus_args_spec(input@, output@));
    a
}

/// The last line of a text, trimmed (empty for a text without lines).
pub open spec fn last_line_trimmed(s: Seq<char>) -> Seq<char> {
    let ls = lines(s);
    if ls.len() == 0 {
        seq![]
    } else {
        trim(ls.last())
    }
}

/// The error reported when `ffmpeg` exits unsuccessfully: its exit status
/// and the last line of its error output.
pub open spec fn ffmpeg_failure_text(status: Seq<char>, stderr: Seq<char>) -> Seq<char> {
    "ffmpeg failed ("@ + status + "): "@ + last_line_trimmed(stderr)
}

pub fn ffmpeg_failure_message(status: &str, stderr: &str) -> (r: String)
    ensures
        r@ == ffmpeg_failure_text(status@, stderr@),
{
    let mut out = "ffmpeg failed (".to_owned();
    out.append(status);
    out.append("): ");
    let chars = chars_of(stderr);
    let ls = lines_of(&chars);
    if ls.len() > 0 {
        let last = &ls[ls.len() - 1];
        let (a, b) = trim_range(last, 0, last.len());
        assert(last@.subrange(0, last@.len() as int) == last@);
        let t = string_of_range(last, a, b);
        out.append(t.as_str());
    }
    out
}

/// Name of the temporary audio file of a process at an instant:
/// `ralume-stt-<pid>-<nanoseconds>.<ext>`.
pub open spec fn temp_audio_name_spec(pid: u32, nanos: u128, ext: Seq<char>) -> Seq<char> {
    "ralume-stt-"@ + crate::text::decimal(pid as nat) + "-"@ + crate::text::decimal(nanos as nat)
        + "."@ + ext
}

pub fn temp_audio_name(pid: u32, nanos: u128, ext: &str) -> (r: String)
    ensures
        r@ == temp_audio_name_spec(pid, nanos, ext@),
{
    let mut out = "ralume-stt-".to_owned();
    push_decimal(&mut out, pid as u64);
    out.append("-");
    push_decimal_u128(&mut out, nanos);
    out.append(".");
    out.append(ext);
    out
}

} // verus!
