//! OpenAI speech-to-text: error reporting, the path of the transcript, and
//! the decisions of a transcription run (the audio preparation, splitting and
//! upload themselves are performed by the caller).
pub mod audio;
pub mod chunks;
pub mod client;

use vstd::prelude::*;

use crate::config::TranscriptionModel;
use crate::path::{path_extension, path_file_name, path_stem, path_with_extension, with_extension};
use crate::text::{contains, join, join_strings, str_contains, trim, trimmed, views};

verus! {

/// What went wrong in a transcription.
#[derive(Clone, Debug)]
pub enum TranscriptionError {
    NoApiKey,
    AudioPrep(String),
    Http(String),
    Api { status: u16, body: String },
    /// A file could not be read or written; holds the system's message.
    Io(String),
}

pub enum ErrorView {
    NoApiKey,
    AudioPrep(Seq<char>),
    Http(Seq<char>),
    Api { status: u16, body: Seq<char> },
    Io(Seq<char>),
}

impl View for TranscriptionError {
    type V = ErrorView;

    open spec fn view(&self) -> ErrorView {
        match self {
            TranscriptionError::NoApiKey => ErrorView::NoApiKey,
            TranscriptionError::AudioPrep(e) => ErrorView::AudioPrep(e@),
            TranscriptionError::Http(e) => ErrorView::Http(e@),
            TranscriptionError::Api { status, body } => ErrorView::Api { status: *status, body: body@ },
            TranscriptionError::Io(e) => ErrorView::Io(e@),
        }
    }
}

pub open spec fn message_text(err: TranscriptionError) -> Seq<char> {
    match err {
        TranscriptionError::NoApiKey => "OpenAI API key is empty"@,
        TranscriptionError::AudioPrep(e) => "audio preparation failed: "@ + e@,
        TranscriptionError::Http(e) => "http error: "@ + e@,
        TranscriptionError::Api { status, body } => "api error "@ + crate::text::decimal(status as nat) + ": "@ + body@,
        TranscriptionError::Io(e) => "io: "@ + e@,
    }
}

impl TranscriptionError {
    /// The error's own description, as logged.
    pub fn message(&self) -> (r: String)
        ensures
            r@ == message_text(*self),
    {
        match self {
            TranscriptionError::NoApiKey => "OpenAI API key is empty".to_owned(),
            TranscriptionError::AudioPrep(e) => {
                let mut out = "audio preparation failed: ".to_owned();
                out.append(e.as_str());
                out
            },
            TranscriptionError::Http(e) => {
                let mut out = "http error: ".to_owned();
                out.append(e.as_str());
                out
            },
            TranscriptionError::Api { status, body } => {
                let mut out = "api error ".to_owned();
                crate::text::push_decimal(&mut out, *status as u64);
                out.append(": ");
                out.append(body.as_str());
                out
            },
            TranscriptionError::Io(e) => {
                let mut out = "io: ".to_owned();
                out.append(e.as_str());
                out
            },
        }
    }
}

/// The lower-case form of a string, as `str::to_lowercase` returns it.
pub uninterp spec fn lowercase(s: Seq<char>) -> Seq<char>;

/// `str::to_lowercase`. Its contract claims only that the result is a function
/// of the text, named `lowercase`.
#[verifier::external_body]
fn to_lowercase(s: &str) -> (r: String)
    ensures
        r@ == lowercase(s@),
{
    s.to_lowercase()
}

/// An HTTP error message that reports a failed name lookup.
pub open spec fn is_dns_failure(e: Seq<char>) -> bool {
    contains(lowercase(e), "dns"@) || contains(e, "failed to lookup"@)
}

/// The first `n` characters of `s` (all of them when shorter).
pub open spec fn first_chars(s: Seq<char>, n: nat) -> Seq<char> {
    if s.len() <= n {
        s
    } else {
        s.subrange(0, n as int)
    }
}

/// The message shown to the user for an error.
pub open spec fn friendly_text(err: TranscriptionError) -> Seq<char> {
    match err {
        TranscriptionError::NoApiKey => "Укажите API-ключ OpenAI в Настройках"@,
        TranscriptionError::AudioPrep(e) => "Не удалось подготовить аудио: "@ + e@,
        TranscriptionError::Http(e) => if is_dns_failure(e@) {
            "Сеть недоступна — проверьте интернет-соединение"@
        } else {
            "Сеть: "@ + e@
        },
        TranscriptionError::Api { status, body } => if status == 401 {
            "Неверный API-ключ OpenAI"@
        } else if status == 403 {
            "Доступ запрещён — проверьте права ключа OpenAI"@
        } else if status == 413 {
            "Запись слишком большая для загрузки даже после чанкинга"@
        } else if status == 429 {
            "Превышен лимит запросов OpenAI — попробуйте позже"@
        } else if status >= 500 {
            "Сервер OpenAI временно недоступен"@
        } else {
            "Ошибка API "@ + crate::text::decimal(status as nat) + ": "@ + first_chars(body@, 120)
        },
        TranscriptionError::Io(e) => "Ошибка записи файла: "@ + e@,
    }
}

/// The first `n` characters of `s`.
pub fn take_chars(s: &str, n: usize) -> (r: String)
    ensures
        r@ == first_chars(s@, n as nat),
{
    let v = crate::text::chars_of(s);
    let end = if v.len() <= n {
        v.len()
    } else {
        n
    };
    assert(v@.len() <= n ==> v@.subrange(0, v@.len() as int) == v@);
    crate::text::string_of_range(&v, 0, end)
}

/// A user-facing explanation of `err`.
pub fn friendly_message(err: &TranscriptionError) -> (r: String)
    ensures
        r@ == friendly_text(*err),
{
    match err {
        TranscriptionError::NoApiKey => "Укажите API-ключ OpenAI в Настройках".to_owned(),
        TranscriptionError::AudioPrep(e) => {
            let mut out = "Не удалось подготовить аудио: ".to_owned();
            out.append(e.as_str());
            out
        },
        TranscriptionError::Http(e) => {
            let lower = to_lowercase(e.as_str());
            if str_contains(lower.as_str(), "dns") || str_contains(e.as_str(), "failed to lookup") {
                "Сеть недоступна — проверьте интернет-соединение".to_owned()
            } else {
                let mut out = "Сеть: ".to_owned();
                out.append(e.as_str());
                out
            }
        },
        TranscriptionError::Api { status, body } => {
            if *status == 401 {
                "Неверный API-ключ OpenAI".to_owned()
            } else if *status == 403 {
                "Доступ запрещён — проверьте права ключа OpenAI".to_owned()
            } else if *status == 413 {
                "Запись слишком большая для загрузки даже после чанкинга".to_owned()
            } else if *status == 429 {
                "Превышен лимит запросов OpenAI — попробуйте позже".to_owned()
            } else if *status >= 500 {
                "Сервер OpenAI временно недоступен".to_owned()
            } else {
                let mut out = "Ошибка API ".to_owned();
                crate::text::push_decimal(&mut out, *status as u64);
                out.append(": ");
                let tail = take_chars(body.as_str(), 120);
                out.append(tail.as_str());
                out
            }
        },
        TranscriptionError::Io(e) => {
            let mut out = "Ошибка записи файла: ".to_owned();
            out.append(e.as_str());
            out
        },
    }
}

/// The path of the transcript written next to a video: its extension
/// replaced by `txt`. A transcript path is its own transcript path.
pub fn text_output_path(video_path: &str) -> (r: String)
    ensures
        r@ == path_with_extension(video_path@, "txt"@),
        path_file_name(video_path@) is None ==> r@ == video_path@,
        path_file_name(video_path@) is Some ==> path_extension(r@) == Some("txt"@) && path_stem(r@)
            == path_stem(video_path@),
        path_with_extension(r@, "txt"@) == r@,
{
    proof {
        reveal_strlit("txt");
    }
    with_extension(video_path, "txt")
}

/// The outcome of transcribing a recording.
#[derive(Clone, Debug)]
pub struct TranscriptionResult {
    pub text: String,
    pub model: TranscriptionModel,
    pub chunks: u32,
}


/// The API key and language sent with every upload, both trimmed.
#[derive(Clone, Debug)]
pub struct UploadSettings {
    pub api_key: String,
    pub language: String,
}

/// Checks the settings before any work: a blank API key is refused.
pub fn begin_transcription(api_key: &str, language: &str) -> (r: Result<
    UploadSettings,
    TranscriptionError,
>)
    ensures
        match r {
            Ok(s) => trim(api_key@).len() > 0 && s.api_key@ == trim(api_key@) && s.language@
                == trim(language@),
            Err(e) => trim(api_key@).len() == 0 && e@ == ErrorView::NoApiKey,
        },
{
    let key = trimmed(api_key);
    if key.unicode_len() == 0 {
        return Err(TranscriptionError::NoApiKey);
    }
    Ok(UploadSettings { api_key: key, language: trimmed(language) })
}

/// The progress reported before uploading part `index` (from 0) of `total`:
/// the part's number from 1, and the total.
pub fn part_progress(index: usize, total: usize) -> (r: (u32, u32))
    requires
        (index as u32) < u32::MAX,
    ensures
        r.0 == (index as u32) + 1,
        r.1 == total as u32,
{
    ((index as u32) + 1, total as u32)
}

/// The result of a run: the parts' transcripts joined by blank lines.
pub fn finish_transcription(texts: &Vec<String>, model: TranscriptionModel) -> (r: TranscriptionResult)
    ensures
        r.text@ == join(views(texts@), "\n\n"@),
        r.model == model,
        r.chunks == texts@.len() as u32,
{
    TranscriptionResult { text: join_strings(texts, "\n\n"), model, chunks: texts.len() as u32 }
}

} // verus!
