use ralume::transcription::client::{
    backoff_secs, format_diarized, is_retryable, ResponseFields, SegmentFields,
};
use ralume::transcription::TranscriptionError;

fn said(speaker: &str, text: &str) -> SegmentFields {
    SegmentFields {
        start: None,
        end: None,
        text: Some(text.to_string()),
        speaker: Some(speaker.to_string()),
        speaker_id: None,
    }
}

#[test]
fn backoff_doubles() {
    assert_eq!(backoff_secs(0), 1);
    assert_eq!(backoff_secs(1), 2);
    assert_eq!(backoff_secs(2), 4);
}

#[test]
fn diarized_parses_as_dialogue() {
    let v = ResponseFields {
        text: None,
        segments: Some(vec![
            said("speaker_0", "Привет."),
            said("speaker_0", "Как дела?"),
            said("speaker_1", "Нормально."),
            said("speaker_0", "Хорошо."),
        ]),
        results: None,
    };
    let out = format_diarized(&v).unwrap();
    assert_eq!(
        out,
        "Speaker 1: Привет. Как дела?\n\nSpeaker 2: Нормально.\n\nSpeaker 1: Хорошо."
    );
}

#[test]
fn retryable_on_429_and_5xx() {
    let err = TranscriptionError::Api {
        status: 429,
        body: "".into(),
    };
    assert!(is_retryable(&err));
    let err = TranscriptionError::Api {
        status: 503,
        body: "".into(),
    };
    assert!(is_retryable(&err));
    let err = TranscriptionError::Api {
        status: 401,
        body: "".into(),
    };
    assert!(!is_retryable(&err));
}
