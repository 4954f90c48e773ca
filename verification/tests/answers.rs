use ralume::config::TranscriptionModel;
use ralume::transcription::client::{format_diarized, parse_diarized_segments, read_answer, ResponseFields, SegmentFields};
use ralume::transcription::TranscriptionError;

#[test]
fn whisper_json_answer_is_decoded() {
    let body = r#"{"text":"Hello world","segments":[{"start":0.0,"end":1.5,"text":" Hello "},{"start":1.5,"text":"world"},{"end":9,"text":"dropped"}]}"#;
    let u = read_answer(TranscriptionModel::Whisper1, 200, body.to_string()).unwrap().unwrap();
    assert_eq!(u.text, "Hello world");
    let segs = u.segments.unwrap();
    assert_eq!(segs.len(), 2);
    assert_eq!(segs[0].text, "Hello");
    assert_eq!(f64::from_bits(segs[0].start_bits), 0.0);
    assert_eq!(f64::from_bits(segs[0].end_bits), 1.5);
    assert_eq!(segs[1].text, "world");
    assert_eq!(f64::from_bits(segs[1].end_bits), 1.5);
}

#[test]
fn diarized_json_answer_becomes_dialogue() {
    let body = r#"{"segments":[{"speaker":"speaker_0","text":"Hi.","start":0,"end":1},{"speaker":"speaker_0","text":"How are you?","start":1,"end":2},{"speaker_id":1,"text":"Fine.","start":2.5,"end":3}]}"#;
    let u = read_answer(TranscriptionModel::Gpt4oTranscribeDiarize, 200, body.to_string()).unwrap().unwrap();
    assert_eq!(u.text, "Speaker 1: Hi. How are you?\n\nSpeaker 2: Fine.");
    let segs = u.segments.unwrap();
    assert_eq!(segs.len(), 3);
    assert_eq!(segs[2].speaker.as_deref(), Some("speaker_1"));
    assert_eq!(f64::from_bits(segs[2].start_bits), 2.5);
}

#[test]
fn diarized_results_list_is_read_when_segments_are_absent() {
    let body = r#"{"results":[{"speaker":"A","text":"x"}]}"#;
    let u = read_answer(TranscriptionModel::Gpt4oTranscribeDiarize, 200, body.to_string()).unwrap().unwrap();
    assert_eq!(u.text, "A: x");
}

#[test]
fn malformed_json_is_a_bad_json_error() {
    match read_answer(TranscriptionModel::Whisper1, 200, "{not json".to_string()) {
        Some(Err(TranscriptionError::Http(m))) => assert!(m.starts_with("bad json: "), "{m}"),
        _ => panic!("expected an HTTP error"),
    }
}

#[test]
fn answers_outside_success_are_not_decoded() {
    match read_answer(TranscriptionModel::Whisper1, 500, "{not json".to_string()) {
        Some(Err(TranscriptionError::Api { status, body })) => {
            assert_eq!(status, 500);
            assert_eq!(body, "{not json");
        },
        _ => panic!("expected an API error"),
    }
}

#[test]
fn plain_text_answers_are_not_decoded() {
    let u = read_answer(TranscriptionModel::Gpt4oTranscribe, 200, "{not json".to_string()).unwrap().unwrap();
    assert_eq!(u.text, "{not json");
    assert!(u.segments.is_none());
}

#[test]
fn a_speaker_number_past_u32_is_refused() {
    let body = r#"{"segments":[{"speaker":"speaker_4294967295","text":"x"}]}"#;
    assert!(read_answer(TranscriptionModel::Gpt4oTranscribeDiarize, 200, body.to_string()).is_none());
    assert!(read_answer(TranscriptionModel::Gpt4oTranscribeDiarize, 404, body.to_string()).is_some());
}

#[test]
fn fields_of_other_types_are_ignored() {
    let body = r#"{"text":5,"segments":[{"start":"0","text":"a"},{"start":1,"text":"b"},{"start":2,"text":null}]}"#;
    let u = read_answer(TranscriptionModel::Whisper1, 200, body.to_string()).unwrap().unwrap();
    assert_eq!(u.text, "b");
    assert_eq!(u.segments.unwrap().len(), 1);
}

#[test]
fn blank_diarized_answer_has_neither_segments_nor_dialogue() {
    let blank = ResponseFields {
        text: None,
        segments: Some(vec![SegmentFields {
            start: None,
            end: None,
            text: Some("  ".to_string()),
            speaker: Some("speaker_0".to_string()),
            speaker_id: None,
        }]),
        results: None,
    };
    assert!(parse_diarized_segments(&blank).is_none());
    assert!(format_diarized(&blank).is_none());
    let body = r#"{"segments":[{"speaker":"speaker_0","text":"  "}]}"#;
    let u = read_answer(TranscriptionModel::Gpt4oTranscribeDiarize, 200, body.to_string()).unwrap().unwrap();
    assert_eq!(u.text, "  ");
    assert!(u.segments.is_none());
}
