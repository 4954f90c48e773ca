use ralume::config::TranscriptionModel;
use ralume::transcription::client::{
    after_failure, form_fields, mime_for, parse_diarized_segments, pretty_speaker,
    read_upload_response, response_format_for, AfterFailure, ResponseFields, SegmentFields,
};
use ralume::transcription::TranscriptionError;

fn seg(start: Option<f64>, end: Option<f64>, text: Option<&str>, speaker: Option<&str>, id: Option<i64>) -> SegmentFields {
    SegmentFields {
        start: start.map(f64::to_bits),
        end: end.map(f64::to_bits),
        text: text.map(|t| t.to_string()),
        speaker: speaker.map(|t| t.to_string()),
        speaker_id: id,
    }
}

fn fields(text: Option<&str>, segments: Option<Vec<SegmentFields>>) -> ResponseFields {
    ResponseFields { text: text.map(|t| t.to_string()), segments, results: None }
}

#[test]
fn speakers_are_numbered_from_one() {
    assert_eq!(pretty_speaker("speaker_0"), "Speaker 1");
    assert_eq!(pretty_speaker("speaker_41"), "Speaker 42");
    assert_eq!(pretty_speaker("A"), "A");
    assert_eq!(pretty_speaker("speaker_99999999999"), "speaker_99999999999");
    assert_eq!(pretty_speaker("s1_2"), "Speaker 13");
}

#[test]
fn mime_types_by_extension() {
    assert_eq!(mime_for("/t/a.mp3"), "audio/mpeg");
    assert_eq!(mime_for("/t/a.m4a"), "audio/mp4");
    assert_eq!(mime_for("/t/a.mp4"), "audio/mp4");
    assert_eq!(mime_for("/t/part-000.webm"), "audio/webm");
    assert_eq!(mime_for("a.wav"), "audio/wav");
    assert_eq!(mime_for("a.flac"), "audio/flac");
    assert_eq!(mime_for("a.ogg"), "audio/ogg");
    assert_eq!(mime_for("a.MP3"), "application/octet-stream");
    assert_eq!(mime_for("noext"), "application/octet-stream");
}

#[test]
fn request_format_and_form_fields() {
    assert_eq!(response_format_for(TranscriptionModel::Whisper1), "verbose_json");
    assert_eq!(response_format_for(TranscriptionModel::Gpt4oTranscribeDiarize), "diarized_json");
    assert_eq!(response_format_for(TranscriptionModel::Gpt4oTranscribe), "text");
    let f = form_fields(TranscriptionModel::Gpt4oTranscribeDiarize, "ru");
    let pairs: Vec<(&str, &str)> = f.iter().map(|(a, b)| (a.as_str(), b.as_str())).collect();
    assert_eq!(pairs, vec![("model", "gpt-4o-transcribe-diarize"), ("response_format", "diarized_json"), ("language", "ru"), ("chunking_strategy", "auto")]);
    let f = form_fields(TranscriptionModel::Whisper1, "");
    let pairs: Vec<(&str, &str)> = f.iter().map(|(a, b)| (a.as_str(), b.as_str())).collect();
    assert_eq!(pairs, vec![("model", "whisper-1"), ("response_format", "verbose_json")]);
}

#[test]
fn failed_status_is_an_api_error() {
    let r = read_upload_response(TranscriptionModel::Whisper1, 429, "slow down".to_string(), Err("x".to_string()));
    match r {
        Err(TranscriptionError::Api { status, body }) => {
            assert_eq!(status, 429);
            assert_eq!(body, "slow down");
        }
        other => panic!("unexpected {:?}", other),
    }
}

#[test]
fn plain_text_answers_are_taken_as_they_are() {
    let r = read_upload_response(TranscriptionModel::Gpt4oMiniTranscribe, 200, " hello \n".to_string(), Err("not json".to_string())).unwrap();
    assert_eq!(r.text, " hello \n");
    assert!(r.segments.is_none());
}

#[test]
fn undecodable_json_is_an_http_error() {
    match read_upload_response(TranscriptionModel::Whisper1, 200, "{".to_string(), Err("EOF while parsing".to_string())) {
        Err(TranscriptionError::Http(m)) => assert_eq!(m, "bad json: EOF while parsing"),
        other => panic!("unexpected {:?}", other),
    }
}

#[test]
fn verbose_json_keeps_timed_segments() {
    let v = fields(None, Some(vec![
        seg(Some(0.0), Some(1.5), Some(" Hi "), None, None),
        seg(None, Some(2.0), Some("lost"), None, None),
        seg(Some(1.5), None, Some("there"), None, None),
    ]));
    let r = read_upload_response(TranscriptionModel::Whisper1, 200, String::new(), Ok(v)).unwrap();
    assert_eq!(r.text, "Hi there");
    let segs = r.segments.unwrap();
    assert_eq!(segs.len(), 2);
    assert_eq!(f64::from_bits(segs[0].start_bits), 0.0);
    assert_eq!(f64::from_bits(segs[0].end_bits), 1.5);
    assert_eq!(segs[1].text, "there");
    assert_eq!(f64::from_bits(segs[1].end_bits), 1.5);
    let v = fields(Some("Full text."), Some(vec![]));
    let r = read_upload_response(TranscriptionModel::Whisper1, 201, String::new(), Ok(v)).unwrap();
    assert_eq!(r.text, "Full text.");
    assert!(r.segments.is_none());
}

#[test]
fn diarized_answers_become_dialogue_with_segments() {
    let v = ResponseFields {
        text: Some("ignored".to_string()),
        segments: None,
        results: Some(vec![
            seg(Some(0.0), Some(1.0), Some("Hello"), None, Some(0)),
            seg(None, None, Some("   "), Some("speaker_1"), None),
            seg(Some(2.0), Some(3.0), Some("Bye"), None, Some(-3)),
            seg(Some(3.0), None, Some("now"), None, None),
        ]),
    };
    let r = read_upload_response(TranscriptionModel::Gpt4oTranscribeDiarize, 200, String::new(), Ok(v.clone())).unwrap();
    assert_eq!(r.text, "Speaker 1: Hello\n\nSpeaker 4: Bye\n\nspeaker: now");
    let segs = r.segments.unwrap();
    assert_eq!(segs.len(), 3);
    assert_eq!(segs[0].speaker.as_deref(), Some("speaker_0"));
    assert_eq!(segs[1].speaker.as_deref(), Some("speaker_-3"));
    assert_eq!(segs[2].speaker, None);
    assert_eq!(f64::from_bits(segs[2].end_bits), 3.0);
    let direct = parse_diarized_segments(&v).unwrap();
    assert_eq!(direct.len(), 3);
}

#[test]
fn json_answers_fall_back_to_text_then_segments() {
    let v = fields(Some("plain"), None);
    let r = read_upload_response(TranscriptionModel::Gpt4oTranscribeDiarize, 200, String::new(), Ok(v)).unwrap();
    assert_eq!(r.text, "plain");
    let v = fields(Some(""), Some(vec![seg(None, None, Some(" a "), None, None), seg(None, None, None, None, None), seg(None, None, Some("b"), None, None)]));
    let r = read_upload_response(TranscriptionModel::Gpt4oTranscribeDiarize, 200, String::new(), Ok(v)).unwrap();
    assert_eq!(r.text, "Speaker 1: a b".replace("Speaker 1", "speaker"));
    let v = fields(None, None);
    let r = read_upload_response(TranscriptionModel::Gpt4oTranscribeDiarize, 200, String::new(), Ok(v)).unwrap();
    assert_eq!(r.text, "");
}

#[test]
fn retries_wait_longer_each_time_and_stop() {
    let net = TranscriptionError::Http("timeout".to_string());
    assert_eq!(after_failure(0, 3, &net), AfterFailure::WaitThenRetry(1));
    assert_eq!(after_failure(1, 3, &net), AfterFailure::WaitThenRetry(2));
    assert_eq!(after_failure(2, 3, &net), AfterFailure::GiveUp);
    assert_eq!(after_failure(0, 0, &net), AfterFailure::WaitThenGiveUp(1));
    let auth = TranscriptionError::Api { status: 401, body: String::new() };
    assert_eq!(after_failure(0, 3, &auth), AfterFailure::GiveUp);
    let busy = TranscriptionError::Api { status: 503, body: String::new() };
    assert_eq!(after_failure(3, 10, &busy), AfterFailure::WaitThenRetry(8));
}

#[test]
fn uploads_are_named_after_the_part() {
    assert_eq!(ralume::transcription::client::upload_file_name("/tmp/x/part-003.webm"), "part-003.webm");
    assert_eq!(ralume::transcription::client::upload_file_name("/"), "audio");
}
