use ralume::transcription::{friendly_message, text_output_path, TranscriptionError};

#[test]
fn friendly_messages_cover_common_cases() {
    assert!(friendly_message(&TranscriptionError::NoApiKey).contains("API-ключ"));
    assert!(friendly_message(&TranscriptionError::Api {
        status: 401,
        body: "bad".into()
    })
    .contains("Неверный"));
    assert!(friendly_message(&TranscriptionError::Api {
        status: 503,
        body: "".into()
    })
    .contains("недоступен"));
}

#[test]
fn text_output_path_swaps_extension() {
    let p = "/tmp/test.mp4";
    assert_eq!(text_output_path(p), "/tmp/test.txt");
}
