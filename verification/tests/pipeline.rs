use ralume::config::TranscriptionModel;
use ralume::transcription::audio::{
    ffmpeg_failure_message, opus_encode_args, temp_audio_name, MAX_UPLOAD_BYTES,
};
use ralume::transcription::chunks::{
    after_segment_run, mp3_part_pattern, AfterSegmentRun, SegmentRun,
    chunk_dir_name, clamp_segment_seconds, copy_segment_args, mp3_segment_args, needs_split,
    part_pattern, plan_from_parts, single_part_plan,
};
use ralume::transcription::{
    begin_transcription, finish_transcription, friendly_message, part_progress,
    text_output_path, TranscriptionError,
};

#[test]
fn only_files_above_the_limit_are_split() {
    assert_eq!(MAX_UPLOAD_BYTES, 25_165_824);
    assert!(!needs_split(4));
    assert!(!needs_split(MAX_UPLOAD_BYTES));
    assert!(needs_split(MAX_UPLOAD_BYTES + 1));
    let plan = single_part_plan("/tmp/x.webm");
    assert_eq!(plan.paths, vec!["/tmp/x.webm"]);
    assert!(plan.temp_dir.is_none());
}

#[test]
fn segment_length_is_clamped() {
    assert_eq!(clamp_segment_seconds(0), 60);
    assert_eq!(clamp_segment_seconds(600), 600);
    assert_eq!(clamp_segment_seconds(100_000), 1500);
}

#[test]
fn split_commands() {
    assert_eq!(part_pattern("/tmp/a.ogg"), "part-%03d.ogg");
    assert_eq!(part_pattern("/tmp/a"), "part-%03d.webm");
    assert_eq!(
        copy_segment_args("in.webm", "/t/part-%03d.webm", 600),
        vec!["-y", "-hide_banner", "-loglevel", "error", "-i", "in.webm", "-f", "segment", "-segment_time", "600", "-c", "copy", "/t/part-%03d.webm"]
    );
    assert_eq!(
        mp3_segment_args("in.webm", "/t/part-%03d.mp3", 60),
        vec!["-y", "-hide_banner", "-loglevel", "error", "-i", "in.webm", "-vn", "-ac", "1", "-c:a", "libmp3lame", "-b:a", "64k", "-f", "segment", "-segment_time", "60", "/t/part-%03d.mp3"]
    );
    assert_eq!(chunk_dir_name(42, 1_700_000_000_123_456_789), "ralume-stt-chunks-42-1700000000123456789");
}

#[test]
fn parts_are_planned_in_order() {
    let plan = plan_from_parts(vec![("/t/part-001.webm".to_string(), 10), ("/t/part-000.webm".to_string(), MAX_UPLOAD_BYTES)], "/t".to_string()).unwrap();
    assert_eq!(plan.paths, vec!["/t/part-000.webm", "/t/part-001.webm"]);
    assert_eq!(plan.temp_dir.as_deref(), Some("/t"));
    assert_eq!(plan_from_parts(Vec::new(), "/t".to_string()).unwrap_err(), "ffmpeg segment produced no output files");
}

#[test]
fn a_part_over_the_upload_limit_is_refused() {
    let parts = vec![("/t/part-000.webm".to_string(), 5), ("/t/part-001.webm".to_string(), MAX_UPLOAD_BYTES + 1)];
    assert_eq!(plan_from_parts(parts, "/t".to_string()).unwrap_err(), "ffmpeg segment produced a part larger than the upload limit");
}

#[test]
fn audio_encoding_command_and_errors() {
    let args = opus_encode_args("/v/rec.mkv", "/tmp/out.webm");
    assert_eq!(args, vec!["-y", "-hide_banner", "-loglevel", "error", "-i", "/v/rec.mkv", "-vn", "-c:a", "libopus", "-ac", "1", "-ar", "16000", "-b:a", "24k", "-vbr", "on", "-application", "voip", "-frame_duration", "20", "/tmp/out.webm"]);
    assert_eq!(ffmpeg_failure_message("exit status: 1", "warning\n  Invalid data found  \n"), "ffmpeg failed (exit status: 1): Invalid data found");
    assert_eq!(ffmpeg_failure_message("signal: 9", ""), "ffmpeg failed (signal: 9): ");
    assert_eq!(temp_audio_name(7, 99, "webm"), "ralume-stt-7-99.webm");
}

#[test]
fn transcription_needs_a_key() {
    assert!(matches!(begin_transcription("   ", "ru"), Err(TranscriptionError::NoApiKey)));
    let s = begin_transcription(" sk-test \n", " en ").unwrap();
    assert_eq!(s.api_key, "sk-test");
    assert_eq!(s.language, "en");
    assert_eq!(part_progress(0, 3), (1, 3));
    let r = finish_transcription(&vec!["one".to_string(), "two".to_string()], TranscriptionModel::Whisper1);
    assert_eq!(r.text, "one\n\ntwo");
    assert_eq!(r.chunks, 2);
    assert_eq!(r.model, TranscriptionModel::Whisper1);
}

#[test]
fn friendly_messages_for_every_error() {
    assert_eq!(friendly_message(&TranscriptionError::AudioPrep("no ffmpeg".into())), "Не удалось подготовить аудио: no ffmpeg");
    assert_eq!(friendly_message(&TranscriptionError::Http("DNS error: failed".into())), "Сеть недоступна — проверьте интернет-соединение");
    assert_eq!(friendly_message(&TranscriptionError::Http("failed to lookup address".into())), "Сеть недоступна — проверьте интернет-соединение");
    assert_eq!(friendly_message(&TranscriptionError::Http("timeout".into())), "Сеть: timeout");
    assert_eq!(friendly_message(&TranscriptionError::Api { status: 403, body: String::new() }), "Доступ запрещён — проверьте права ключа OpenAI");
    assert_eq!(friendly_message(&TranscriptionError::Api { status: 413, body: String::new() }), "Запись слишком большая для загрузки даже после чанкинга");
    assert_eq!(friendly_message(&TranscriptionError::Api { status: 429, body: String::new() }), "Превышен лимит запросов OpenAI — попробуйте позже");
    assert_eq!(friendly_message(&TranscriptionError::Api { status: 500, body: String::new() }), "Сервер OpenAI временно недоступен");
    let long = "я".repeat(130);
    let expected = format!("Ошибка API 400: {}", "я".repeat(120));
    assert_eq!(friendly_message(&TranscriptionError::Api { status: 400, body: long }), expected);
    assert_eq!(friendly_message(&TranscriptionError::Io("disk full".into())), "Ошибка записи файла: disk full");
    assert_eq!(TranscriptionError::Api { status: 418, body: "tea".into() }.message(), "api error 418: tea");
}

#[test]
fn transcript_paths_follow_std() {
    for p in ["/tmp/test.mp4", "/tmp/noext", "/tmp/a.b.mkv", "rel/x.webm", "/"] {
        let expected = std::path::Path::new(p).with_extension("txt").to_string_lossy().into_owned();
        assert_eq!(text_output_path(p), expected);
    }
}

#[test]
fn failed_cuts_fall_back_to_mp3_then_fail() {
    assert!(matches!(after_segment_run(SegmentRun::Copy, true), AfterSegmentRun::ListParts));
    assert!(matches!(after_segment_run(SegmentRun::Copy, false), AfterSegmentRun::RetryAsMp3));
    assert!(matches!(after_segment_run(SegmentRun::Mp3, true), AfterSegmentRun::ListParts));
    match after_segment_run(SegmentRun::Mp3, false) {
        AfterSegmentRun::Fail(m) => assert_eq!(m, "ffmpeg segment failed even with mp3 fallback"),
        other => panic!("unexpected {:?}", other),
    }
    assert_eq!(mp3_part_pattern(), "part-%03d.mp3");
}

#[test]
fn transcript_path_keeps_the_directory_and_is_stable() {
    for p in ["/v/rec.mkv", "rel/dir/a.b.webm", "/v/.hidden", "/v/noext", "/v/trailing/", "./x.mp4", "/"] {
        let once = text_output_path(p);
        let parent_before = std::path::Path::new(p).parent().map(|x| x.to_path_buf());
        let parent_after = std::path::Path::new(&once).parent().map(|x| x.to_path_buf());
        if std::path::Path::new(p).file_name().is_some() {
            assert_eq!(parent_after, parent_before, "{p}");
        }
        assert_eq!(text_output_path(&once), once, "{p}");
    }
    assert_eq!(text_output_path("/v/trailing/"), "/v/trailing.txt");
}
