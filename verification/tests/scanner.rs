use ralume::library::scanner::{
    format_duration, format_size, is_video, parse_ffprobe_output, recording_title,
    sort_newest_first, CalendarDate, Recording, Timestamp,
};

fn recording(path: &str, secs: i64, nanos: u32) -> Recording {
    Recording {
        path: path.to_string(),
        title: recording_title(path),
        created: Timestamp { secs, nanos },
        created_date: CalendarDate { year: 2024, month: 3, day: 5 },
        size_bytes: 0,
        duration_seconds: None,
        resolution: None,
        has_transcript: false,
    }
}

#[test]
fn duration_is_minutes_and_seconds_below_an_hour() {
    assert_eq!(format_duration(0), "00:00");
    assert_eq!(format_duration(59), "00:59");
    assert_eq!(format_duration(61), "01:01");
    assert_eq!(format_duration(3599), "59:59");
}

#[test]
fn duration_shows_hours_from_one_hour() {
    assert_eq!(format_duration(3600), "1:00:00");
    assert_eq!(format_duration(3661), "1:01:01");
    assert_eq!(format_duration(360_000), "100:00:00");
}

#[test]
fn size_picks_the_largest_unit() {
    assert_eq!(format_size(0), "0 B");
    assert_eq!(format_size(1023), "1023 B");
    assert_eq!(format_size(1024), "1 KB");
    assert_eq!(format_size(1024 * 1024 - 1), "1023 KB");
    assert_eq!(format_size(5 * 1024 * 1024 + 7), "5 MB");
    assert_eq!(format_size(1024 * 1024 * 1024), "1.0 GB");
    assert_eq!(format_size(1536 * 1024 * 1024), "1.5 GB");
}

#[test]
fn size_in_gigabytes_matches_float_formatting() {
    const GB: u64 = 1024 * 1024 * 1024;
    let mut samples: Vec<u64> = vec![
        GB,
        GB + 1,
        1_342_177_280,
        1_449_551_462,
        1_610_612_736,
        3 * GB / 2 + GB / 20,
        (1u64 << 53) - 1,
        1u64 << 53,
        (1u64 << 53) + 1,
        (1u64 << 53) + 3,
        (1u64 << 54) + 2,
        (1u64 << 60) + 12345,
        u64::MAX,
        u64::MAX - 1024,
    ];
    let mut x: u64 = GB;
    while x < u64::MAX / 3 {
        samples.push(x);
        samples.push(x + x / 7);
        x = x * 3 + 17;
    }
    for k in 0..200u64 {
        samples.push(GB + k * (GB / 20));
        samples.push(GB * 10 + k * (GB / 20) + GB / 40);
    }
    for b in samples {
        let expected = format!("{:.1} GB", b as f64 / GB as f64);
        assert_eq!(format_size(b), expected, "bytes = {}", b);
    }
}

#[test]
fn displays_of_a_recording() {
    let mut r = recording("/v/clip.mkv", 0, 0);
    assert_eq!(r.duration_display(), "—");
    assert_eq!(r.resolution_display(), "—");
    r.duration_seconds = Some(125);
    r.resolution = Some((1920, 1080));
    r.size_bytes = 2048;
    assert_eq!(r.duration_display(), "02:05");
    assert_eq!(r.resolution_display(), "1920×1080");
    assert_eq!(r.size_display(), "2 KB");
    assert_eq!(r.date_display(), "05.03.2024");
}

#[test]
fn date_display_matches_chrono() {
    let dates = [(2024, 3, 5), (5, 12, 31), (0, 1, 1), (999, 10, 9), (9999, 7, 1), (10000, 2, 28), (-5, 6, 15), (-12345, 1, 2), (262142, 11, 11)];
    for (y, m, d) in dates {
        let mut r = recording("/v/a.mp4", 0, 0);
        r.created_date = CalendarDate { year: y, month: m, day: d };
        let expected = chrono::NaiveDate::from_ymd_opt(y, m, d).unwrap().format("%d.%m.%Y").to_string();
        assert_eq!(r.date_display(), expected);
    }
}

#[test]
fn videos_are_recognised_by_extension() {
    assert!(is_video("/home/u/Videos/rec.mp4"));
    assert!(is_video("rec.MKV"));
    assert!(is_video("a.b.WebM"));
    assert!(is_video("dir/rec.mp4/"));
    assert!(!is_video("notes.txt"));
    assert!(!is_video(".mp4"));
    assert!(!is_video("mp4"));
    assert!(!is_video("dir/.."));
    assert!(!is_video(""));
    assert!(!is_video("clip.mp4.part"));
}

#[test]
fn extension_agrees_with_std_path() {
    let paths = ["a.mp4", "/x/y.tar.gz", ".hidden", "..", "a/..", "/", "", "name.", "a/b.c/", "a/./b.d", "a/b.e/.", "é.ß.ü"];
    for p in paths {
        let expected = std::path::Path::new(p).extension().map(|e| e.to_string_lossy().into_owned());
        assert_eq!(ralume::path::extension(p), expected, "path = {}", p);
        let stem = std::path::Path::new(p).file_stem().map(|e| e.to_string_lossy().into_owned());
        assert_eq!(ralume::path::file_stem(p), stem, "path = {}", p);
    }
}

#[test]
fn titles_come_from_the_file_stem() {
    assert_eq!(recording_title("/v/My video.mkv"), "My video");
    assert_eq!(recording_title("/v/archive.tar.mp4"), "archive.tar");
    assert_eq!(recording_title("/"), "Без названия");
    assert_eq!(recording_title("/v/.."), "Без названия");
}

#[test]
fn newest_recordings_come_first_and_ties_keep_their_order() {
    let input = vec![
        recording("a.mp4", 10, 0),
        recording("b.mp4", 30, 0),
        recording("c.mp4", 10, 0),
        recording("d.mp4", 30, 5),
        recording("e.mp4", 20, 0),
        recording("f.mp4", 30, 0),
    ];
    let sorted = sort_newest_first(input);
    let names: Vec<&str> = sorted.iter().map(|r| r.path.as_str()).collect();
    assert_eq!(names, vec!["d.mp4", "b.mp4", "f.mp4", "e.mp4", "a.mp4", "c.mp4"]);
}

#[test]
fn ffprobe_output_gives_duration_and_resolution() {
    let m = parse_ffprobe_output("width=1920\nheight=1080\nduration=12.500000\n");
    assert_eq!(m.duration_text.as_deref(), Some("12.500000"));
    assert_eq!(m.resolution, Some((1920, 1080)));

    let m = parse_ffprobe_output(" width = 640 \r\nheight=+480\r\nduration=N/A\r\n");
    assert_eq!(m.duration_text.as_deref(), Some("N/A"));
    assert_eq!(m.resolution, Some((640, 480)));

    let m = parse_ffprobe_output("width=1280\nheight=oops\n");
    assert_eq!(m.duration_text, None);
    assert_eq!(m.resolution, None);

    let m = parse_ffprobe_output("duration=1.0\nduration=2.0\nwidth=1\nwidth=x\nheight=2");
    assert_eq!(m.duration_text.as_deref(), Some("2.0"));
    assert_eq!(m.resolution, None);

    let m = parse_ffprobe_output("");
    assert_eq!(m.duration_text, None);
    assert_eq!(m.resolution, None);
}
