use ralume::ui::overlays::floating_toolbar::{pause_button_look, timer_text};
use ralume::ui::pages::ai::{ProcessingQueue, QueueStatus};

const ONE: u64 = 0x3FF0_0000_0000_0000;

#[test]
fn queue_lists_each_video_once() {
    let mut q = ProcessingQueue::new();
    q.enqueue("/v/a.mp4");
    q.enqueue("/v/b.mp4");
    q.mark_processing("/v/a.mp4", 0.5f64.to_bits());
    q.enqueue("/v/a.mp4");
    assert_eq!(q.items().len(), 2);
    assert_eq!(q.items()[0].video_path, "/v/a.mp4");
    assert!(matches!(q.items()[0].status, QueueStatus::Queued));
    assert_eq!(q.items()[0].progress_bits, 0);
    q.enqueue("/v//a.mp4");
    assert_eq!(q.items().len(), 2);
}

#[test]
fn queue_marks_progress_done_and_failure() {
    let mut q = ProcessingQueue::new();
    q.mark_processing("/v/c.mp4", 0.25f64.to_bits());
    assert_eq!(q.items().len(), 1);
    assert!(matches!(q.items()[0].status, QueueStatus::Processing));
    assert_eq!(f64::from_bits(q.items()[0].progress_bits), 0.25);
    q.mark_done("/v/c.mp4");
    assert!(matches!(q.items()[0].status, QueueStatus::Done));
    assert_eq!(q.items()[0].progress_bits, ONE);
    q.mark_done("/v/unknown.mp4");
    q.mark_failed("/v/unknown.mp4", "boom".to_string());
    assert_eq!(q.items().len(), 1);
    q.mark_failed("/v/c.mp4", "boom".to_string());
    assert!(matches!(&q.items()[0].status, QueueStatus::Failed(m) if m == "boom"));
    assert_eq!(q.items()[0].progress_bits, ONE);
}

#[test]
fn timer_text_pads_every_part() {
    assert_eq!(timer_text(0), "00:00:00");
    assert_eq!(timer_text(3725), "01:02:05");
    assert_eq!(timer_text(360_000), "100:00:00");
}

#[test]
fn pause_button_shows_what_a_click_does() {
    assert_eq!(pause_button_look(false), ("media-playback-pause-symbolic", "Пауза"));
    assert_eq!(pause_button_look(true), ("media-playback-start-symbolic", "Продолжить"));
}
