use twixelbox_bot::event_loop::EventLoop;
use twixelbox_bot::pacing::PacingError;
use twixelbox_bot::pacing::PacingStats;
use twixelbox_bot::pacing::frames_lost;
use twixelbox_bot::parser::ChatCommand;
use twixelbox_bot::Cube;

#[test]
fn test_accepted_command_reaches_canvas() {
    let mut el = EventLoop::new(500, 2000, 0);
    let cmd = ChatCommand::parse("10 10 10 255 0 0").unwrap();
    let accepted = el.on_command(&cmd);
    // The caller now owes the command to the archive.
    assert!(accepted);
    assert_eq!(el.canvas.get(10, 10, 10), Some((255, 0, 0)));
}

#[test]
fn test_rejected_color_leaves_canvas_unchanged() {
    let mut el = EventLoop::new(500, 2000, 0);
    let parsed = ChatCommand::parse("10 10 10 256 0 0");
    assert!(parsed.is_err());
    if let Ok(cmd) = parsed {
        el.on_command(&cmd);
    }
    assert_eq!(el.canvas.len(), 0);
    assert_eq!(el.canvas.get(10, 10, 10), None);
}

#[test]
fn test_out_of_bounds_command_dropped() {
    let mut el = EventLoop::new(500, 2000, 0);
    let cmd = ChatCommand::parse("500 0 0 1 2 3").unwrap();
    let accepted = el.on_command(&cmd);
    assert!(!accepted);
    assert_eq!(el.canvas.len(), 0);
}

#[test]
fn test_startup_replays_archive() {
    let mut el = EventLoop::new(500, 2000, 0);
    let events = vec![
        Cube {
            position: (3, 3, 3),
            colour: (1, 2, 3),
        },
        Cube {
            position: (3, 3, 3),
            colour: (4, 5, 6),
        },
    ];
    el.startup(&events);
    assert_eq!(el.canvas.get(3, 3, 3), Some((4, 5, 6)));
    assert_eq!(el.canvas.len(), 1);
}

#[test]
fn test_frames_lost_boundaries() {
    // Shorter than one interval: nothing lost.
    assert_eq!(frames_lost(9, 10), 0);
    // Exactly one interval: the floor is exact, one frame lost.
    assert_eq!(frames_lost(10, 10), 1);
    // 3.7 intervals: three whole frames lost.
    assert_eq!(frames_lost(37, 10), 3);
}

#[test]
fn test_advance_computes_deadline() {
    let mut stats = PacingStats::new(0);
    let lost = stats.advance(100, 25, 10).unwrap();
    assert_eq!(lost, 2);
    assert_eq!(stats.next_expected_deadline, 130);
    assert_eq!(stats.last_render_duration, 25);
    assert_eq!(stats.cumulative_lost_frames, 2);
}

#[test]
fn test_advance_overflow_is_fatal() {
    let mut stats = PacingStats::new(0);
    let r = stats.advance(u64::MAX, 5, 10);
    assert_eq!(r, Err(PacingError::DeadlineOverflow));
    // The statistics are untouched on the fatal path.
    assert_eq!(stats.next_expected_deadline, 0);
    assert_eq!(stats.cumulative_lost_frames, 0);
}

#[test]
fn test_two_ticks_one_slow_render() {
    // Frame interval 10 ms; the render between the two ticks takes 25 ms,
    // i.e. 2.5 intervals.
    let mut el = EventLoop::new(500, 10, 0);
    let mut renders: u32 = 0;

    // First tick arrives at its deadline and starts a render.
    assert!(el.tick_due(0));
    renders += 1;
    let lost = el.on_render_complete(0, 25).unwrap();
    // Two whole intervals were burnt...
    assert_eq!(lost, 2);
    // ...and the next deadline advances by three intervals from the attempt.
    assert_eq!(el.pacing.next_expected_deadline, 30);

    // The second tick arrives when the render ends, at 25 ms: too early.
    if el.tick_due(25) {
        renders += 1;
    }
    assert_eq!(renders, 1);
    assert_eq!(el.pacing.cumulative_lost_frames, 2);
}

#[test]
fn test_early_tick_skipped() {
    let mut el = EventLoop::new(500, 10, 5);
    assert!(!el.tick_due(4));
    assert!(el.tick_due(5));
    let lost = el.on_render_complete(5, 3).unwrap();
    assert_eq!(lost, 0);
    assert_eq!(el.pacing.next_expected_deadline, 15);
}
