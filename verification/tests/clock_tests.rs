use phys_rs::clock::{FrameCounter, SimulationClock};

#[test]
fn clock_starts_paused_at_tick_zero() {
    let c = SimulationClock::default();
    assert_eq!(c.tick, 0);
    assert!(c.paused);
}

#[test]
fn clock_ticks_pauses_and_resets() {
    let mut c = SimulationClock::default();
    c.toggle_pause();
    assert!(!c.paused);
    for _ in 0..5 {
        c.advance_tick();
    }
    assert_eq!(c.tick, 5);
    c.toggle_pause();
    c.toggle_pause();
    assert!(!c.paused);
    assert_eq!(c.tick, 5);
    c.pause_for_step();
    assert!(c.paused);
    assert_eq!(c.tick, 5);
    c.reset();
    assert_eq!(c.tick, 0);
    assert!(c.paused);
}

#[test]
fn frame_report_every_sixty_frames() {
    let mut f = FrameCounter::default();
    let mut reports = Vec::new();
    for _ in 0..150 {
        if f.count_frame() {
            reports.push(f.frame_count);
        }
    }
    assert_eq!(reports, vec![60, 120]);
    assert_eq!(f.frame_count, 150);
}
