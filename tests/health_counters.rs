use stageview::health::{reported_uptime, HealthTracker};

#[test]
fn deltas_between_ticks() {
    let mut t = HealthTracker::new();
    let d = t.tick(40, 10_000);
    assert_eq!((d.frames, d.bytes), (40, 10_000));
    let d = t.tick(100, 25_000);
    assert_eq!((d.frames, d.bytes), (60, 15_000));
    let d = t.tick(100, 25_000);
    assert_eq!((d.frames, d.bytes), (0, 0));
    // a counter that went back (a new attempt) counts as no progress
    let d = t.tick(5, 1_000);
    assert_eq!((d.frames, d.bytes), (0, 0));
    let d = t.tick(8, 1_500);
    assert_eq!((d.frames, d.bytes), (3, 500));
}

#[test]
fn uptime_at_least_one_second() {
    assert_eq!(reported_uptime(0), 1);
    assert_eq!(reported_uptime(1), 1);
    assert_eq!(reported_uptime(3600), 3600);
}
