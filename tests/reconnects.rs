use stageview::supervisor::is_startup_noise;
use stageview::supervisor::{calculate_backoff, AttemptOutcome, EventKind, Supervisor};

fn statuses(r: &stageview::supervisor::Retry) -> Vec<String> {
    r.events
        .iter()
        .map(|e| match &e.kind {
            EventKind::Status(s) => format!("status:{}", s),
            EventKind::StreamError(s) => format!("error:{}", s),
        })
        .collect()
}

#[test]
fn backoff_schedule() {
    let want = [(1, 1), (2, 2), (3, 4), (4, 8), (5, 16), (6, 60), (10, 60), (11, 300), (50, 300)];
    for (a, s) in want {
        assert_eq!(calculate_backoff(a), s, "attempt {}", a);
    }
    assert_eq!(calculate_backoff(0), 300);
    assert_eq!(calculate_backoff(u32::MAX), 300);
}

#[test]
fn repeated_spawn_failures() {
    let mut s = Supervisor::new("cam1".to_string());
    let mut waits = Vec::new();
    for n in 1..=11u32 {
        let e = s.begin_attempt();
        assert!(matches!(&e.kind, EventKind::Status(st) if st == "connecting"));
        assert_eq!(s.attempt(), n);
        let r = s.end_attempt(&AttemptOutcome::Failed("spawn failed".to_string()));
        let has_error = r.events.iter().any(|e| matches!(e.kind, EventKind::StreamError(_)));
        assert_eq!(has_error, n >= 3, "attempt {}", n);
        waits.push(r.wait_secs);
    }
    assert_eq!(waits, vec![1, 2, 4, 8, 16, 60, 60, 60, 60, 60, 300]);
}

#[test]
fn failure_events_in_order() {
    let mut s = Supervisor::new("cam1".to_string());
    for _ in 0..2 {
        s.begin_attempt();
        s.end_attempt(&AttemptOutcome::Failed("x".to_string()));
    }
    s.begin_attempt();
    let r = s.end_attempt(&AttemptOutcome::Failed("read timeout".to_string()));
    assert_eq!(
        statuses(&r),
        vec![
            "error:Stream failed (attempt 3): read timeout".to_string(),
            "status:reconnecting (attempt 3)".to_string(),
        ]
    );
}

#[test]
fn long_waits_shown_in_minutes() {
    let mut s = Supervisor::new("c".to_string());
    let mut last = None;
    for _ in 0..11 {
        s.begin_attempt();
        last = Some(s.end_attempt(&AttemptOutcome::Failed("e".to_string())));
    }
    let r = last.unwrap();
    assert_eq!(statuses(&r).last().unwrap(), "status:reconnecting (5m wait)");
    let mut s = Supervisor::new("c".to_string());
    for _ in 0..5 {
        s.begin_attempt();
        s.end_attempt(&AttemptOutcome::Failed("e".to_string()));
    }
    s.begin_attempt();
    let r = s.end_attempt(&AttemptOutcome::Failed("e".to_string()));
    assert_eq!(statuses(&r).last().unwrap(), "status:reconnecting (1m wait)");
}

#[test]
fn online_resets_counter() {
    let mut s = Supervisor::new("cam".to_string());
    s.begin_attempt();
    s.end_attempt(&AttemptOutcome::Failed("e".to_string()));
    s.begin_attempt();
    assert_eq!(s.counter(), 2);
    let e = s.went_online();
    assert!(matches!(&e.kind, EventKind::Status(st) if st == "online"));
    assert_eq!(s.counter(), 0);
    let r = s.end_attempt(&AttemptOutcome::Ended { frames: 40 });
    assert_eq!(r.wait_secs, 2);
    // a camera that came online goes offline when its worker ends
    assert_eq!(
        statuses(&r),
        vec!["status:offline".to_string(), "status:reconnecting (attempt 2)".to_string()]
    );
    assert_eq!(s.counter(), 0);
    s.begin_attempt();
    assert_eq!(s.attempt(), 1);
    let r = s.end_attempt(&AttemptOutcome::Failed("read timeout".to_string()));
    assert!(statuses(&r).contains(&"status:offline".to_string()) == false);
}

#[test]
fn clean_end_without_frames_goes_offline() {
    let mut s = Supervisor::new("cam".to_string());
    s.begin_attempt();
    let r = s.end_attempt(&AttemptOutcome::Ended { frames: 0 });
    assert_eq!(
        statuses(&r),
        vec!["status:offline".to_string(), "status:reconnecting (attempt 1)".to_string()]
    );
    // no unit was produced: the counter keeps counting
    assert_eq!(s.counter(), 1);
    s.begin_attempt();
    assert_eq!(s.attempt(), 2);
}

#[test]
fn online_attempt_that_fails_goes_offline() {
    let mut s = Supervisor::new("cam".to_string());
    s.begin_attempt();
    s.went_online();
    let r = s.end_attempt(&AttemptOutcome::Failed("read timeout".to_string()));
    assert_eq!(
        statuses(&r),
        vec!["status:offline".to_string(), "status:reconnecting (attempt 1)".to_string()]
    );
}

#[test]
fn events_carry_only_their_camera() {
    let mut a = Supervisor::new("A".to_string());
    let b = Supervisor::new("B".to_string());
    for _ in 0..4 {
        assert_eq!(a.begin_attempt().camera_id, "A");
        let r = a.end_attempt(&AttemptOutcome::Failed("boom".to_string()));
        assert!(r.events.iter().all(|e| e.camera_id == "A"));
    }
    assert_eq!(b.counter(), 0);
    assert_eq!(b.camera_id(), "B");
}

#[test]
fn stop_reports_each_camera_offline_once() {
    let events = stageview::supervisor::offline_events(vec!["a".to_string(), "b".to_string()]);
    let got: Vec<(String, String)> = events
        .iter()
        .map(|e| match &e.kind {
            EventKind::Status(s) => (e.camera_id.clone(), s.clone()),
            EventKind::StreamError(s) => (e.camera_id.clone(), format!("error {}", s)),
        })
        .collect();
    assert_eq!(got, vec![("a".to_string(), "offline".to_string()), ("b".to_string(), "offline".to_string())]);
    assert!(stageview::supervisor::offline_events(vec![]).is_empty());
}

#[test]
fn startup_noise_lines() {
    assert!(is_startup_noise("[h264 @ 0x1] non-existing PPS 0 referenced"));
    assert!(is_startup_noise("non-existing SPS 0 referenced in buffering period"));
    assert!(is_startup_noise("[h264] no frame!"));
    assert!(is_startup_noise("    Last message repeated 3 times"));
    assert!(!is_startup_noise("Connection refused"));
    assert!(!is_startup_noise(""));
}
