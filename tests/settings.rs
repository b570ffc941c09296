use stageview::config::{default_api_port, default_true, AppConfig, WindowState};

#[test]
fn defaults() {
    assert!(default_true());
    assert_eq!(default_api_port(), 8090);
    let c = AppConfig::default();
    assert!(c.cameras.is_empty());
    assert_eq!(c.shuffle_interval_secs, 900);
    assert!(c.show_status_dots && c.show_camera_names);
    assert_eq!(c.api_port, 8090);
    let w = WindowState::default();
    assert_eq!((w.x, w.y, w.width, w.height, w.maximized), (100, 100, 1280, 720, false));
}

#[test]
fn window_state_sanitized() {
    let ok = WindowState { x: 10, y: -500, width: 800, height: 600, maximized: true };
    let s = ok.sanitized();
    assert_eq!((s.x, s.y, s.width, s.height, s.maximized), (10, -500, 800, 600, true));
    let off = WindowState { x: 20000, y: 5, width: 199, height: 600, maximized: false };
    let s = off.sanitized();
    assert_eq!((s.x, s.y, s.width, s.height), (100, 100, 1280, 720));
    let tall = WindowState { x: 0, y: 10001, width: 10000, height: 10001, maximized: false };
    let s = tall.sanitized();
    assert_eq!((s.x, s.y, s.width, s.height), (100, 100, 1280, 720));
    let edge = WindowState { x: -500, y: 10000, width: 200, height: 150, maximized: false };
    let s = edge.sanitized();
    assert_eq!((s.x, s.y, s.width, s.height), (-500, 10000, 200, 150));
}
