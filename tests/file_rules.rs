use stageview::files::{dev_binary_name, log_is_stale, sidecar_binary_name};

#[test]
fn stale_logs() {
    let day = 86_400u64;
    let now = 100 * day;
    assert!(log_is_stale(Some("stageview.log.2024-01-01"), now - 31 * day, now, 30));
    assert!(!log_is_stale(Some("stageview.log.2024-01-01"), now - 30 * day, now, 30));
    assert!(!log_is_stale(Some("other.log"), 0, now, 30));
    assert!(log_is_stale(None, 0, now, 30));
    assert!(!log_is_stale(Some("stageview.log"), 0, now, u64::MAX));
}

#[test]
fn binary_names() {
    assert_eq!(sidecar_binary_name(true), "ffmpeg.exe");
    assert_eq!(sidecar_binary_name(false), "ffmpeg");
    assert_eq!(dev_binary_name(true, false, "x86_64"), "ffmpeg-x86_64-pc-windows-msvc.exe");
    assert_eq!(dev_binary_name(false, true, "aarch64"), "ffmpeg-aarch64-apple-darwin");
    assert_eq!(dev_binary_name(false, false, "x86_64"), "ffmpeg-x86_64-unknown-linux-gnu");
}
