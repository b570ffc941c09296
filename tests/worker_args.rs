use stageview::args::{
    build_h264_copy_args, build_input_url, build_mjpeg_args, build_worker_args, CodecSettings,
    FpsMode, OutputMode, Quality,
};

fn s(v: &[&str]) -> Vec<String> {
    v.iter().map(|x| x.to_string()).collect()
}

const COPY: [&str; 13] = [
    "-c:v", "copy", "-f", "mp4", "-movflags", "frag_keyframe+empty_moov+default_base_moof",
    "-frag_duration", "50000", "-min_frag_duration", "50000", "-flush_packets", "1", "-an",
];

#[test]
fn h264_copy_output() {
    assert_eq!(build_h264_copy_args(), s(&COPY));
}

#[test]
fn rtp_arguments() {
    let mut want = s(&["-hide_banner", "-loglevel", "error"]);
    want.extend(s(&[
        "-analyzeduration", "10000000", "-probesize", "10000000", "-fflags",
        "+genpts+discardcorrupt+fastseek", "-flags", "low_delay", "-thread_queue_size", "512",
        "-i", "rtp://239.0.0.1:5004",
    ]));
    want.extend(s(&COPY));
    want.push("pipe:1".to_string());
    assert_eq!(build_worker_args("rtp://239.0.0.1:5004", OutputMode::Fmp4Copy), want);
}

#[test]
fn udp_url_joins_the_group() {
    assert_eq!(build_input_url("udp://239.1.1.1:1234"), "udp://@239.1.1.1:1234?timeout=10000000");
    assert_eq!(build_input_url("udp://@239.1.1.1:1234"), "udp://@239.1.1.1:1234?timeout=10000000");
    assert_eq!(build_input_url("udp://@@h:1"), "udp://@h:1?timeout=10000000");
    // only one scheme prefix is removed
    assert_eq!(build_input_url("udp://udp://h:1"), "udp://@udp://h:1?timeout=10000000");
    assert_eq!(build_input_url("rtsp://cam/x"), "rtsp://cam/x");
    let a = build_worker_args("udp://239.1.1.1:1234", OutputMode::Fmp4Copy);
    assert_eq!(
        &a[3..17],
        &s(&[
            "-analyzeduration", "10000000", "-probesize", "10000000", "-fflags",
            "+genpts+discardcorrupt+fastseek", "-flags", "low_delay", "-thread_queue_size", "512",
            "-buffer_size", "2000000", "-overrun_nonfatal", "1",
        ])[..]
    );
    assert!(a.contains(&"udp://@239.1.1.1:1234?timeout=10000000".to_string()));
}

#[test]
fn rtsp_srt_and_other_preambles() {
    let a = build_worker_args("rtsp://cam/stream", OutputMode::Fmp4Copy);
    let i = a.iter().position(|x| x == "-rtsp_transport").unwrap();
    assert_eq!(a[i + 1], "tcp");
    assert_eq!(a[a.iter().position(|x| x == "-stimeout").unwrap() + 1], "10000000");
    let a = build_worker_args("srt://host:9000", OutputMode::Fmp4Copy);
    assert_eq!(a[a.iter().position(|x| x == "-timeout").unwrap() + 1], "10000000");
    let a = build_worker_args("http://host/video", OutputMode::Fmp4Copy);
    assert_eq!(a[a.iter().position(|x| x == "-rw_timeout").unwrap() + 1], "10000000");
    assert_eq!(a[a.iter().position(|x| x == "-fflags").unwrap() + 1], "+nobuffer+discardcorrupt");
    assert_eq!(a.last().unwrap(), "pipe:1");
}

#[test]
fn mjpeg_output_by_quality() {
    let low = CodecSettings { quality: Quality::Low, fps_mode: FpsMode::Native };
    assert_eq!(build_mjpeg_args(low), s(&["-c:v", "mjpeg", "-q:v", "10", "-r", "10", "-f", "image2pipe", "-an"]));
    let med = CodecSettings { quality: Quality::Medium, fps_mode: FpsMode::Native };
    assert_eq!(build_mjpeg_args(med), s(&["-c:v", "mjpeg", "-q:v", "5", "-r", "15", "-f", "image2pipe", "-an"]));
    let high = CodecSettings { quality: Quality::High, fps_mode: FpsMode::Native };
    assert_eq!(build_mjpeg_args(high), s(&["-c:v", "mjpeg", "-q:v", "3", "-f", "image2pipe", "-an"]));
    let capped = CodecSettings { quality: Quality::High, fps_mode: FpsMode::Capped(25) };
    assert_eq!(build_mjpeg_args(capped), s(&["-c:v", "mjpeg", "-q:v", "3", "-r", "25", "-f", "image2pipe", "-an"]));
    let a = build_worker_args("http://x", OutputMode::Mjpeg(med));
    assert_eq!(&a[a.len() - 10..], &s(&["-c:v", "mjpeg", "-q:v", "5", "-r", "15", "-f", "image2pipe", "-an", "pipe:1"])[..]);
}
