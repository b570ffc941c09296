use stageview::mjpeg::{MjpegParser, MAX_FRAME_LEN};

fn jpeg(fill: u8, len: usize) -> Vec<u8> {
    let mut f = vec![0xff, 0xd8];
    f.resize(len - 2, fill);
    f.extend_from_slice(&[0xff, 0xd9]);
    f
}

#[test]
fn frames_split_on_markers() {
    let a = jpeg(1, 150);
    let b = jpeg(2, 300);
    let mut stream = vec![0u8, 7, 7];
    stream.extend(&a);
    stream.extend([9u8, 9]);
    stream.extend(&b);
    let mut p = MjpegParser::new();
    assert_eq!(p.feed(&stream), vec![a.clone(), b.clone()]);
    for n in [1usize, 2, 3, 64] {
        let mut p = MjpegParser::new();
        let mut got = Vec::new();
        for c in stream.chunks(n) {
            got.extend(p.feed(c));
        }
        assert_eq!(got, vec![a.clone(), b.clone()], "chunk size {}", n);
    }
}

#[test]
fn small_frames_dropped() {
    let mut p = MjpegParser::new();
    assert!(p.feed(&jpeg(1, 99)).is_empty());
    assert_eq!(p.feed(&jpeg(1, 100)).len(), 1);
}

#[test]
fn second_start_discards_open_frame() {
    let mut partial = vec![0xff, 0xd8];
    partial.extend(vec![5u8; 200]);
    let whole = jpeg(6, 120);
    let mut p = MjpegParser::new();
    let got = p.feed(&[partial, whole.clone()].concat());
    assert_eq!(got, vec![whole]);
}

#[test]
fn oversized_frame_abandoned() {
    let mut p = MjpegParser::new();
    let mut big = vec![0xff, 0xd8];
    big.resize(MAX_FRAME_LEN + 10, 3);
    big.extend_from_slice(&[0xff, 0xd9]);
    assert!(p.feed(&big).is_empty());
    assert_eq!(p.feed(&jpeg(4, 128)).len(), 1);
}
