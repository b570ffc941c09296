use stageview::fmp4::{Fmp4Parser, Unit, MAX_PENDING};
use stageview::mp4::{count_samples_in_moof, is_keyframe_fragment, read_be32};

fn mk_box(kind: &[u8; 4], payload: &[u8]) -> Vec<u8> {
    let size = (payload.len() + 8) as u32;
    let mut b = size.to_be_bytes().to_vec();
    b.extend_from_slice(kind);
    b.extend_from_slice(payload);
    b
}

fn full_box(kind: &[u8; 4], flags: u32, rest: &[u8]) -> Vec<u8> {
    let mut p = vec![0u8, (flags >> 16) as u8, (flags >> 8) as u8, flags as u8];
    p.extend_from_slice(rest);
    mk_box(kind, &p)
}

/// A `trun` with `count` samples and, when given, first-sample flags.
fn trun(count: u32, first_flags: Option<u32>) -> Vec<u8> {
    let mut rest = count.to_be_bytes().to_vec();
    rest.extend_from_slice(&0u32.to_be_bytes());
    let mut flags = 0x1;
    if let Some(f) = first_flags {
        flags |= 0x4;
        rest.extend_from_slice(&f.to_be_bytes());
    }
    full_box(b"trun", flags, &rest)
}

/// A `tfhd` for track 1 with, when given, default sample flags.
fn tfhd(default_flags: Option<u32>) -> Vec<u8> {
    let mut rest = 1u32.to_be_bytes().to_vec();
    let mut flags = 0;
    if let Some(f) = default_flags {
        flags |= 0x20;
        rest.extend_from_slice(&f.to_be_bytes());
    }
    full_box(b"tfhd", flags, &rest)
}

fn moof_with(children: &[Vec<u8>]) -> Vec<u8> {
    let traf: Vec<u8> = children.concat();
    mk_box(b"moof", &mk_box(b"traf", &traf))
}

const SYNC: u32 = 0x0200_0000;
const NON_SYNC: u32 = 0x0101_0000;

/// An 80-byte `moof` whose only `trun` declares `count` samples.
fn moof80(count: u32, keyframe: bool) -> Vec<u8> {
    let flags = if keyframe { SYNC } else { NON_SYNC };
    let traf = mk_box(b"traf", &[tfhd(None), trun(count, Some(flags))].concat());
    let mfhd = mk_box(b"mfhd", &vec![0u8; 80 - 8 - traf.len() - 8]);
    let m = mk_box(b"moof", &[mfhd, traf].concat());
    assert_eq!(m.len(), 80);
    m
}

fn feed_in_chunks(bytes: &[u8], n: usize) -> Vec<Unit> {
    let mut p = Fmp4Parser::new();
    let mut out = Vec::new();
    for c in bytes.chunks(n) {
        out.extend(p.feed(c));
    }
    out
}

fn describe(units: &[Unit]) -> Vec<(u8, Vec<u8>, bool, u64)> {
    units
        .iter()
        .map(|u| match u {
            Unit::Init(b) => (0, b.clone(), false, 0),
            Unit::Fragment { data, keyframe, samples } => (1, data.clone(), *keyframe, *samples),
        })
        .collect()
}

#[test]
fn happy_path_in_seven_byte_chunks() {
    let ftyp = mk_box(b"ftyp", &[7u8; 8]);
    let moov = mk_box(b"moov", &[9u8; 192]);
    assert_eq!(ftyp.len(), 16);
    assert_eq!(moov.len(), 200);
    let counts = [3u32, 1, 2];
    let mut stream = [ftyp.clone(), moov.clone()].concat();
    let mut frags = Vec::new();
    for (i, c) in counts.iter().enumerate() {
        let moof = moof80(*c, i == 0);
        let mdat = mk_box(b"mdat", &vec![i as u8; 992]);
        assert_eq!(mdat.len(), 1000);
        frags.push([moof.clone(), mdat.clone()].concat());
        stream.extend_from_slice(&moof);
        stream.extend_from_slice(&mdat);
    }
    let units = feed_in_chunks(&stream, 7);
    assert_eq!(units.len(), 4);
    match &units[0] {
        Unit::Init(b) => assert_eq!(b, &[ftyp, moov].concat()),
        _ => panic!("first unit must be the initialization segment"),
    }
    let mut frames = 0;
    for (i, u) in units[1..].iter().enumerate() {
        match u {
            Unit::Fragment { data, keyframe, samples } => {
                assert_eq!(data, &frags[i]);
                assert_eq!(*keyframe, i == 0);
                frames += samples;
            }
            _ => panic!("expected a fragment"),
        }
    }
    assert_eq!(frames, 6);
}

#[test]
fn chunking_does_not_change_units() {
    let mut stream = [mk_box(b"ftyp", b"isom0000"), mk_box(b"moov", &[1u8; 40])].concat();
    for i in 0..4u32 {
        stream.extend(moof80(i + 1, i % 2 == 0));
        stream.extend(mk_box(b"mdat", &vec![i as u8; 50 + i as usize]));
        stream.extend(mk_box(b"free", &[0u8; 3]));
    }
    let whole = describe(&feed_in_chunks(&stream, stream.len()));
    assert_eq!(whole.len(), 5);
    for n in [1usize, 2, 3, 5, 7, 8, 13, 64, 1000] {
        assert_eq!(describe(&feed_in_chunks(&stream, n)), whole, "chunk size {}", n);
    }
}

#[test]
fn corrupt_size_resets_and_recovers() {
    let mut p = Fmp4Parser::new();
    let mut units = p.feed(&moof80(2, true));
    // a declared size of 4 is corrupt: the held fragment and the rest of the chunk are dropped
    let mut bad = vec![0u8, 0, 0, 4];
    bad.extend_from_slice(b"mdat");
    bad.extend(mk_box(b"mdat", &[1u8; 20]));
    units.extend(p.feed(&bad));
    assert!(units.is_empty());
    // the moof was dropped, so a lone mdat yields a fragment of the mdat only
    let mdat = mk_box(b"mdat", &[5u8; 30]);
    let units = p.feed(&mdat);
    assert_eq!(units.len(), 1);
    match &units[0] {
        Unit::Fragment { data, .. } => assert_eq!(data, &mdat),
        _ => panic!("expected a fragment"),
    }
}

#[test]
fn oversized_pending_buffer_resets() {
    let mut p = Fmp4Parser::new();
    let declared = (MAX_PENDING + 1024 * 1024) as u32;
    let mut chunk = declared.to_be_bytes().to_vec();
    chunk.extend_from_slice(b"mdat");
    chunk.resize(MAX_PENDING + 16, 0);
    assert!(p.feed(&chunk).is_empty());
    // held bytes were dropped: a fresh init segment parses from the next byte
    let init = [mk_box(b"ftyp", b"isom"), mk_box(b"moov", b"mvhd")].concat();
    let units = p.feed(&init);
    assert_eq!(units.len(), 1);
    match &units[0] {
        Unit::Init(b) => assert_eq!(b, &init),
        _ => panic!("expected the initialization segment"),
    }
}

#[test]
fn init_segment_is_handed_on_once() {
    let mut p = Fmp4Parser::new();
    let first = [mk_box(b"ftyp", b"isom"), mk_box(b"moov", b"one")].concat();
    assert_eq!(p.feed(&first).len(), 1);
    assert!(p.feed(&mk_box(b"moov", b"two")).is_empty());
}

#[test]
fn unknown_boxes_are_skipped() {
    let mut p = Fmp4Parser::new();
    assert!(p.feed(&mk_box(b"sidx", &[0u8; 12])).is_empty());
    assert!(p.feed(&mk_box(b"free", &[])).is_empty());
}

#[test]
fn keyframe_from_first_sample_flags() {
    assert!(is_keyframe_fragment(&moof_with(&[tfhd(Some(NON_SYNC)), trun(1, Some(SYNC))])));
    assert!(!is_keyframe_fragment(&moof_with(&[tfhd(Some(SYNC)), trun(1, Some(NON_SYNC))])));
}

#[test]
fn keyframe_from_default_flags() {
    assert!(!is_keyframe_fragment(&moof_with(&[tfhd(Some(NON_SYNC)), trun(4, None)])));
    assert!(is_keyframe_fragment(&moof_with(&[tfhd(Some(SYNC)), trun(4, None)])));
}

#[test]
fn keyframe_assumed_without_flags() {
    assert!(is_keyframe_fragment(&moof_with(&[tfhd(None), trun(2, None)])));
}

#[test]
fn no_keyframe_without_traf_or_when_short() {
    assert!(!is_keyframe_fragment(&mk_box(b"moof", &mk_box(b"mfhd", &[0u8; 8]))));
    assert!(!is_keyframe_fragment(&[0u8, 0, 0, 8, b'm', b'o', b'o', b'f']));
    assert!(!is_keyframe_fragment(&[]));
}

#[test]
fn samples_summed_over_truns() {
    let m = moof_with(&[tfhd(None), trun(5, None), trun(7, Some(SYNC))]);
    assert_eq!(count_samples_in_moof(&m), 12);
    let two_trafs = mk_box(
        b"moof",
        &[mk_box(b"traf", &trun(3, None)), mk_box(b"traf", &trun(4, None))].concat(),
    );
    assert_eq!(count_samples_in_moof(&two_trafs), 7);
}

#[test]
fn samples_at_least_one() {
    assert_eq!(count_samples_in_moof(&moof_with(&[trun(0, None)])), 1);
    assert_eq!(count_samples_in_moof(&[1u8, 2, 3]), 1);
    assert_eq!(count_samples_in_moof(&mk_box(b"moof", &[])), 1);
}

#[test]
fn big_endian_read() {
    assert_eq!(read_be32(&[0x12, 0x34, 0x56, 0x78, 0x9a], 1), 0x3456789a);
}

#[test]
fn size_above_limit_is_corrupt() {
    let mut p = Fmp4Parser::new();
    let declared = (stageview::fmp4::MAX_BOX_SIZE + 1) as u32;
    let mut chunk = declared.to_be_bytes().to_vec();
    chunk.extend_from_slice(b"mdat");
    chunk.extend(mk_box(b"ftyp", b"isom"));
    chunk.extend(mk_box(b"moov", b"mvhd"));
    // everything after the corrupt header is dropped with it
    assert!(p.feed(&chunk).is_empty());
    let init = [mk_box(b"ftyp", b"isom"), mk_box(b"moov", b"mvhd")].concat();
    assert_eq!(p.feed(&init).len(), 1);
}
