use std::sync::Arc;
use stageview::cache::{CameraCache, RECENT_CAP};
use stageview::fmp4::Unit;

fn frag(tag: u32) -> Arc<Vec<u8>> {
    Arc::new(tag.to_be_bytes().to_vec())
}

fn contents(v: &[Arc<Vec<u8>>]) -> Vec<Vec<u8>> {
    v.iter().map(|a| a.as_ref().clone()).collect()
}

#[test]
fn keyframe_replaces_recent_run() {
    let mut c = CameraCache::new();
    for i in 0..10 {
        c.push_fragment(frag(i), true);
    }
    c.set_init(Arc::new(b"init".to_vec()));
    assert_eq!(c.recent_len(), 1);
    assert_eq!(contents(&c.catch_up()), vec![b"init".to_vec(), frag(9).as_ref().clone()]);
    for i in 100..300 {
        c.push_fragment(frag(i), false);
    }
    assert_eq!(c.recent_len(), RECENT_CAP);
    let cached = contents(&c.catch_up());
    assert_eq!(cached.len(), 1 + RECENT_CAP);
    // the run still starts with the keyframe, followed by the fragments after it
    assert_eq!(cached[1], frag(9).as_ref().clone());
    assert_eq!(cached[2], frag(100).as_ref().clone());
    assert_eq!(cached[RECENT_CAP], frag(100 + RECENT_CAP as u32 - 2).as_ref().clone());
    c.push_fragment(frag(500), true);
    assert_eq!(c.recent_len(), 1);
}

#[test]
fn late_joiner_gets_init_then_last_keyframe_run() {
    let mut c = CameraCache::new();
    c.set_init(Arc::new(b"ftypmoov".to_vec()));
    let keys = [true, false, true, false, false];
    for (i, k) in keys.iter().enumerate() {
        c.push_fragment(frag(i as u32 + 1), *k);
    }
    let got = contents(&c.catch_up());
    let want: Vec<Vec<u8>> = vec![
        b"ftypmoov".to_vec(),
        frag(3).as_ref().clone(),
        frag(4).as_ref().clone(),
        frag(5).as_ref().clone(),
    ];
    assert_eq!(got, want);
}

#[test]
fn fragments_before_any_keyframe_are_not_cached() {
    let mut c = CameraCache::new();
    c.push_fragment(frag(1), false);
    c.push_fragment(frag(2), false);
    assert_eq!(c.recent_len(), 0);
    assert!(c.catch_up().is_empty());
}

#[test]
fn catch_up_shares_the_cached_bytes() {
    let mut c = CameraCache::new();
    let f = frag(7);
    c.push_fragment(Arc::clone(&f), true);
    let got = c.catch_up();
    assert!(Arc::ptr_eq(&got[0], &f));
}

#[test]
fn record_init_goes_online_and_broadcasts() {
    let mut c = CameraCache::new();
    let p = c.record(Unit::Init(b"ftypmoov".to_vec()), 0);
    assert!(p.went_online);
    assert_eq!(p.broadcast.unwrap().as_ref(), &b"ftypmoov".to_vec());
    assert!(c.has_init());
    assert_eq!((p.frames, p.bytes), (0, 0));
}

#[test]
fn record_fragment_broadcasts_only_with_subscribers() {
    let mut c = CameraCache::new();
    let u = Unit::Fragment { data: vec![1, 2, 3], keyframe: true, samples: 4 };
    let p = c.record(u, 0);
    assert!(p.broadcast.is_none());
    assert!(!p.went_online);
    assert_eq!((p.frames, p.bytes), (4, 3));
    assert_eq!(c.recent_len(), 1);
    let u = Unit::Fragment { data: vec![4, 5], keyframe: false, samples: 1 };
    let p = c.record(u, 2);
    assert_eq!(p.broadcast.unwrap().as_ref(), &vec![4u8, 5]);
    assert_eq!(c.recent_len(), 2);
}

#[test]
fn clear_drops_everything() {
    let mut c = CameraCache::new();
    c.set_init(Arc::new(vec![1]));
    c.push_fragment(frag(1), true);
    c.clear();
    assert!(!c.has_init());
    assert_eq!(c.recent_len(), 0);
}
