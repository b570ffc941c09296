use stageview::registry::Registry;

#[test]
fn insert_and_displace() {
    let mut r: Registry<u32> = Registry::new();
    assert_eq!(r.insert("a".to_string(), 1), None);
    assert_eq!(r.insert("b".to_string(), 2), None);
    assert_eq!(r.insert("a".to_string(), 3), Some(1));
    assert_eq!(r.len(), 2);
    assert!(r.contains(&"a".to_string()));
    assert!(!r.contains(&"c".to_string()));
}

#[test]
fn drain_returns_each_camera_once() {
    let mut r: Registry<u32> = Registry::new();
    for (i, id) in ["x", "y", "x", "z"].iter().enumerate() {
        r.insert(id.to_string(), i as u32);
    }
    let (ids, handles) = r.drain();
    assert_eq!(ids, vec!["x".to_string(), "y".to_string(), "z".to_string()]);
    assert_eq!(handles, vec![2, 1, 3]);
    assert_eq!(r.len(), 0);
    let (ids, handles) = r.drain();
    assert!(ids.is_empty() && handles.is_empty());
}
