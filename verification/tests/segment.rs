use toroidal_tql::graph::Node;
use toroidal_tql::segment_manager::{Segment, SegmentManager, SegmentType};

#[test]
fn appendable_segment_stores_and_removes() {
    let mut s = Segment::new_appendable(1);
    assert!(s.is_appendable());
    assert!(s.is_empty());
    assert!(s.insert(Node::new(10)));
    assert!(!s.insert(Node::new(10)));
    assert!(s.insert(Node::new(11)));
    assert_eq!(s.len(), 2);
    assert_eq!(s.get(10).map(|n| n.id), Some(10));
    let mut ids = s.iter();
    ids.sort();
    assert_eq!(ids, vec![10, 11]);
    assert!(s.remove(10));
    assert!(!s.remove(10));
    assert!(s.get(10).is_none());
}

#[test]
fn sealed_segment_is_read_only() {
    let mut s = Segment::new_appendable(1);
    s.insert(Node::new(1));
    let mut sealed = s.seal();
    assert!(!sealed.is_appendable());
    assert_eq!(sealed.segment_type, SegmentType::NonAppendable);
    assert!(!sealed.insert(Node::new(2)));
    assert!(!sealed.remove(1));
    assert_eq!(sealed.len(), 1);
}

#[test]
fn manager_inserts_into_open_segment() {
    let mut m = SegmentManager::new("/tmp/segments", 2);
    assert_eq!(m.segment_count(), 0);
    assert!(m.insert(Node::new(1)));
    assert!(m.insert(Node::new(2)));
    assert_eq!(m.segment_count(), 1);
    // the first segment is full: a second one opens
    assert!(m.insert(Node::new(3)));
    assert_eq!(m.segment_count(), 2);
    assert_eq!(m.total_nodes(), 3);
    assert_eq!(m.get(3).map(|n| n.id), Some(3));
    // removal goes to the first appendable segment only
    assert!(!m.remove(3));
    assert!(m.remove(1));
    assert!(m.get(1).is_none());
    assert_eq!(m.get(3).map(|n| n.id), Some(3));
}

#[test]
fn seal_current_seals_the_open_segment() {
    let mut m = SegmentManager::new("/tmp/segments", 10);
    m.insert(Node::new(1));
    let first = m.current_appendable();
    m.seal_current();
    // a new appendable segment is opened for the next write
    let second = m.current_appendable();
    assert_ne!(first, second);
    assert_eq!(m.segment_count(), 2);
    assert_eq!(m.get(1).map(|n| n.id), Some(1));
}

#[test]
fn merge_combines_small_sealed_segments() {
    let mut m = SegmentManager::new("/tmp/segments", 10);
    m.insert(Node::new(1));
    m.seal_current();
    m.insert(Node::new(2));
    m.seal_current();
    assert_eq!(m.segment_count(), 2);
    m.merge();
    assert_eq!(m.segment_count(), 1);
    assert_eq!(m.total_nodes(), 2);
    let mut all: Vec<u64> = m.get_all().iter().map(|n| n.id).collect();
    all.sort();
    assert_eq!(all, vec![1, 2]);
}

#[test]
fn node_data_survives_storage_and_merge() {
    let bits: Vec<u32> = [0.25f32, -1.5, 3.0].iter().map(|x| x.to_bits()).collect();
    let props = "{\"id\":7,\"name\":\"seven\"}".to_string();
    let mut m = SegmentManager::new("/tmp/segments", 10);
    assert!(m.insert(Node::with_data(7, bits.clone(), props.clone())));
    let n = m.get(7).unwrap();
    assert_eq!(n.vector, bits);
    assert_eq!(n.properties, props);
    m.seal_current();
    m.insert(Node::new(8));
    m.seal_current();
    m.merge();
    let all = m.get_all();
    let seven = all.iter().find(|n| n.id == 7).unwrap();
    let back: Vec<f32> = seven.vector.iter().map(|b| f32::from_bits(*b)).collect();
    assert_eq!(back, vec![0.25f32, -1.5, 3.0]);
    assert_eq!(seven.properties, props);
}

#[test]
fn sealed_segment_keeps_every_field() {
    let mut s = Segment::new_appendable(4);
    s.insert(Node::new(1));
    let mut sealed = s.seal();
    let (id, size, created) = (sealed.id, sealed.size_bytes, sealed.created_at);
    assert!(!sealed.insert(Node::new(2)));
    assert!(!sealed.remove(1));
    assert_eq!((sealed.id, sealed.size_bytes, sealed.created_at), (id, size, created));
    assert_eq!(sealed.iter(), vec![1]);
}
