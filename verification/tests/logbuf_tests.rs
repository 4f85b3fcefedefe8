use mcp_core::logbuf::LogBuffer;
use mcp_core::logbuf::MAX_LOG_ENTRIES;

#[test]
fn new_buffer_is_empty() {
    let buf = LogBuffer::new(8);
    assert_eq!(buf.len(), 0);
    assert_eq!(buf.capacity(), 8);
    assert!(buf.snapshot().is_empty());
}

#[test]
fn snapshot_keeps_insertion_order() {
    let mut buf = LogBuffer::new(10);
    buf.log("first".to_string());
    buf.log("second".to_string());
    buf.log("third".to_string());
    assert_eq!(buf.snapshot(), vec!["first", "second", "third"]);
}

#[test]
fn never_exceeds_capacity() {
    let mut buf = LogBuffer::new(3);
    for i in 0..20u32 {
        buf.log(format!("line {}", i));
        assert!(buf.len() <= 3);
    }
    assert_eq!(buf.len(), 3);
}

#[test]
fn capacity_plus_one_pushes_evict_oldest() {
    let mut buf = LogBuffer::new(3);
    buf.log("e0".to_string());
    buf.log("e1".to_string());
    buf.log("e2".to_string());
    buf.log("e3".to_string());
    let snap = buf.snapshot();
    assert_eq!(snap, vec!["e1", "e2", "e3"]);
    assert!(!snap.contains(&"e0".to_string()));
    assert!(snap.contains(&"e3".to_string()));
}

#[test]
fn default_capacity_eviction() {
    let mut buf = LogBuffer::new(MAX_LOG_ENTRIES);
    for i in 0..(MAX_LOG_ENTRIES + 1) {
        buf.log(format!("entry {}", i));
    }
    let snap = buf.snapshot();
    assert_eq!(snap.len(), MAX_LOG_ENTRIES);
    assert!(!snap.contains(&"entry 0".to_string()));
    assert_eq!(snap[0], "entry 1");
    assert_eq!(snap[MAX_LOG_ENTRIES - 1], format!("entry {}", MAX_LOG_ENTRIES));
}
