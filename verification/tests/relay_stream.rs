use load_balancer::relay::{RelayAction, RelayEvent, RelayProgress};

#[test]
fn a_chunk_is_forwarded_byte_identical() {
    let mut p = RelayProgress::new();
    let chunk = vec![0u8, 1, 2, 254, 255];
    let action = p.step(RelayEvent::ChunkRead(chunk.clone()));
    match action {
        RelayAction::Forward(bytes) => assert_eq!(bytes, chunk),
        RelayAction::Stop => panic!("a chunk must be forwarded, not dropped"),
    }
    assert!(!p.finished);
    assert_eq!(p.total_bytes, 5);
}

#[test]
fn chunks_accumulate_in_order_in_the_byte_total() {
    let mut p = RelayProgress::new();
    let mut relayed: Vec<u8> = Vec::new();
    for chunk in [vec![1u8, 2], vec![3u8], vec![4u8, 5, 6]] {
        match p.step(RelayEvent::ChunkRead(chunk)) {
            RelayAction::Forward(bytes) => relayed.extend_from_slice(&bytes),
            RelayAction::Stop => panic!("a chunk must be forwarded"),
        }
    }
    assert_eq!(relayed, vec![1, 2, 3, 4, 5, 6]);
    assert_eq!(p.total_bytes, 6);
}

#[test]
fn end_of_stream_stops_the_direction() {
    let mut p = RelayProgress::new();
    let action = p.step(RelayEvent::SourceClosed);
    assert!(matches!(action, RelayAction::Stop));
    assert!(p.finished);
    assert_eq!(p.total_bytes, 0);
}

#[test]
fn a_read_failure_stops_the_direction() {
    let mut p = RelayProgress::new();
    let _ = p.step(RelayEvent::ChunkRead(vec![9u8]));
    let action = p.step(RelayEvent::ReadFailed);
    assert!(matches!(action, RelayAction::Stop));
    assert!(p.finished);
    assert_eq!(p.total_bytes, 1);
}

#[test]
fn a_write_failure_stops_the_direction() {
    let mut p = RelayProgress::new();
    let _ = p.step(RelayEvent::ChunkRead(vec![9u8, 8]));
    let action = p.step(RelayEvent::WriteFailed);
    assert!(matches!(action, RelayAction::Stop));
    assert!(p.finished);
    assert_eq!(p.total_bytes, 2);
}

#[test]
fn the_byte_total_saturates_instead_of_overflowing() {
    let mut p = RelayProgress {
        total_bytes: usize::MAX - 1,
        finished: false,
    };
    let action = p.step(RelayEvent::ChunkRead(vec![7u8, 7, 7]));
    assert!(matches!(action, RelayAction::Forward(_)));
    assert_eq!(p.total_bytes, usize::MAX);
}
