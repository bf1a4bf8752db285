use grapevine::proto::grapevine::{Metadata, RawMessage};
use grapevine::subscriber::message::{Origin, ReceivedMessage};
use grapevine::subscriber::min_max_heap::MinMaxHeap;

fn msg(sequence: i64) -> ReceivedMessage {
    ReceivedMessage {
        recv_ts: 0,
        origin: Origin::Udp,
        raw: RawMessage { metadata: Metadata { timestamp: 0, sequence }, payload: None },
    }
}

#[test]
fn pops_lowest_first() {
    let mut heap = MinMaxHeap::new();
    for s in [5, 2, 9, 2, 7] {
        heap.push(msg(s));
    }
    assert_eq!(heap.len(), 5);
    assert_eq!(heap.peek().unwrap().raw.metadata.sequence, 2);
    assert_eq!(heap.max_sequence(), Some(9));
    let mut out = vec![];
    while let Some(m) = heap.pop() {
        out.push(m.raw.metadata.sequence);
    }
    assert_eq!(out, vec![2, 2, 5, 7, 9]);
    assert_eq!(heap.max_sequence(), None);
    assert!(heap.peek().is_none());
}

#[test]
fn has_gaps_counts_distinct_sequences() {
    let mut heap = MinMaxHeap::new();
    assert!(!heap.has_gaps());
    heap.push(msg(3));
    heap.push(msg(4));
    heap.push(msg(4));
    assert!(!heap.has_gaps());
    heap.push(msg(6));
    assert!(heap.has_gaps());
    heap.push(msg(5));
    assert!(!heap.has_gaps());
    // duplicates do not hide a gap
    let mut heap = MinMaxHeap::new();
    for s in [71, 73, 73, 75, 75] {
        heap.push(msg(s));
    }
    assert!(heap.has_gaps());
}

#[test]
fn max_follows_pops() {
    let mut heap = MinMaxHeap::new();
    heap.push(msg(1));
    heap.push(msg(8));
    heap.pop();
    assert_eq!(heap.max_sequence(), Some(8));
    heap.pop();
    assert_eq!(heap.max_sequence(), None);
    heap.push(msg(2));
    assert_eq!(heap.max_sequence(), Some(2));
}
