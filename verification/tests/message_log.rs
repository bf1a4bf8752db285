use grapevine::persistence::log::next_sequence_after;
use grapevine::{MessageLog, MockPersistenceError};

#[test]
fn initialize_empty() {
    let log = MessageLog::new();
    assert_eq!(log.last_sequence(), None);
    assert_eq!(next_sequence_after(log.last_sequence()), 0);
}

#[test]
fn initialize_exists() {
    let mut log = MessageLog::new();
    log.write_message(123, &[1, 2, 3]).unwrap();
    assert_eq!(next_sequence_after(log.last_sequence()), 124);
}

#[test]
fn write_read_message() {
    let mut log = MessageLog::new();
    let bytes = vec![8u8, 1, 2, 3];
    log.write_message(1234, &bytes).unwrap();
    assert_eq!(log.read_sequence(1234).unwrap(), bytes);
}

#[test]
fn stream_from_sequence() {
    let mut log = MessageLog::new();
    for sequence in (0_i64..20).rev() {
        log.write_message(sequence, &sequence.to_be_bytes()).unwrap();
    }
    let offset = 10;
    let records = log.stream_from_sequence(offset);
    assert_eq!(records.len(), 10);
    for (i, r) in records.iter().enumerate() {
        assert_eq!(r.as_slice(), &(offset + i as i64).to_be_bytes());
    }
}

#[test]
fn write_twice_is_refused() {
    let mut log = MessageLog::new();
    log.write_message(3, &[1]).unwrap();
    assert_eq!(log.write_message(3, &[2]), Err(MockPersistenceError::SequenceExists(3)));
    assert_eq!(log.read_sequence(3).unwrap(), vec![1]);
    assert_eq!(log.len(), 1);
    assert!(log.contains(3));
}

#[test]
fn read_missing_is_refused() {
    let log = MessageLog::new();
    assert_eq!(log.read_sequence(9), Err(MockPersistenceError::SequenceNotFound(9)));
}

#[test]
fn replica_insert_overwrites_and_tracks_last() {
    let mut log = MessageLog::new();
    log.insert_message(4, &[1]);
    log.insert_message(2, &[2]);
    log.insert_message(4, &[3]);
    assert_eq!(log.read_sequence(4).unwrap(), vec![3]);
    assert_eq!(log.last_sequence(), Some(4));
}
