use std::sync::mpsc;

use grapevine::should_destruct;
use grapevine::util::{destruct_decision, DestructSignal};

#[test]
fn test_should_destruct() {
    let (_tx, mut rx) = mpsc::channel();
    assert!(!should_destruct(&mut rx));
}

#[test]
fn test_should_destruct_signal() {
    let (tx, mut rx) = mpsc::channel();
    tx.send(()).unwrap();
    assert!(should_destruct(&mut rx));
}

#[test]
fn test_should_destruct_error() {
    // tx is dropped here
    let (_, mut rx) = mpsc::channel();
    assert!(should_destruct(&mut rx));
}

#[test]
fn destruct_decision_per_signal() {
    assert!(destruct_decision(DestructSignal::Received));
    assert!(destruct_decision(DestructSignal::Disconnected));
    assert!(!destruct_decision(DestructSignal::Empty));
}
