use std::collections::BTreeMap;

use grapevine::proto::tree_state::leaf_delta::Delta;
use grapevine::proto::tree_state::{DeleteLeaf, EditA, EditB, EditLeaf, Leaf, LeafDelta, NewLeaf, TreeState};
use grapevine::StateSync;

#[test]
fn state_sync() {
    let mut state = TreeState::default();
    let s1 = Leaf { id: 1, a: 2, b: 3 };
    let s2 = Leaf { id: 2, a: 4, b: 6 };
    let s3 = Leaf { id: 3, a: 6, b: 9 };
    let s4 = Leaf { id: 4, a: 8, b: 12 };

    state
        .apply_delta(LeafDelta {
            delta: Some(Delta::NewLeaf(NewLeaf { leaf: s1.clone() })),
        })
        .unwrap();
    state
        .apply_delta(LeafDelta {
            delta: Some(Delta::NewLeaf(NewLeaf { leaf: s2.clone() })),
        })
        .unwrap();
    state
        .apply_delta(LeafDelta {
            delta: Some(Delta::NewLeaf(NewLeaf { leaf: s3.clone() })),
        })
        .unwrap();
    assert_eq!(
        state,
        TreeState {
            leaves: BTreeMap::from([
                (s1.id, s1.clone()),
                (s2.id, s2.clone()),
                (s3.id, s3.clone())
            ])
        }
    );
    // Apply some randomish deltas
    state
        .apply_delta(LeafDelta {
            delta: Some(Delta::EditA(EditA {
                leaf: EditLeaf {
                    id: s1.id,
                    value: 10,
                },
            })),
        })
        .unwrap();
    state
        .apply_delta(LeafDelta {
            delta: Some(Delta::EditB(EditB {
                leaf: EditLeaf {
                    id: s1.id,
                    value: -10,
                },
            })),
        })
        .unwrap();
    state
        .apply_delta(LeafDelta {
            delta: Some(Delta::EditB(EditB {
                leaf: EditLeaf {
                    id: s3.id,
                    value: 100,
                },
            })),
        })
        .unwrap();
    assert_eq!(state.leaves.get(&s2.id).unwrap(), &s2);
    state
        .apply_delta(LeafDelta {
            delta: Some(Delta::DeleteLeaf(DeleteLeaf { id: s2.id })),
        })
        .unwrap();

    assert!(state.leaves.get(&s2.id).is_none());
    state
        .apply_delta(LeafDelta {
            delta: Some(Delta::NewLeaf(NewLeaf { leaf: s4.clone() })),
        })
        .unwrap();
    state
        .apply_delta(LeafDelta {
            delta: Some(Delta::EditA(EditA {
                leaf: EditLeaf {
                    id: s1.id,
                    value: 20,
                },
            })),
        })
        .unwrap();
    state
        .apply_delta(LeafDelta {
            delta: Some(Delta::EditB(EditB {
                leaf: EditLeaf {
                    id: s4.id,
                    value: -100,
                },
            })),
        })
        .unwrap();
    assert_eq!(
        state,
        TreeState {
            leaves: BTreeMap::from([
                (
                    s1.id,
                    Leaf {
                        id: s1.id,
                        a: 32,
                        b: -7
                    }
                ),
                (
                    s3.id,
                    Leaf {
                        id: s3.id,
                        a: 6,
                        b: 109
                    }
                ),
                (
                    s4.id,
                    Leaf {
                        id: s4.id,
                        a: 8,
                        b: -88
                    }
                )
            ])
        }
    );

    state.reset();
    assert_eq!(state, TreeState::default());
}

#[test]
fn replicas_applying_the_same_deltas_agree() {
    let deltas = [
        LeafDelta { delta: Some(Delta::NewLeaf(NewLeaf { leaf: Leaf { id: 5, a: 1, b: 1 } })) },
        LeafDelta { delta: Some(Delta::EditA(EditA { leaf: EditLeaf { id: 5, value: 3 } })) },
        LeafDelta { delta: Some(Delta::NewLeaf(NewLeaf { leaf: Leaf { id: 6, a: 0, b: 0 } })) },
        LeafDelta { delta: Some(Delta::DeleteLeaf(DeleteLeaf { id: 6 })) },
    ];
    let mut a = TreeState::default();
    let mut b = TreeState::default();
    for d in deltas.iter() {
        a.apply_delta(*d).unwrap();
    }
    for d in deltas.iter() {
        b.apply_delta(*d).unwrap();
    }
    assert_eq!(a, b);
    assert_eq!(a.leaves.get(&5), Some(&Leaf { id: 5, a: 4, b: 1 }));
    assert!(a.leaves.get(&6).is_none());
}

#[test]
fn new_leaf_replaces_a_leaf_of_the_same_id() {
    let mut state = TreeState::default();
    state
        .apply_delta(LeafDelta { delta: Some(Delta::NewLeaf(NewLeaf { leaf: Leaf { id: 1, a: 1, b: 1 } })) })
        .unwrap();
    state
        .apply_delta(LeafDelta { delta: Some(Delta::NewLeaf(NewLeaf { leaf: Leaf { id: 1, a: 9, b: 8 } })) })
        .unwrap();
    assert_eq!(state.leaves.len(), 1);
    assert_eq!(state.leaves.get(&1), Some(&Leaf { id: 1, a: 9, b: 8 }));
}

#[test]
fn can_apply_refuses_edits_of_missing_leaves_and_overflow() {
    let mut state = TreeState::default();
    let edit_a = |id: i32, value: i32| LeafDelta {
        delta: Some(Delta::EditA(EditA { leaf: EditLeaf { id, value } })),
    };
    let edit_b = |id: i32, value: i32| LeafDelta {
        delta: Some(Delta::EditB(EditB { leaf: EditLeaf { id, value } })),
    };
    assert!(!state.can_apply(&LeafDelta { delta: None }));
    assert!(!state.can_apply(&edit_a(1, 1)));
    assert!(!state.can_apply(&edit_b(1, 1)));
    assert!(state.can_apply(&LeafDelta { delta: Some(Delta::DeleteLeaf(DeleteLeaf { id: 7 })) }));
    let new_leaf = LeafDelta {
        delta: Some(Delta::NewLeaf(NewLeaf { leaf: Leaf { id: 1, a: i32::MAX - 1, b: i32::MIN + 1 } })),
    };
    assert!(state.can_apply(&new_leaf));
    state.apply_delta(new_leaf).unwrap();
    assert!(state.can_apply(&edit_a(1, 1)));
    assert!(!state.can_apply(&edit_a(1, 2)));
    assert!(state.can_apply(&edit_b(1, -1)));
    assert!(!state.can_apply(&edit_b(1, -2)));
}
