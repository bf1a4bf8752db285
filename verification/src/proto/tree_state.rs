//! An example state: a map of leaves, each holding two values that deltas
//! create, edit and delete.
pub mod leaf_delta;

use std::collections::BTreeMap;
use std::convert::Infallible;

use vstd::prelude::*;

use crate::proto::tree_state::leaf_delta::Delta;
use crate::state_sync::StateSync;

verus! {

broadcast use vstd::std_specs::btree::group_btree_axioms, vstd::laws_cmp::group_laws_cmp;

/// A self contained piece of state holding multiple dummy values.
#[derive(Clone, Copy, Debug, PartialEq, Eq, Default, Structural)]
pub struct Leaf {
    pub id: i32,
    pub a: i32,
    pub b: i32,
}

/// Edit a leaf's value by id.
#[derive(Clone, Copy, Debug, PartialEq, Eq, Default, Structural)]
pub struct EditLeaf {
    pub id: i32,
    pub value: i32,
}

/// Edit a leaf's 'a' value.
#[derive(Clone, Copy, Debug, PartialEq, Eq, Default, Structural)]
pub struct EditA {
    pub leaf: EditLeaf,
}

/// Edit a leaf's 'b' value.
#[derive(Clone, Copy, Debug, PartialEq, Eq, Default, Structural)]
pub struct EditB {
    pub leaf: EditLeaf,
}

/// Delete a leaf by id.
#[derive(Clone, Copy, Debug, PartialEq, Eq, Default, Structural)]
pub struct DeleteLeaf {
    pub id: i32,
}

/// Create a new leaf.
#[derive(Clone, Copy, Debug, PartialEq, Eq, Default, Structural)]
pub struct NewLeaf {
    pub leaf: Leaf,
}

/// All messages to change the state of the tree.
#[derive(Clone, Copy, Debug, PartialEq, Eq, Default, Structural)]
pub struct LeafDelta {
    pub delta: Option<Delta>,
}

/// A simple state sync that just keeps a map of leaf nodes.
#[derive(Debug, PartialEq, Clone)]
pub struct TreeState {
    pub leaves: BTreeMap<i32, Leaf>,
}

impl Default for TreeState {
    fn default() -> (r: Self)
        ensures
            r.leaves@ == Map::<i32, Leaf>::empty(),
    {
        TreeState { leaves: BTreeMap::new() }
    }
}

/// The leaves after a delta: an edit adds its value to the leaf's `a` or
/// `b`, a new leaf is stored under its id (replacing any leaf there), and
/// a deletion removes the leaf of that id.
pub open spec fn leaves_after(leaves: Map<i32, Leaf>, delta: Delta) -> Map<i32, Leaf> {
    match delta {
        Delta::EditA(edit) => {
            let x = leaves[edit.leaf.id];
            leaves.insert(edit.leaf.id, Leaf { a: (x.a + edit.leaf.value) as i32, ..x })
        },
        Delta::EditB(edit) => {
            let x = leaves[edit.leaf.id];
            leaves.insert(edit.leaf.id, Leaf { b: (x.b + edit.leaf.value) as i32, ..x })
        },
        Delta::NewLeaf(new_leaf) => leaves.insert(new_leaf.leaf.id, new_leaf.leaf),
        Delta::DeleteLeaf(delete) => leaves.remove(delete.id),
    }
}

/// A delta can be applied to `leaves`: it carries a change, and an edit
/// names a leaf that exists and keeps its value within `i32`.
pub open spec fn delta_applies(leaves: Map<i32, Leaf>, delta: LeafDelta) -> bool {
    match delta.delta {
        None => false,
        Some(Delta::EditA(edit)) => leaves.contains_key(edit.leaf.id) && i32::MIN <= leaves[edit.leaf.id].a
            + edit.leaf.value <= i32::MAX,
        Some(Delta::EditB(edit)) => leaves.contains_key(edit.leaf.id) && i32::MIN <= leaves[edit.leaf.id].b
            + edit.leaf.value <= i32::MAX,
        Some(_) => true,
    }
}

impl StateSync for TreeState {
    type Delta = LeafDelta;
    type ApplyError = Infallible;

    open spec fn accepts_delta(&self, delta: LeafDelta) -> bool {
        delta_applies(self.leaves@, delta)
    }

    /// Applying a delta the state accepts never fails.
    open spec fn apply_succeeds(&self, delta: LeafDelta) -> bool {
        true
    }

    open spec fn delta_yields(self, delta: LeafDelta, next: TreeState) -> bool {
        delta.delta matches Some(d) && next.leaves@ == leaves_after(self.leaves@, d)
    }

    fn can_apply(&self, delta: &LeafDelta) -> (r: bool) {
        match &delta.delta {
            None => false,
            Some(Delta::EditA(edit)) => match self.leaves.get(&edit.leaf.id) {
                Some(x) => {
                    let sum: i64 = x.a as i64 + edit.leaf.value as i64;
                    i32::MIN as i64 <= sum && sum <= i32::MAX as i64
                },
                None => false,
            },
            Some(Delta::EditB(edit)) => match self.leaves.get(&edit.leaf.id) {
                Some(x) => {
                    let sum: i64 = x.b as i64 + edit.leaf.value as i64;
                    i32::MIN as i64 <= sum && sum <= i32::MAX as i64
                },
                None => false,
            },
            Some(_) => true,
        }
    }

    fn apply_delta(&mut self, delta: LeafDelta) -> (r: Result<(), Infallible>)
        ensures
            r is Ok,
    {
        match delta.delta.unwrap() {
            Delta::EditA(edit) => {
                let mut x = *self.leaves.get(&edit.leaf.id).unwrap();
                x.a = x.a + edit.leaf.value;
                self.leaves.insert(edit.leaf.id, x);
            },
            Delta::EditB(edit) => {
                let mut x = *self.leaves.get(&edit.leaf.id).unwrap();
                x.b = x.b + edit.leaf.value;
                self.leaves.insert(edit.leaf.id, x);
            },
            Delta::NewLeaf(leaf) => {
                self.leaves.insert(leaf.leaf.id, leaf.leaf);
            },
            Delta::DeleteLeaf(leaf) => {
                self.leaves.remove(&leaf.id);
            },
        }
        Ok(())
    }
}

/// Replicas agree: two tree states holding the same leaves, applying the
/// same deltas in the same order, hold the same leaves after every step.
/// `a[i + 1]` is what applying `deltas[i]` to `a[i]` yields, and likewise
/// for `b`.
pub proof fn lemma_replicas_agree(a: Seq<TreeState>, b: Seq<TreeState>, deltas: Seq<LeafDelta>)
    requires
        a.len() == deltas.len() + 1,
        b.len() == deltas.len() + 1,
        a[0].leaves@ == b[0].leaves@,
        forall|i: int| 0 <= i < deltas.len() ==> #[trigger] a[i].delta_yields(deltas[i], a[i + 1]),
        forall|i: int| 0 <= i < deltas.len() ==> #[trigger] b[i].delta_yields(deltas[i], b[i + 1]),
    ensures
        forall|i: int| 0 <= i < a.len() ==> #[trigger] a[i].leaves@ == b[i].leaves@,
    decreases deltas.len(),
{
    if deltas.len() > 0 {
        let n = deltas.len() - 1;
        let a0 = a.drop_last();
        let b0 = b.drop_last();
        let d0 = deltas.drop_last();
        assert forall|i: int| 0 <= i < d0.len() implies #[trigger] a0[i].delta_yields(d0[i], a0[i + 1]) by {
            assert(a[i].delta_yields(deltas[i], a[i + 1]));
        }
        assert forall|i: int| 0 <= i < d0.len() implies #[trigger] b0[i].delta_yields(d0[i], b0[i + 1]) by {
            assert(b[i].delta_yields(deltas[i], b[i + 1]));
        }
        lemma_replicas_agree(a0, b0, d0);
        assert(a[n].delta_yields(deltas[n], a[n + 1]));
        assert(b[n].delta_yields(deltas[n], b[n + 1]));
        assert(a0[n] == a[n] && b0[n] == b[n]);
        assert forall|i: int| 0 <= i < a.len() implies #[trigger] a[i].leaves@ == b[i].leaves@ by {
            if i <= n {
                assert(a0[i] == a[i] && b0[i] == b[i]);
            }
        }
    }
}

} // verus!
