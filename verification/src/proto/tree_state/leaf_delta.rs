//! The kinds of change a [`crate::proto::tree_state::LeafDelta`] carries.
use vstd::prelude::*;

use crate::proto::tree_state::{DeleteLeaf, EditA, EditB, NewLeaf};

verus! {

/// One change to the tree.
#[derive(Clone, Copy, Debug, PartialEq, Eq, Structural)]
pub enum Delta {
    EditA(EditA),
    EditB(EditB),
    DeleteLeaf(DeleteLeaf),
    NewLeaf(NewLeaf),
}

} // verus!
