//! A priority queue of messages that hands out the lowest sequence first.
use vstd::prelude::*;
use vstd::multiset::Multiset;
use vstd::seq_lib::group_to_multiset_ensures;

verus! {

/// A message that carries a sequence number.
pub trait Sequenced {
    /// The sequence number of the message.
    spec fn seq_of(&self) -> i64;

    /// Reads the sequence number of the message.
    fn sequence(&self) -> (r: i64)
        ensures
            r == self.seq_of(),
    ;
}

/// The sequence numbers of the items, in order.
pub open spec fn sequences<T: Sequenced>(items: Seq<T>) -> Seq<i64> {
    items.map_values(|x: T| x.seq_of())
}

/// Items ordered from the highest sequence down to the lowest.
pub open spec fn descending<T: Sequenced>(items: Seq<T>) -> bool {
    forall|i: int, j: int|
        0 <= i < j < items.len() ==> #[trigger] items[i].seq_of() >= #[trigger] items[j].seq_of()
}

/// A value occurs in a sequence at most as often as the sequence is long.
proof fn lemma_seq_count_le_len<A>(s: Seq<A>, a: A)
    ensures
        s.to_multiset().count(a) <= s.len(),
    decreases s.len(),
{
    broadcast use group_to_multiset_ensures;
    broadcast use vstd::multiset::group_multiset_axioms;

    if s.len() == 0 {
        assert(s.to_multiset().len() == 0);
    } else {
        lemma_seq_count_le_len(s.drop_last(), a);
        assert(s.drop_last().push(s.last()) =~= s);
    }
}

/// A min-heap on sequence numbers: [`SequenceHeap::pop`] and
/// [`SequenceHeap::peek`] give an item of the lowest sequence held.
///
/// The items are kept in a vector ordered from the highest sequence down,
/// so that the lowest sits at the end.
pub struct SequenceHeap<T: Sequenced> {
    items: Vec<T>,
}

impl<T: Sequenced> SequenceHeap<T> {
    #[verifier::type_invariant]
    spec fn ordered(self) -> bool {
        descending(self.items@)
    }

    /// The items held, without order.
    pub closed spec fn contents(&self) -> Multiset<T> {
        self.items@.to_multiset()
    }

    /// The sequence numbers of the items held, without order.
    pub closed spec fn sequence_counts(&self) -> Multiset<i64> {
        sequences(self.items@).to_multiset()
    }

    /// A sequence is counted exactly when an item of that sequence is held.
    pub proof fn lemma_counted_iff_held(&self, s: i64)
        ensures
            self.sequence_counts().count(s) > 0 <==> self.holds_sequence(s),
    {
        broadcast use group_to_multiset_ensures;

        let items = self.items@;
        let seqs = sequences(items);
        if self.holds_sequence(s) {
            let y = choose|y: T| #[trigger] self.contents().contains(y) && y.seq_of() == s;
            assert(items.contains(y));
            let k = choose|k: int| 0 <= k < items.len() && items[k] == y;
            assert(seqs[k] == s);
            assert(seqs.contains(s));
        }
        if self.sequence_counts().count(s) > 0 {
            assert(seqs.contains(s));
            let k = choose|k: int| 0 <= k < seqs.len() && seqs[k] == s;
            assert(items.contains(items[k]));
            assert(self.contents().contains(items[k]));
        }
    }

    /// No sequence is counted more often than there are items held.
    pub proof fn lemma_count_bounded(&self, s: i64)
        ensures
            self.sequence_counts().count(s) <= self.contents().len(),
    {
        broadcast use group_to_multiset_ensures;

        lemma_seq_count_le_len(sequences(self.items@), s);
    }

    /// `x` is held, and no item held has a lower sequence.
    pub open spec fn is_least(&self, x: T) -> bool {
        &&& self.contents().contains(x)
        &&& forall|y: T| #[trigger] self.contents().contains(y) ==> x.seq_of() <= y.seq_of()
    }

    /// Some item of sequence `s` is held.
    pub open spec fn holds_sequence(&self, s: i64) -> bool {
        exists|y: T| #[trigger] self.contents().contains(y) && y.seq_of() == s
    }

    /// An empty heap.
    pub fn new() -> (r: Self)
        ensures
            r.contents() =~= Multiset::<T>::empty(),
            r.sequence_counts() =~= Multiset::<i64>::empty(),
    {
        let r = SequenceHeap { items: Vec::new() };
        proof {
            broadcast use group_to_multiset_ensures;

            assert(r.items@.to_multiset().len() == 0);
            assert(sequences(r.items@).to_multiset().len() == 0);
        }
        r
    }

    /// The number of items held.
    pub fn len(&self) -> (r: usize)
        ensures
            r == self.contents().len(),
    {
        proof {
            broadcast use group_to_multiset_ensures;

        }
        self.items.len()
    }

    /// Whether the heap is empty.
    pub fn is_empty(&self) -> (r: bool)
        ensures
            r == (self.contents().len() == 0),
    {
        proof {
            broadcast use group_to_multiset_ensures;

        }
        self.items.len() == 0
    }

    /// An item of the lowest sequence held, if any.
    pub fn peek(&self) -> (r: Option<&T>)
        ensures
            match r {
                None => self.contents().len() == 0,
                Some(x) => self.is_least(*x),
            },
    {
        proof {
            use_type_invariant(self);
            broadcast use group_to_multiset_ensures;

        }
        let n = self.items.len();
        if n == 0 {
            None
        } else {
            let x = &self.items[n - 1];
            proof {
                self.lemma_last_is_least();
            }
            Some(x)
        }
    }

    /// The last item of an ordered, non-empty vector is a least one.
    proof fn lemma_last_is_least(&self)
        requires
            descending(self.items@),
            self.items@.len() > 0,
        ensures
            self.is_least(self.items@.last()),
    {
        broadcast use group_to_multiset_ensures;

        let s = self.items@;
        assert forall|y: T| #[trigger] self.contents().contains(y) implies s.last().seq_of()
            <= y.seq_of() by {
            assert(s.contains(y));
            let k = choose|k: int| 0 <= k < s.len() && s[k] == y;
            if k < s.len() - 1 {
                assert(s[k].seq_of() >= s[s.len() - 1].seq_of());
            }
        }
        assert(s.contains(s.last()));
    }

    /// Removes and returns an item of the lowest sequence held, if any.
    pub fn pop(&mut self) -> (r: Option<T>)
        ensures
            match r {
                None => old(self).contents().len() == 0 && *final(self) == *old(self),
                Some(x) => old(self).is_least(x) && final(self).contents() == old(
                    self,
                ).contents().remove(x) && final(self).sequence_counts() == old(
                    self,
                ).sequence_counts().remove(x.seq_of()),
            },
    {
        proof {
            use_type_invariant(&*self);
            broadcast use group_to_multiset_ensures;

        }
        let n = self.items.len();
        if n == 0 {
            return None;
        }
        proof {
            self.lemma_last_is_least();
        }
        let ghost before = self.items@;
        let mut items = Vec::new();
        std::mem::swap(&mut items, &mut self.items);
        let x = items.pop().unwrap();
        proof {
            assert(before.remove(before.len() - 1) =~= items@);
            assert(sequences(before).remove(before.len() - 1) =~= sequences(items@));
            assert(sequences(before).remove(before.len() - 1).to_multiset() == sequences(
                before,
            ).to_multiset().remove(sequences(before)[before.len() - 1]));
            assert forall|a: int, b: int| 0 <= a < b < items@.len() implies #[trigger] items@[a].seq_of()
                >= #[trigger] items@[b].seq_of() by {
                assert(items@[a] == before[a] && items@[b] == before[b]);
            }
            assert(before.remove(before.len() - 1).to_multiset() == before.to_multiset().remove(
                before[before.len() - 1],
            ));
        }
        self.items = items;
        Some(x)
    }

    /// Adds an item.
    pub fn push(&mut self, v: T)
        ensures
            final(self).contents() == old(self).contents().insert(v),
            final(self).sequence_counts() == old(self).sequence_counts().insert(v.seq_of()),
    {
        proof {
            use_type_invariant(&*self);
        }
        let s = v.sequence();
        let n = self.items.len();
        let mut i: usize = 0;
        while i < n && self.items[i].sequence() > s
            invariant
                n == self.items.len(),
                0 <= i <= n,
                s == v.seq_of(),
                descending(self.items@),
                forall|k: int| 0 <= k < i ==> #[trigger] self.items@[k].seq_of() > s,
            decreases n - i,
        {
            i = i + 1;
        }
        let ghost before = self.items@;
        proof {
            broadcast use group_to_multiset_ensures;

            assert forall|k: int| i <= k < n implies #[trigger] before[k].seq_of() <= s by {
                if i < n {
                    assert(before[i as int].seq_of() <= s);
                    if k > i {
                        assert(before[i as int].seq_of() >= before[k].seq_of());
                    }
                }
            }
            assert(before.insert(i as int, v).to_multiset() == before.to_multiset().insert(v));
            assert(sequences(before.insert(i as int, v)) =~= sequences(before).insert(i as int, s));
            assert(sequences(before).insert(i as int, s).to_multiset() == sequences(
                before,
            ).to_multiset().insert(s));
        }
        let mut items = Vec::new();
        std::mem::swap(&mut items, &mut self.items);
        items.insert(i, v);
        proof {
            let after = items@;
            assert(after =~= before.insert(i as int, v));
            assert forall|a: int, b: int| 0 <= a < b < after.len() implies #[trigger] after[a].seq_of()
                >= #[trigger] after[b].seq_of() by {
                if b < i {
                    assert(after[a] == before[a] && after[b] == before[b]);
                } else if b == i {
                    assert(after[a] == before[a]);
                } else if a == i {
                    assert(after[b] == before[b - 1]);
                } else if a < i {
                    assert(after[a] == before[a] && after[b] == before[b - 1]);
                } else {
                    assert(after[a] == before[a - 1] && after[b] == before[b - 1]);
                }
            }
        }
        self.items = items;
    }
}

} // verus!
