//! A heap of received messages that also tracks the highest sequence held
//! and how many distinct sequences it holds, so that it can tell whether
//! the held sequences leave a gap.
use std::collections::HashMap;

use vstd::multiset::Multiset;
use vstd::prelude::*;
use vstd::set_lib::{lemma_len_subset, lemma_set_difference_len, lemma_subset_equality};

use crate::subscriber::heap::{SequenceHeap, Sequenced};
use crate::subscriber::message::ReceivedMessage;

verus! {

broadcast use vstd::std_specs::hash::group_hash_axioms;

/// The sequence numbers `lo <= k < hi`.
pub open spec fn sequence_range(lo: int, hi: int) -> Set<i64> {
    Set::new(|k: i64| lo <= k && k < hi)
}

/// A range of sequence numbers holds as many numbers as its width.
pub proof fn lemma_sequence_range_len(lo: int, hi: int)
    requires
        lo <= hi,
        i64::MIN <= lo,
        hi <= i64::MAX + 1,
    ensures
        sequence_range(lo, hi).finite(),
        sequence_range(lo, hi).len() == hi - lo,
    decreases hi - lo,
{
    if lo == hi {
        assert(sequence_range(lo, hi) =~= Set::<i64>::empty());
    } else {
        lemma_sequence_range_len(lo, hi - 1);
        assert(sequence_range(lo, hi - 1).insert((hi - 1) as i64) =~= sequence_range(lo, hi));
    }
}

/// A min-heap of received messages which also knows the highest sequence
/// it holds and counts the messages held for each sequence.
pub struct MinMaxHeap {
    heap: SequenceHeap<ReceivedMessage>,
    max_id: Option<i64>,
    counter: HashMap<i64, usize>,
}

impl MinMaxHeap {
    /// `max_id` is the highest sequence held (none when empty), and
    /// `counter` maps each sequence held to the number of messages held
    /// for it.
    pub closed spec fn wf(&self) -> bool {
        &&& (self.max_id is None <==> self.heap.contents().len() == 0)
        &&& (self.max_id matches Some(m) ==> {
            &&& self.heap.holds_sequence(m)
            &&& forall|y: ReceivedMessage| #[trigger]
                self.heap.contents().contains(y) ==> y.seq_of() <= m
        })
        &&& forall|k: i64| #[trigger]
            self.counter@.contains_key(k) <==> self.heap.sequence_counts().count(k) > 0
        &&& forall|k: i64| #[trigger]
            self.counter@.contains_key(k) ==> self.counter@[k] == self.heap.sequence_counts().count(
                k,
            )
    }

    /// The messages held, without order.
    pub closed spec fn contents(&self) -> Multiset<ReceivedMessage> {
        self.heap.contents()
    }

    /// Some message of sequence `s` is held.
    pub open spec fn holds(&self, s: i64) -> bool {
        exists|y: ReceivedMessage| #[trigger] self.contents().contains(y) && y.seq_of() == s
    }

    /// `x` is held, and no message held has a lower sequence.
    pub open spec fn is_least(&self, x: ReceivedMessage) -> bool {
        &&& self.contents().contains(x)
        &&& forall|y: ReceivedMessage| #[trigger] self.contents().contains(y) ==> x.seq_of() <= y.seq_of()
    }

    /// The distinct sequences held.
    pub open spec fn held(&self) -> Set<i64> {
        Set::new(|s: i64| self.holds(s))
    }

    /// Between two sequences held lies a sequence that is not held.
    pub open spec fn spans_gap(&self) -> bool {
        exists|lo: i64, hi: i64, k: i64|
            #![trigger self.holds(lo), self.holds(hi), self.holds(k)]
            self.holds(lo) && self.holds(hi) && lo < k < hi && !self.holds(k)
    }

    /// The distance between any two sequences held fits in an `i64` with
    /// room to count one more.
    pub open spec fn spread_fits(&self) -> bool {
        forall|lo: i64, hi: i64|
            #![trigger self.holds(lo), self.holds(hi)]
            self.holds(lo) && self.holds(hi) ==> hi - lo < i64::MAX
    }

    proof fn lemma_holds_matches_heap(&self, s: i64)
        ensures
            self.holds(s) == self.heap.holds_sequence(s),
    {
        if self.heap.holds_sequence(s) {
            let y = choose|y: ReceivedMessage| #[trigger]
                self.heap.contents().contains(y) && y.seq_of() == s;
            assert(self.contents().contains(y));
        }
        if self.holds(s) {
            let y = choose|y: ReceivedMessage| #[trigger]
                self.contents().contains(y) && y.seq_of() == s;
            assert(self.heap.contents().contains(y));
        }
    }

    /// An empty heap.
    pub fn new() -> (r: Self)
        ensures
            r.wf(),
            r.contents() =~= Multiset::<ReceivedMessage>::empty(),
    {
        MinMaxHeap { heap: SequenceHeap::new(), max_id: None, counter: HashMap::new() }
    }

    /// The number of messages held.
    pub fn len(&self) -> (r: usize)
        ensures
            r == self.contents().len(),
    {
        self.heap.len()
    }

    /// A message of the lowest sequence held, if any.
    pub fn peek(&self) -> (r: Option<&ReceivedMessage>)
        ensures
            match r {
                None => self.contents().len() == 0,
                Some(x) => self.is_least(*x),
            },
    {
        self.heap.peek()
    }

    /// The highest sequence held, if any.
    pub fn max_sequence(&self) -> (r: Option<i64>)
        requires
            self.wf(),
        ensures
            match r {
                None => self.contents().len() == 0,
                Some(m) => self.holds(m) && forall|y: ReceivedMessage| #[trigger]
                    self.contents().contains(y) ==> y.seq_of() <= m,
            },
    {
        if let Some(m) = self.max_id {
            proof {
                self.lemma_holds_matches_heap(m);
            }
        }
        self.max_id
    }

    /// Removes and returns a message of the lowest sequence held, if any.
    pub fn pop(&mut self) -> (r: Option<ReceivedMessage>)
        requires
            old(self).wf(),
        ensures
            final(self).wf(),
            match r {
                None => old(self).contents().len() == 0 && final(self).contents() == old(
                    self,
                ).contents(),
                Some(x) => old(self).is_least(x) && final(self).contents() == old(
                    self,
                ).contents().remove(x),
            },
            old(self).spread_fits() ==> final(self).spread_fits(),
    {
        let ghost old_self = *self;
        let msg = self.heap.pop();
        if self.heap.len() == 0 {
            self.max_id = None;
        }
        if let Some(m) = &msg {
            let id = m.sequence();
            proof {
                broadcast use vstd::multiset::group_multiset_axioms;

                old_self.heap.lemma_counted_iff_held(id);
                assert(old_self.heap.holds_sequence(id));
            }
            // the counter holds every sequence of the heap
            let count = *self.counter.get(&id).unwrap();
            if count - 1 == 0 {
                self.counter.remove(&id);
            } else {
                self.counter.insert(id, count - 1);
            }
        }
        proof {
            broadcast use vstd::multiset::group_multiset_axioms;

            if let Some(x) = &msg {
                // the highest sequence is still held unless the heap emptied
                if let Some(mx) = self.max_id {
                    assert(old_self.max_id == Some(mx));
                    assert(old_self.heap.holds_sequence(mx));
                    let y = choose|y: ReceivedMessage| #[trigger]
                        old_self.heap.contents().contains(y) && y.seq_of() == mx;
                    if x.seq_of() != mx {
                        assert(self.heap.contents().contains(y));
                        assert(self.heap.holds_sequence(mx));
                    } else {
                        let z = self.heap.contents().choose();
                        assert(self.heap.contents().len() > 0);
                        assert(self.heap.contents().count(z) > 0);
                        assert(self.heap.contents().contains(z));
                        assert(old_self.heap.contents().contains(z));
                        assert(z.seq_of() == mx);
                        assert(self.heap.holds_sequence(mx));
                    }
                    assert(self.heap.holds_sequence(mx));
                    assert forall|y: ReceivedMessage| #[trigger]
                        self.heap.contents().contains(y) implies y.seq_of() <= mx by {
                        assert(old_self.heap.contents().contains(y));
                    }
                }
                let id = x.seq_of();
                assert forall|k: i64| #[trigger]
                    self.counter@.contains_key(k) <==> self.heap.sequence_counts().count(k) > 0 by {
                    if k != id {
                        assert(self.heap.sequence_counts().count(k) == old_self.heap.sequence_counts().count(k));
                    }
                }
                assert forall|k: i64| #[trigger]
                    self.counter@.contains_key(k) implies self.counter@[k] == self.heap.sequence_counts().count(k) by {
                    if k != id {
                        assert(self.heap.sequence_counts().count(k) == old_self.heap.sequence_counts().count(k));
                    }
                }
            }
        }
        proof {
            if let Some(x) = &msg {
                Self::lemma_spread_after_remove(old_self, *self, *x);
            }
        }
        msg
    }

    /// Removing a message keeps the held sequences within an `i64` of each
    /// other.
    proof fn lemma_spread_after_remove(before: Self, after: Self, x: ReceivedMessage)
        requires
            after.contents() == before.contents().remove(x),
        ensures
            before.spread_fits() ==> after.spread_fits(),
    {
        broadcast use vstd::multiset::group_multiset_axioms;

        assert forall|s: i64| after.holds(s) implies before.holds(s) by {
            let y = choose|y: ReceivedMessage| #[trigger] after.contents().contains(y) && y.seq_of() == s;
            assert(before.contents().contains(y));
        }
        if before.spread_fits() {
            assert forall|lo: i64, hi: i64|
                #![trigger after.holds(lo), after.holds(hi)]
                after.holds(lo) && after.holds(hi) implies hi - lo < i64::MAX by {
                assert(before.holds(lo) && before.holds(hi));
            }
        }
    }

    /// Adding a message keeps the held sequences within an `i64` of each
    /// other exactly when its sequence is within an `i64` of each one held.
    proof fn lemma_spread_after_insert(before: Self, after: Self, v: ReceivedMessage)
        requires
            after.contents() == before.contents().insert(v),
        ensures
            after.spread_fits() <==> (before.spread_fits() && forall|s: i64| #[trigger]
                before.holds(s) ==> v.seq_of() - s < i64::MAX && s - v.seq_of() < i64::MAX),
    {
        broadcast use vstd::multiset::group_multiset_axioms;

        assert forall|s: i64| #[trigger] after.holds(s) <==> (before.holds(s) || s == v.seq_of()) by {
            if after.holds(s) {
                let y = choose|y: ReceivedMessage| #[trigger] after.contents().contains(y) && y.seq_of() == s;
                if y != v {
                    assert(before.contents().contains(y));
                }
            }
            if before.holds(s) {
                let y = choose|y: ReceivedMessage| #[trigger] before.contents().contains(y) && y.seq_of() == s;
                assert(after.contents().contains(y));
            }
            if s == v.seq_of() {
                assert(after.contents().contains(v));
            }
        }
        if after.spread_fits() {
            assert forall|lo: i64, hi: i64|
                #![trigger before.holds(lo), before.holds(hi)]
                before.holds(lo) && before.holds(hi) implies hi - lo < i64::MAX by {
                assert(after.holds(lo) && after.holds(hi));
            }
            assert forall|s: i64| #[trigger] before.holds(s) implies v.seq_of() - s < i64::MAX && s
                - v.seq_of() < i64::MAX by {
                assert(after.holds(s) && after.holds(v.seq_of()));
            }
        }
        if before.spread_fits() && forall|s: i64| #[trigger]
            before.holds(s) ==> v.seq_of() - s < i64::MAX && s - v.seq_of() < i64::MAX {
            assert forall|lo: i64, hi: i64|
                #![trigger after.holds(lo), after.holds(hi)]
                after.holds(lo) && after.holds(hi) implies hi - lo < i64::MAX by {
                if lo != v.seq_of() && hi != v.seq_of() {
                    assert(before.holds(lo) && before.holds(hi));
                } else if lo == v.seq_of() && hi != v.seq_of() {
                    assert(before.holds(hi));
                } else if lo != v.seq_of() {
                    assert(before.holds(lo));
                }
            }
        }
    }

    /// Adds a message.
    pub fn push(&mut self, v: ReceivedMessage)
        requires
            old(self).wf(),
            old(self).contents().len() < usize::MAX,
        ensures
            final(self).wf(),
            final(self).contents() == old(self).contents().insert(v),
            final(self).spread_fits() <==> (old(self).spread_fits() && forall|s: i64| #[trigger]
                old(self).holds(s) ==> v.seq_of() - s < i64::MAX && s - v.seq_of() < i64::MAX),
    {
        let ghost old_self = *self;
        let id = v.sequence();
        match self.max_id {
            Some(max_id) => {
                if id > max_id {
                    self.max_id = Some(id);
                }
            },
            None => {
                self.max_id = Some(id);
            },
        }
        let current = self.counter.get(&id);
        match current {
            Some(c) => {
                let c = *c;
                proof {
                    self.heap.lemma_count_bounded(id);
                }
                self.counter.insert(id, c + 1);
            },
            None => {
                self.counter.insert(id, 1);
            },
        }
        self.heap.push(v);
        proof {
            broadcast use vstd::multiset::group_multiset_axioms;

            assert(self.heap.contents().contains(v));
            if let Some(m) = old_self.max_id {
                let y = choose|y: ReceivedMessage| #[trigger]
                    old_self.heap.contents().contains(y) && y.seq_of() == m;
                assert(self.heap.contents().contains(y));
            }
            let mx = self.max_id.unwrap();
            assert forall|y: ReceivedMessage| #[trigger]
                self.heap.contents().contains(y) implies y.seq_of() <= mx by {
                if y != v {
                    assert(old_self.heap.contents().contains(y));
                }
            }
            assert(self.heap.holds_sequence(mx));
            Self::lemma_spread_after_insert(old_self, *self, v);
        }
    }

    /// `max - min + 1 - distinct`: how many sequences between the lowest
    /// and the highest held are not held.
    fn count_missing(&self) -> (r: i64)
        requires
            self.wf(),
            self.spread_fits(),
        ensures
            r >= 0,
            r > 0 <==> self.spans_gap(),
            self.contents().len() == 0 ==> r == 0,
            self.contents().len() > 0 ==> exists|lo: i64, hi: i64|
                #![trigger self.holds(lo), self.holds(hi)]
                {
                    &&& self.holds(lo)
                    &&& self.holds(hi)
                    &&& forall|s: i64| #[trigger] self.holds(s) ==> lo <= s <= hi
                    &&& r == hi - lo + 1 - self.held().len()
                    &&& r == sequence_range(lo as int, hi + 1).difference(self.held()).len()
                },
    {
        if let Some(max_id) = self.max_id {
            // `max_id` is set only while the heap holds something
            let min_id = self.peek().unwrap().sequence();
            let uniq = self.counter.len();
            let ghost held = self.counter@.dom();
            let ghost range = sequence_range(min_id as int, max_id + 1);
            proof {
                let x = choose|y: ReceivedMessage| #[trigger]
                    self.heap.contents().contains(y) && y.seq_of() == max_id;
                assert(self.holds(min_id) && self.holds(max_id));
                assert(min_id <= max_id);
                lemma_sequence_range_len(min_id as int, max_id + 1);
                assert forall|k: i64| held.contains(k) <==> self.holds(k) by {
                    self.heap.lemma_counted_iff_held(k);
                }
                assert forall|k: i64| held.contains(k) implies range.contains(k) by {
                    let y = choose|y: ReceivedMessage| #[trigger]
                        self.contents().contains(y) && y.seq_of() == k;
                }
                lemma_len_subset(held, range);
            }
            let r = max_id - min_id + 1 - (uniq as i64);
            proof {
                if held.len() == range.len() {
                    lemma_subset_equality(held, range);
                    assert forall|lo: i64, hi: i64, k: i64|
                        #![trigger self.holds(lo), self.holds(hi), self.holds(k)]
                        self.holds(lo) && self.holds(hi) && lo < k < hi implies self.holds(k) by {
                        let a = choose|y: ReceivedMessage| #[trigger]
                            self.contents().contains(y) && y.seq_of() == lo;
                        let b = choose|y: ReceivedMessage| #[trigger]
                            self.contents().contains(y) && y.seq_of() == hi;
                        assert(range.contains(k));
                    }
                } else {
                    if range.subset_of(held) {
                        lemma_len_subset(range, held);
                    }
                    let k = choose|k: i64| range.contains(k) && !held.contains(k);
                    assert(!self.holds(k));
                    assert(self.holds(min_id) && self.holds(max_id) && min_id < k < max_id);
                }
                assert(held =~= self.held());
                assert(range.intersect(held) =~= held);
                lemma_set_difference_len(range, held);
                assert forall|s: i64| #[trigger] self.holds(s) implies min_id <= s <= max_id by {
                    let y = choose|y: ReceivedMessage| #[trigger]
                        self.contents().contains(y) && y.seq_of() == s;
                }
            }
            r
        } else {
            proof {
                assert forall|lo: i64| !self.holds(lo) by {
                    if self.holds(lo) {
                        let y = choose|y: ReceivedMessage| #[trigger]
                            self.contents().contains(y) && y.seq_of() == lo;
                        assert(self.contents().count(y) > 0);
                    }
                }
                assert(self.contents().len() == 0);
            }
            0
        }
    }

    /// Whether some sequence between the lowest and the highest held is
    /// missing.
    pub fn has_gaps(&self) -> (r: bool)
        requires
            self.wf(),
            self.spread_fits(),
        ensures
            r == self.spans_gap(),
    {
        self.count_missing() > 0
    }
}

} // verus!
