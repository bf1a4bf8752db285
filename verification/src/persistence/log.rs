//! An in-memory message log: messages stored under their sequence number.
use std::collections::BTreeMap;

use vstd::prelude::*;
use vstd::slice::slice_to_vec;
use vstd::std_specs::iter::IteratorSpec;

verus! {

broadcast use vstd::std_specs::btree::group_btree_axioms, vstd::laws_cmp::group_laws_cmp;

/// Errors of the in-memory log.
#[derive(Debug, Clone, Copy, PartialEq, Eq, Structural)]
pub enum MockPersistenceError {
    /// A message of this sequence is already recorded.
    SequenceExists(i64),
    /// No message of this sequence is recorded.
    SequenceNotFound(i64),
    /// The store could not be reached.
    ConnectionError,
}

/// The sequence a publisher stamps next, given the last one its log holds:
/// the one after it, or 0 for an empty log.
pub open spec fn sequence_after(last: Option<i64>) -> int {
    match last {
        Some(s) => s + 1,
        None => 0,
    }
}

/// The next sequence to stamp after the last one recorded in a master log
/// (0 when the log is empty).
pub fn next_sequence_after(last: Option<i64>) -> (r: i64)
    requires
        last matches Some(s) ==> s < i64::MAX,
    ensures
        r == sequence_after(last),
{
    match last {
        Some(s) => s + 1,
        None => 0,
    }
}

/// The highest key of a non-empty set of sequences.
pub open spec fn is_max_key(keys: Set<i64>, m: i64) -> bool {
    keys.contains(m) && forall|k: i64| #[trigger] keys.contains(k) ==> k <= m
}

/// `ks` lists, in increasing order, exactly the keys of `m` that are at
/// least `from`.
pub open spec fn keys_from(m: Map<i64, Seq<u8>>, from: i64, ks: Seq<i64>) -> bool {
    &&& forall|i: int, j: int| 0 <= i < j < ks.len() ==> #[trigger] ks[i] < #[trigger] ks[j]
    &&& forall|k: i64| #[trigger] ks.contains(k) <==> (m.contains_key(k) && k >= from)
}

/// The outcome of recording `buf` under `sequence` in a log holding `m`:
/// the message is recorded unless the sequence already is.
pub open spec fn write_outcome(m: Map<i64, Seq<u8>>, sequence: i64, buf: Seq<u8>) -> (
    Map<i64, Seq<u8>>,
    Result<(), MockPersistenceError>,
) {
    if m.contains_key(sequence) {
        (m, Err(MockPersistenceError::SequenceExists(sequence)))
    } else {
        (m.insert(sequence, buf), Ok(()))
    }
}

/// The outcome of reading `sequence` from a log holding `m`.
pub open spec fn read_outcome(m: Map<i64, Seq<u8>>, sequence: i64) -> Result<
    Seq<u8>,
    MockPersistenceError,
> {
    if m.contains_key(sequence) {
        Ok(m[sequence])
    } else {
        Err(MockPersistenceError::SequenceNotFound(sequence))
    }
}

/// An in-memory log of encoded messages keyed by sequence number.
#[derive(Debug, Default)]
pub struct MessageLog {
    messages: BTreeMap<i64, Vec<u8>>,
}

impl View for MessageLog {
    type V = Map<i64, Seq<u8>>;

    closed spec fn view(&self) -> Map<i64, Seq<u8>> {
        self.messages@.map_values(|v: Vec<u8>| v@)
    }
}

impl MessageLog {
    /// An empty log.
    pub fn new() -> (r: Self)
        ensures
            r@ == Map::<i64, Seq<u8>>::empty(),
    {
        let r = MessageLog { messages: BTreeMap::new() };
        assert(r@ =~= Map::<i64, Seq<u8>>::empty());
        r
    }

    /// The number of messages recorded.
    pub fn len(&self) -> (r: usize)
        ensures
            r == self@.dom().len(),
    {
        assert(self@.dom() =~= self.messages@.dom());
        self.messages.len()
    }

    /// The highest sequence recorded, if any.
    pub fn last_sequence(&self) -> (r: Option<i64>)
        ensures
            match r {
                None => self@.dom().is_empty(),
                Some(m) => is_max_key(self@.dom(), m),
            },
    {
        let mut best: Option<i64> = None;
        let ghost dom = self.messages@.dom();
        for k in it: self.messages.keys()
            invariant
                dom == self.messages@.dom(),
                it.seq().unref().to_set() == dom,
                match best {
                    None => it.index() == 0,
                    Some(m) => {
                        &&& dom.contains(m)
                        &&& forall|i: int| 0 <= i < it.index() ==> *#[trigger] it.seq()[i] <= m
                    },
                },
        {
            let key = *k;
            match best {
                None => {
                    best = Some(key);
                },
                Some(m) => {
                    if key > m {
                        best = Some(key);
                    }
                },
            }
        }
        proof {
            assert(self@.dom() =~= dom);
        }
        best
    }

    /// Whether a message of `sequence` is recorded.
    pub fn contains(&self, sequence: i64) -> (r: bool)
        ensures
            r == self@.contains_key(sequence),
    {
        self.messages.contains_key(&sequence)
    }

    /// Records `buf` under `sequence` unless a message of that sequence is
    /// already recorded, which is refused with `SequenceExists`.
    pub fn write_message(&mut self, sequence: i64, buf: &[u8]) -> (r: Result<(), MockPersistenceError>)
        ensures
            (final(self)@, r) == write_outcome(old(self)@, sequence, buf@),
            r is Ok <==> !old(self)@.contains_key(sequence),
            r is Ok ==> final(self)@ == old(self)@.insert(sequence, buf@),
            r is Err ==> final(self)@ == old(self)@ && r == Err::<(), MockPersistenceError>(
                MockPersistenceError::SequenceExists(sequence),
            ),
    {
        if !self.messages.contains_key(&sequence) {
            self.messages.insert(sequence, slice_to_vec(buf));
            proof {
                assert(self@ =~= old(self)@.insert(sequence, buf@));
            }
            Ok(())
        } else {
            Err(MockPersistenceError::SequenceExists(sequence))
        }
    }

    /// Records `buf` under `sequence`, replacing what was recorded there.
    pub fn insert_message(&mut self, sequence: i64, buf: &[u8])
        ensures
            final(self)@ == old(self)@.insert(sequence, buf@),
    {
        self.messages.insert(sequence, slice_to_vec(buf));
        proof {
            assert(self@ =~= old(self)@.insert(sequence, buf@));
        }
    }

    /// The message recorded under `sequence`. A sequence not recorded is
    /// reported with `SequenceNotFound`.
    pub fn read_sequence(&self, sequence: i64) -> (r: Result<Vec<u8>, MockPersistenceError>)
        ensures
            match r {
                Ok(v) => read_outcome(self@, sequence) == Ok::<Seq<u8>, MockPersistenceError>(v@),
                Err(e) => read_outcome(self@, sequence) == Err::<Seq<u8>, MockPersistenceError>(e),
            },
            r is Ok <==> self@.contains_key(sequence),
            r matches Ok(v) ==> v@ == self@[sequence],
            r is Err ==> r == Err::<Vec<u8>, MockPersistenceError>(
                MockPersistenceError::SequenceNotFound(sequence),
            ),
    {
        match self.messages.get(&sequence) {
            Some(v) => Ok(slice_to_vec(v.as_slice())),
            None => Err(MockPersistenceError::SequenceNotFound(sequence)),
        }
    }

    /// Every message recorded from `sequence` on (inclusive), in sequence
    /// order.
    pub fn stream_from_sequence(&self, sequence: i64) -> (r: Vec<Vec<u8>>)
        ensures
            exists|ks: Seq<i64>|
                {
                    &&& keys_from(self@, sequence, ks)
                    &&& r@.len() == ks.len()
                    &&& forall|i: int| 0 <= i < ks.len() ==> #[trigger] r@[i]@ == self@[ks[i]]
                },
    {
        let mut out: Vec<Vec<u8>> = Vec::new();
        let ghost m = self.messages@;
        let iter = self.messages.iter();
        let ghost rem = iter.remaining();
        let ghost keys = rem.map_values(|kv: (&i64, &Vec<u8>)| *kv.0);
        proof {
            lemma_iter_keys_increasing(keys);
        }
        let ghost mut ks: Seq<i64> = Seq::empty();
        let ghost mut first: int = 0;
        for kv in it: iter
            invariant
                m == self.messages@,
                it.seq() == rem,
                keys == rem.map_values(|kv: (&i64, &Vec<u8>)| *kv.0),
                keys.len() == m.dom().len(),
                forall|i: int, j: int| 0 <= i < j < keys.len() ==> #[trigger] keys[i] < #[trigger] keys[j],
                forall|i: int|
                    #![trigger m.contains_key(*rem[i].0)]
                    #![trigger m[*rem[i].0]]
                    0 <= i < rem.len() ==> m.contains_key(*rem[i].0) && m[*rem[i].0] == *rem[i].1,
                forall|k: i64| #[trigger] m.contains_key(k) ==> rem.contains((&k, &m[k])),
                0 <= first <= it.index(),
                forall|p: int| 0 <= p < first ==> #[trigger] keys[p] < sequence,
                first < it.index() ==> keys[first] >= sequence,
                ks == keys.subrange(first, it.index() as int),
                out@.len() == ks.len(),
                forall|i: int| 0 <= i < ks.len() ==> #[trigger] out@[i]@ == m[ks[i]]@,
        {
            let (k, v) = kv;
            proof {
                assert(rem[it.index() as int] == kv);
                assert(keys[it.index() as int] == *k);
                assert(m.contains_key(*k) && m[*k] == *v);
            }
            if *k >= sequence {
                out.push(slice_to_vec(v.as_slice()));
                proof {
                    ks = ks.push(*k);
                    assert(ks =~= keys.subrange(first, it.index() + 1));
                }
            } else {
                proof {
                    if first < it.index() {
                        assert(keys[first] < keys[it.index() as int]);
                    }
                    first = it.index() + 1;
                    assert(ks.len() == 0);
                    assert(keys.subrange(first, it.index() + 1).len() == 0);
                    assert(ks =~= keys.subrange(first, it.index() + 1));
                }
            }
        }
        proof {
            assert forall|k: i64| #[trigger] ks.contains(k) <==> (self@.contains_key(k) && k >= sequence) by {
                if ks.contains(k) {
                    let i = choose|i: int| 0 <= i < ks.len() && ks[i] == k;
                    assert(keys[first + i] == k);
                    assert(m.contains_key(*rem[first + i].0));
                    if first + i > first {
                        assert(keys[first] < keys[first + i]);
                    }
                }
                if self@.contains_key(k) && k >= sequence {
                    assert(m.contains_key(k));
                    assert(rem.contains((&k, &m[k])));
                    let p = choose|p: int| 0 <= p < rem.len() && rem[p] == (&k, &m[k]);
                    assert(keys[p] == k);
                    assert(p >= first);
                    assert(ks[p - first] == k);
                }
            }
            assert forall|i: int, j: int| 0 <= i < j < ks.len() implies #[trigger] ks[i] < #[trigger] ks[j] by {
                assert(ks[i] == keys[first + i] && ks[j] == keys[first + j]);
            }
            assert forall|i: int| 0 <= i < ks.len() implies #[trigger] out@[i]@ == self@[ks[i]] by {
                assert(self@[ks[i]] == m[ks[i]]@);
            }
            assert(keys_from(self@, sequence, ks));
        }
        out
    }
}

/// The keys of a map's iterator come in increasing order.
proof fn lemma_iter_keys_increasing(keys: Seq<i64>)
    requires
        vstd::std_specs::btree::increasing_seq(keys),
    ensures
        forall|i: int, j: int| 0 <= i < j < keys.len() ==> #[trigger] keys[i] < #[trigger] keys[j],
{
    broadcast use vstd::std_specs::btree::axiom_increasing_seq_meaning;

    assert(vstd::laws_cmp::obeys_cmp::<i64>());
    assert forall|i: int, j: int| 0 <= i < j < keys.len() implies #[trigger] keys[i] < #[trigger] keys[j] by {
        assert(vstd::std_specs::cmp::OrdSpec::cmp_spec(&keys[i], &keys[j]) is Less);
    }
}

/// A message read back is the message written: once `buf` is recorded
/// under `sequence`, reading `sequence` gives `buf`.
pub proof fn lemma_read_after_write(m: Map<i64, Seq<u8>>, sequence: i64, buf: Seq<u8>)
    requires
        write_outcome(m, sequence, buf).1 is Ok,
    ensures
        read_outcome(write_outcome(m, sequence, buf).0, sequence) == Ok::<
            Seq<u8>,
            MockPersistenceError,
        >(buf),
{
}

/// A master log never overwrites: writing a sequence that is recorded
/// fails and leaves every recorded message as it was.
pub proof fn lemma_write_never_overwrites(m: Map<i64, Seq<u8>>, sequence: i64, buf: Seq<u8>)
    requires
        m.contains_key(sequence),
    ensures
        write_outcome(m, sequence, buf) == (m, Err::<(), MockPersistenceError>(
            MockPersistenceError::SequenceExists(sequence),
        )),
{
}

/// A write touches only its own sequence: after writing `sequence`,
/// reading any other sequence gives what it gave before, and every message
/// recorded under another sequence is kept.
pub proof fn lemma_write_keeps_other_messages(
    m: Map<i64, Seq<u8>>,
    sequence: i64,
    buf: Seq<u8>,
    other: i64,
)
    requires
        other != sequence,
    ensures
        read_outcome(write_outcome(m, sequence, buf).0, other) == read_outcome(m, other),
        write_outcome(m, sequence, buf).0.contains_key(other) == m.contains_key(other),
        write_outcome(m, sequence, buf).0.dom() == m.dom().insert(sequence),
{
    assert(write_outcome(m, sequence, buf).0.dom() =~= m.dom().insert(sequence));
}

} // verus!
