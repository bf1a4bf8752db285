//! Delivery in sequence order, as a property of runs of the subscriber's
//! decision functions.
use vstd::prelude::*;

verus! {

/// One step of a subscriber: it either delivers the sequence it wants and
/// then wants the next one, or delivers nothing and keeps wanting the same.
pub open spec fn delivery_step(want_before: i64, delivered: Option<i64>, want_after: i64) -> bool {
    match delivered {
        Some(s) => s == want_before && want_after == want_before + 1,
        None => want_after == want_before,
    }
}

/// Some step of the run delivers sequence `s`.
pub open spec fn delivers(delivered: Seq<Option<i64>>, s: i64) -> bool {
    exists|i: int| 0 <= i < delivered.len() && #[trigger] delivered[i] == Some(s)
}

/// Messages are delivered exactly once and in sequence order: along any
/// run of steps, where `wants[i]` is the wanted sequence before step `i`,
/// every step that delivers delivers the sequence it wanted, later
/// deliveries carry strictly greater sequences (so none is delivered
/// twice), and every sequence from the first wanted up to the last is
/// delivered (so none is skipped).
pub proof fn lemma_delivered_in_order(wants: Seq<i64>, delivered: Seq<Option<i64>>)
    requires
        wants.len() == delivered.len() + 1,
        forall|i: int|
            0 <= i < delivered.len() ==> #[trigger] delivery_step(wants[i], delivered[i], wants[i + 1]),
    ensures
        forall|i: int| 0 <= i < delivered.len() && (#[trigger] delivered[i] is Some) ==> delivered[i]
            == Some(wants[i]),
        forall|i: int, j: int|
            0 <= i < j < delivered.len() && (#[trigger] delivered[i] is Some) && (
            #[trigger] delivered[j] is Some) ==> delivered[i].unwrap() < delivered[j].unwrap(),
        forall|s: i64| wants[0] <= s < wants.last() ==> #[trigger] delivers(delivered, s),
        forall|i: int| 0 <= i < wants.len() ==> wants[0] <= #[trigger] wants[i] <= wants.last(),
    decreases delivered.len(),
{
    if delivered.len() > 0 {
        let n = delivered.len() - 1;
        let w0 = wants.drop_last();
        let d0 = delivered.drop_last();
        assert forall|i: int| 0 <= i < d0.len() implies #[trigger] delivery_step(w0[i], d0[i], w0[i + 1]) by {
            assert(delivery_step(wants[i], delivered[i], wants[i + 1]));
        }
        lemma_delivered_in_order(w0, d0);
        assert(delivery_step(wants[n], delivered[n], wants[n + 1]));
        assert(w0.last() == wants[n]);
        assert forall|i: int| 0 <= i < delivered.len() && (#[trigger] delivered[i] is Some) implies delivered[i]
            == Some(wants[i]) by {
            assert(delivery_step(wants[i], delivered[i], wants[i + 1]));
        }
        assert forall|i: int| 0 <= i < wants.len() implies wants[0] <= #[trigger] wants[i] <= wants.last() by {
            if i < wants.len() - 1 {
                assert(w0[i] == wants[i]);
            }
        }
        assert forall|i: int, j: int|
            0 <= i < j < delivered.len() && (#[trigger] delivered[i] is Some) && (
            #[trigger] delivered[j] is Some) implies delivered[i].unwrap() < delivered[j].unwrap() by {
            if j < n {
                assert(d0[i] == delivered[i] && d0[j] == delivered[j]);
            } else {
                assert(delivery_step(wants[i], delivered[i], wants[i + 1]));
                assert(w0[i + 1] == wants[i + 1]);
            }
        }
        assert forall|s: i64| wants[0] <= s < wants.last() implies #[trigger] delivers(delivered, s) by {
            if s < wants[n] {
                assert(delivers(d0, s));
                let i = choose|i: int| 0 <= i < d0.len() && #[trigger] d0[i] == Some(s);
                assert(delivered[i] == Some(s));
            } else {
                assert(delivered[n] == Some(s));
            }
        }
    }
}

} // verus!
