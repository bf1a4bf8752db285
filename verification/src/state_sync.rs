//! The trait of a state that publishers and subscribers keep in sync.
use vstd::prelude::*;

verus! {

/// A state that changes only by deltas: applying the same deltas in the
/// same order to the same state always yields the same state.
///
/// `delta_yields` relates a state, a delta and the state that applying the
/// delta yields; `accepts_delta` says on which deltas applying is defined,
/// and `apply_succeeds` on which of those it succeeds.
pub trait StateSync: Default + Send + Sync + 'static {
    /// A unit of change to the internal state.
    type Delta;
    /// Failure mode applying an update to the internal state.
    type ApplyError;

    /// Applying `delta` to this state is defined.
    spec fn accepts_delta(&self, delta: Self::Delta) -> bool;

    /// `next` is the state that applying `delta` to this state yields.
    spec fn delta_yields(self, delta: Self::Delta, next: Self) -> bool;

    /// Applying `delta` to this state succeeds (rather than returning an
    /// `ApplyError`).
    spec fn apply_succeeds(&self, delta: Self::Delta) -> bool;

    /// Whether applying `delta` to this state is defined, checked when the
    /// program runs, so that a caller can refuse a delta before applying it.
    fn can_apply(&self, delta: &Self::Delta) -> (r: bool)
        ensures
            r == self.accepts_delta(*delta),
    ;

    /// Applies `delta`: it succeeds exactly when
    /// [`StateSync::apply_succeeds`] says so, and then the new state is the
    /// one that [`StateSync::delta_yields`] relates to the state before.
    fn apply_delta(&mut self, delta: Self::Delta) -> (r: Result<(), Self::ApplyError>)
        requires
            old(self).accepts_delta(delta),
        ensures
            r is Ok <==> old(self).apply_succeeds(delta),
            r is Ok ==> old(self).delta_yields(delta, *final(self)),
    ;

    /// Resets the state to its default.
    fn reset(&mut self)
        ensures
            call_ensures(Self::default, (), *final(self)),
    {
        *self = Self::default();
    }
}

} // verus!
