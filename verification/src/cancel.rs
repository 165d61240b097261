//! A session's stop-current-turn signal: firing it requests a cancel and
//! advances its fire epoch; a deferred reset clears the request only if no
//! newer cancel fired since its epoch was taken, so a later cancel that the
//! turn has not yet observed is never erased.

use vstd::prelude::*;

verus! {

/// Abstract state of a cancel signal.
pub struct CancelView {
    /// A cancel is requested and not yet reset.
    pub fired: bool,
    /// How many times the signal fired (wrapping).
    pub epoch: u64,
}

/// The epoch after one more fire.
pub open spec fn next_epoch(e: u64) -> u64 {
    if e == u64::MAX {
        0
    } else {
        (e + 1) as u64
    }
}

/// The signal after it fires.
pub open spec fn fired(v: CancelView) -> CancelView {
    CancelView { fired: true, epoch: next_epoch(v.epoch) }
}

/// The signal after a reset that applies only at epoch `e`.
pub open spec fn reset_at(v: CancelView, e: u64) -> CancelView {
    if v.epoch == e {
        CancelView { fired: false, ..v }
    } else {
        v
    }
}

/// A stop-current-turn signal.
pub struct CancelSignal {
    fired: bool,
    epoch: u64,
}

impl View for CancelSignal {
    type V = CancelView;

    closed spec fn view(&self) -> CancelView {
        CancelView { fired: self.fired, epoch: self.epoch }
    }
}

impl CancelSignal {
    /// A signal that never fired.
    pub fn new() -> (s: Self)
        ensures
            s@ == (CancelView { fired: false, epoch: 0 }),
    {
        CancelSignal { fired: false, epoch: 0 }
    }

    /// Whether a cancel is requested.
    pub fn is_fired(&self) -> (b: bool)
        ensures
            b == self@.fired,
    {
        self.fired
    }

    /// The current fire epoch.
    pub fn epoch(&self) -> (e: u64)
        ensures
            e == self@.epoch,
    {
        self.epoch
    }

    /// Requests a cancel and returns the new fire epoch, for a later
    /// `reset_if_epoch`.
    pub fn fire(&mut self) -> (e: u64)
        ensures
            final(self)@ == fired(old(self)@),
            e == final(self)@.epoch,
    {
        self.fired = true;
        self.epoch = if self.epoch == u64::MAX {
            0
        } else {
            self.epoch + 1
        };
        self.epoch
    }

    /// Clears the cancel request.
    pub fn reset(&mut self)
        ensures
            final(self)@ == (CancelView { fired: false, ..old(self)@ }),
    {
        self.fired = false;
    }

    /// Clears the cancel request only if the signal has not fired again
    /// since epoch `epoch` was returned by `fire`; returns whether it did.
    pub fn reset_if_epoch(&mut self, epoch: u64) -> (applied: bool)
        ensures
            final(self)@ == reset_at(old(self)@, epoch),
            applied == (old(self)@.epoch == epoch),
    {
        if self.epoch == epoch {
            self.fired = false;
            true
        } else {
            false
        }
    }
}

/// A deferred reset never erases a newer cancel: a reset at the epoch of
/// one fire clears that fire, but after the signal fired again the same
/// reset leaves the newer cancel requested.
pub proof fn lemma_deferred_reset_keeps_newer_cancel(v: CancelView)
    ensures
        !reset_at(fired(v), fired(v).epoch).fired,
        reset_at(fired(fired(v)), fired(v).epoch).fired,
{
}

/// The signal after it fired `k` more times.
pub open spec fn fired_times(v: CancelView, k: nat) -> CancelView
    decreases k,
{
    if k == 0 {
        v
    } else {
        fired(fired_times(v, (k - 1) as nat))
    }
}

proof fn lemma_fired_times_epoch(v: CancelView, k: nat)
    requires
        k <= u64::MAX,
    ensures
        fired_times(v, k).epoch == if v.epoch + k <= u64::MAX {
            v.epoch + k
        } else {
            v.epoch + k - u64::MAX - 1
        },
        k > 0 ==> fired_times(v, k).fired,
    decreases k,
{
    if k > 0 {
        lemma_fired_times_epoch(v, (k - 1) as nat);
    }
}

/// A deferred reset never erases a newer cancel, however many came after:
/// a reset at the epoch that a fire returned clears the signal when it has
/// not fired since, and leaves it fired after any number of later fires
/// (short of the epoch counter wrapping all the way round).
pub proof fn lemma_deferred_reset_after_later_fires(v: CancelView, k: nat)
    requires
        k <= u64::MAX,
    ensures
        ({
            let e = fired(v).epoch;
            let later = fired_times(fired(v), k);
            &&& k == 0 ==> !reset_at(later, e).fired
            &&& k > 0 ==> later.epoch != e && reset_at(later, e).fired
        }),
{
    lemma_fired_times_epoch(fired(v), k);
}

} // verus!
