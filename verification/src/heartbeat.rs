//! The heartbeat loop's control state.  Every `interval_secs` seconds the
//! loop sends the liveness frame of [`crate::codec::heartbeat_frame`]; the
//! first failed send stops it for good.  The waiting and the sending live
//! with the transport outside the library; this state machine decides,
//! from each send's outcome, whether the loop goes on.

use vstd::prelude::*;

verus! {

/// Whether the heartbeat is stopped after a run of send outcomes (`true`
/// is a send that succeeded), starting from `init`.
pub open spec fn stopped_after(init: bool, outcomes: Seq<bool>) -> bool
    decreases outcomes.len(),
{
    if outcomes.len() == 0 {
        init
    } else {
        stopped_after(init, outcomes.drop_last()) || !outcomes.last()
    }
}

/// The heartbeat loop's state: the configured interval, and whether a send
/// has failed yet.
pub struct Heartbeat {
    pub interval_secs: u64,
    pub stopped: bool,
}

impl Heartbeat {
    /// A heartbeat that will send every `interval_secs` seconds.
    pub fn new(interval_secs: u64) -> (r: Self)
        ensures
            r.interval_secs == interval_secs,
            !r.stopped,
    {
        Heartbeat { interval_secs, stopped: false }
    }

    /// True while the next tick should still send.
    pub fn should_send(&self) -> (r: bool)
        ensures
            r == !self.stopped,
    {
        !self.stopped
    }

    /// What one tick of the loop submits to the outbound path: the
    /// canonical liveness frame while the heartbeat is running, nothing
    /// once it has stopped.  The wait between ticks is the driver's; this
    /// fixes what is emitted at each one.
    pub fn tick_frame(&self) -> (r: Option<String>)
        ensures
            self.stopped <==> r is None,
            r matches Some(t) ==> t@ == crate::codec::heartbeat_frame_text(),
    {
        if self.stopped {
            None
        } else {
            Some(crate::codec::heartbeat_frame())
        }
    }

    /// Records the outcome of one send: a failure stops the heartbeat, and
    /// nothing restarts it.
    pub fn record_send(&mut self, ok: bool)
        ensures
            final(self).stopped == (old(self).stopped || !ok),
            final(self).interval_secs == old(self).interval_secs,
    {
        if !ok {
            self.stopped = true;
        }
    }
}

/// One recorded outcome extends a run: the heartbeat is stopped after the
/// longer run exactly when it was already stopped or the last send failed.
/// This is the step that `Heartbeat::record_send` takes.
pub proof fn lemma_stopped_after_step(init: bool, outcomes: Seq<bool>, outcome: bool)
    ensures
        stopped_after(init, outcomes.push(outcome)) == (stopped_after(init, outcomes) || !outcome),
{
    assert(outcomes.push(outcome)[outcomes.len() as int] == outcome);
    assert(outcomes.push(outcome).drop_last() =~= outcomes);
}

/// Once a send has failed the heartbeat has ceased permanently: no run of
/// later outcomes restarts it.
pub proof fn lemma_heartbeat_stops_permanently(outcomes: Seq<bool>)
    ensures
        stopped_after(true, outcomes),
    decreases outcomes.len(),
{
    if outcomes.len() > 0 {
        lemma_heartbeat_stops_permanently(outcomes.drop_last());
    }
}

/// A running heartbeat keeps sending exactly until the first failure: it
/// has stopped after a run of outcomes exactly when some send in the run
/// failed.
pub proof fn lemma_heartbeat_runs_until_failure(outcomes: Seq<bool>)
    ensures
        stopped_after(false, outcomes) <==> outcomes.contains(false),
    decreases outcomes.len(),
{
    if outcomes.len() > 0 {
        let rest = outcomes.drop_last();
        lemma_heartbeat_runs_until_failure(rest);
        if outcomes.last() {
            assert(outcomes.contains(false) <==> rest.contains(false)) by {
                if rest.contains(false) {
                    let idx = choose|idx: int| 0 <= idx < rest.len() && rest[idx] == false;
                    assert(outcomes[idx] == false);
                }
                if outcomes.contains(false) {
                    let idx = choose|idx: int| 0 <= idx < outcomes.len() && outcomes[idx] == false;
                    assert(idx < outcomes.len() - 1);
                    assert(rest[idx] == false);
                }
            }
        } else {
            assert(outcomes[outcomes.len() - 1] == false);
        }
    }
}

} // verus!
