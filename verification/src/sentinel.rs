//! The single-shot trigger state shared by all connection tasks: the flip
//! from "serving" to "hand off" happens exactly once, first writer wins.

use vstd::prelude::*;
use crate::dispatch::ConnectionOutcome;

verus! {

/// Process-wide sentinel state: whether the launch trigger has fired, and
/// how many connections are in flight. One instance per run, mutated by the
/// listener coordinator only.
pub struct SentinelState {
    triggered: bool,
    active_connections: u64,
}

impl SentinelState {
    /// Whether the trigger has fired. Starts false, set true exactly once,
    /// never reset.
    pub closed spec fn is_triggered(&self) -> bool {
        self.triggered
    }

    /// Connections currently being handled.
    pub closed spec fn connection_count(&self) -> nat {
        self.active_connections as nat
    }

    /// A fresh, untriggered state with no connections.
    pub fn new() -> (s: SentinelState)
        ensures
            !s.is_triggered(),
            s.connection_count() == 0,
    {
        SentinelState { triggered: false, active_connections: 0 }
    }

    /// Read the flag; connection tasks use this to short-circuit once the
    /// trigger has fired.
    pub fn triggered(&self) -> (t: bool)
        ensures
            t == self.is_triggered(),
    {
        self.triggered
    }

    /// Note one accepted connection.
    pub fn connection_opened(&mut self)
        requires
            old(self).connection_count() < u64::MAX,
        ensures
            final(self).connection_count() == old(self).connection_count() + 1,
            final(self).is_triggered() == old(self).is_triggered(),
    {
        self.active_connections = self.active_connections + 1;
    }

    /// Note one connection reaching a terminal outcome.
    pub fn connection_closed(&mut self)
        requires
            old(self).connection_count() > 0,
        ensures
            final(self).connection_count() == old(self).connection_count() - 1,
            final(self).is_triggered() == old(self).is_triggered(),
    {
        self.active_connections = self.active_connections - 1;
    }

    /// Record one connection's outcome. The result says whether the caller
    /// must invoke the launch collaborator now: true exactly on the first
    /// `Trigger` — a compare-and-set discipline in which the first writer
    /// wins and every later `Trigger` observes already-triggered and skips
    /// the side effect.
    pub fn on_outcome(&mut self, outcome: ConnectionOutcome) -> (launch: bool)
        ensures
            launch == (outcome is Trigger && !old(self).is_triggered()),
            final(self).is_triggered() == (old(self).is_triggered() || outcome is Trigger),
            final(self).connection_count() == old(self).connection_count(),
    {
        match outcome {
            ConnectionOutcome::Trigger => {
                if self.triggered {
                    false
                } else {
                    self.triggered = true;
                    true
                }
            },
            _ => false,
        }
    }
}

/// How many launches a run of outcomes causes, folded through the
/// compare-and-set discipline of `SentinelState::on_outcome` starting from
/// a given flag value.
pub open spec fn launch_count(outcomes: Seq<ConnectionOutcome>, triggered: bool) -> nat
    decreases outcomes.len(),
{
    if outcomes.len() == 0 {
        0
    } else {
        (if outcomes[0] is Trigger && !triggered {
            1nat
        } else {
            0nat
        }) + launch_count(outcomes.drop_first(), triggered || outcomes[0] is Trigger)
    }
}

proof fn lemma_launch_count_after_trigger(outcomes: Seq<ConnectionOutcome>)
    ensures
        launch_count(outcomes, true) == 0,
    decreases outcomes.len(),
{
    if outcomes.len() > 0 {
        lemma_launch_count_after_trigger(outcomes.drop_first());
    }
}

/// Trigger exactly-once: over any sequence of connection outcomes handled
/// from an untriggered start, the launch collaborator is invoked exactly
/// once when at least one connection reported `Trigger`, and never
/// otherwise — regardless of how many did.
pub proof fn lemma_trigger_exactly_once(outcomes: Seq<ConnectionOutcome>)
    ensures
        launch_count(outcomes, false) == if (exists|i: int|
            0 <= i < outcomes.len() && outcomes[i] is Trigger) {
            1nat
        } else {
            0nat
        },
    decreases outcomes.len(),
{
    if outcomes.len() > 0 {
        let rest = outcomes.drop_first();
        if outcomes[0] is Trigger {
            lemma_launch_count_after_trigger(rest);
            assert(exists|i: int| 0 <= i < outcomes.len() && outcomes[i] is Trigger) by {
                assert(outcomes[0] is Trigger);
            }
        } else {
            lemma_trigger_exactly_once(rest);
            if exists|i: int| 0 <= i < rest.len() && rest[i] is Trigger {
                let j = choose|i: int| 0 <= i < rest.len() && rest[i] is Trigger;
                assert(outcomes[j + 1] is Trigger);
            } else {
                if exists|i: int| 0 <= i < outcomes.len() && outcomes[i] is Trigger {
                    let j = choose|i: int| 0 <= i < outcomes.len() && outcomes[i] is Trigger;
                    assert(rest[j - 1] is Trigger);
                }
            }
        }
    }
}

} // verus!
