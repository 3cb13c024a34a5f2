//! Decision core of the worker-to-primary digest relay: a bounded set of
//! in-flight sends, load shedding above a hard ceiling, and termination on
//! a shutdown reconfiguration. The surrounding task feeds it one ready
//! event at a time and performs the actions it hands back.

use vstd::prelude::*;
use crate::types::{NetworkPublicKey, ReconfigureNotification, sat_add_u64, WorkerPrimaryMessage};

verus! {

/// The maximum number of digests kept in memory waiting to be sent to the
/// primary; above it, new digests are dropped rather than queued.
pub const MAX_PENDING_DIGESTS: usize = 10_000;

/// One ready event of the relay loop's fair multi-way wait.
#[derive(Clone, Copy, PartialEq, Eq, Debug)]
pub enum ConnectorEvent {
    /// A digest arrived on the input channel.
    Digest(WorkerPrimaryMessage),
    /// The reconfiguration broadcast changed to this value.
    Reconfigure(ReconfigureNotification),
    /// Some in-flight send resolved; its result is discarded.
    SendCompleted,
}

/// What the surrounding task must do after an event is handled.
#[derive(Clone, Copy, PartialEq, Eq, Debug)]
pub enum ConnectorAction {
    /// Start an asynchronous send of this message to this primary.
    StartSend(NetworkPublicKey, WorkerPrimaryMessage),
    /// Shed the message: the relay is at its ceiling.
    DropDigest(WorkerPrimaryMessage),
    /// Leave the loop.
    Exit,
    /// Nothing to do; wait for the next event.
    Continue,
}

/// Does this event demand termination?
pub open spec fn is_shutdown_event(e: ConnectorEvent) -> bool {
    e == ConnectorEvent::Reconfigure(ReconfigureNotification::Shutdown)
}

/// Sends batch digests to the primary, never holding more than
/// [`MAX_PENDING_DIGESTS`] sends in flight.
pub struct PrimaryConnector {
    /// The network identity of this worker's primary.
    pub primary_name: NetworkPublicKey,
    /// How many started sends have not completed yet.
    pub in_flight: usize,
    /// Set once a shutdown reconfiguration was observed.
    pub shut_down: bool,
    /// How many digests were shed at the ceiling, over the whole run; an
    /// operator-visible measure of a congested or unreachable primary.
    pub dropped_digest_count: u64,
}

impl PrimaryConnector {
    /// The in-flight set never exceeds the ceiling.
    pub open spec fn wf(self) -> bool {
        self.in_flight <= MAX_PENDING_DIGESTS
    }

    /// The state after handling one event.
    pub open spec fn spec_step_state(self, e: ConnectorEvent) -> PrimaryConnector {
        match e {
            ConnectorEvent::Digest(_) => {
                if self.in_flight >= MAX_PENDING_DIGESTS {
                    PrimaryConnector {
                        dropped_digest_count: sat_add_u64(self.dropped_digest_count, 1),
                        ..self
                    }
                } else {
                    PrimaryConnector { in_flight: (self.in_flight + 1) as usize, ..self }
                }
            },
            ConnectorEvent::Reconfigure(n) => {
                if n == ReconfigureNotification::Shutdown {
                    PrimaryConnector { shut_down: true, ..self }
                } else {
                    self
                }
            },
            ConnectorEvent::SendCompleted => {
                if self.in_flight > 0 {
                    PrimaryConnector { in_flight: (self.in_flight - 1) as usize, ..self }
                } else {
                    self
                }
            },
        }
    }

    /// The action handed back for one event.
    pub open spec fn spec_step_action(self, e: ConnectorEvent) -> ConnectorAction {
        match e {
            ConnectorEvent::Digest(m) => {
                if self.in_flight >= MAX_PENDING_DIGESTS {
                    ConnectorAction::DropDigest(m)
                } else {
                    ConnectorAction::StartSend(self.primary_name, m)
                }
            },
            ConnectorEvent::Reconfigure(n) => {
                if n == ReconfigureNotification::Shutdown {
                    ConnectorAction::Exit
                } else {
                    ConnectorAction::Continue
                }
            },
            ConnectorEvent::SendCompleted => ConnectorAction::Continue,
        }
    }

    pub fn new(primary_name: NetworkPublicKey) -> (c: Self)
        ensures
            c.primary_name == primary_name,
            c.in_flight == 0,
            !c.shut_down,
            c.dropped_digest_count == 0,
            c.wf(),
    {
        PrimaryConnector { primary_name, in_flight: 0, shut_down: false, dropped_digest_count: 0 }
    }

    /// Handles one ready event. A digest at the ceiling is dropped, never
    /// queued; below it, a send is started and occupies one slot. A
    /// shutdown reconfiguration demands exit at once; any other value is
    /// observed and ignored. A completed send frees its slot, its result
    /// discarded.
    pub fn handle_event(&mut self, event: ConnectorEvent) -> (a: ConnectorAction)
        requires
            old(self).wf(),
            !old(self).shut_down,
        ensures
            *final(self) == old(self).spec_step_state(event),
            a == old(self).spec_step_action(event),
            final(self).wf(),
            final(self).primary_name == old(self).primary_name,
            event matches ConnectorEvent::Digest(m) ==> (old(self).in_flight
                >= MAX_PENDING_DIGESTS ==> a == ConnectorAction::DropDigest(m)
                && final(self).in_flight == old(self).in_flight),
            event matches ConnectorEvent::Digest(m) ==> (old(self).in_flight
                < MAX_PENDING_DIGESTS ==> a == ConnectorAction::StartSend(
                old(self).primary_name,
                m,
            ) && final(self).in_flight == old(self).in_flight + 1),
            is_shutdown_event(event) ==> a == ConnectorAction::Exit && final(self).shut_down,
            !is_shutdown_event(event) ==> !final(self).shut_down,
    {
        match event {
            ConnectorEvent::Digest(m) => {
                if self.in_flight >= MAX_PENDING_DIGESTS {
                    if self.dropped_digest_count < u64::MAX {
                        self.dropped_digest_count = self.dropped_digest_count + 1;
                    }
                    ConnectorAction::DropDigest(m)
                } else {
                    self.in_flight = self.in_flight + 1;
                    ConnectorAction::StartSend(self.primary_name, m)
                }
            },
            ConnectorEvent::Reconfigure(n) => {
                match n {
                    ReconfigureNotification::Shutdown => {
                        self.shut_down = true;
                        ConnectorAction::Exit
                    },
                    _ => ConnectorAction::Continue,
                }
            },
            ConnectorEvent::SendCompleted => {
                if self.in_flight > 0 {
                    self.in_flight = self.in_flight - 1;
                }
                ConnectorAction::Continue
            },
        }
    }
}

/// The state after a run over these events, stopping at the first
/// shutdown reconfiguration.
pub open spec fn spec_run_state(pre: PrimaryConnector, es: Seq<ConnectorEvent>) -> PrimaryConnector
    decreases es.len(),
{
    if es.len() == 0 {
        pre
    } else if is_shutdown_event(es[0]) {
        pre.spec_step_state(es[0])
    } else {
        spec_run_state(pre.spec_step_state(es[0]), es.drop_first())
    }
}

/// The actions of a run over these events, stopping at the first shutdown
/// reconfiguration.
pub open spec fn spec_run_actions(pre: PrimaryConnector, es: Seq<ConnectorEvent>) -> Seq<
    ConnectorAction,
>
    decreases es.len(),
{
    if es.len() == 0 {
        Seq::empty()
    } else if is_shutdown_event(es[0]) {
        seq![pre.spec_step_action(es[0])]
    } else {
        seq![pre.spec_step_action(es[0])] + spec_run_actions(
            pre.spec_step_state(es[0]),
            es.drop_first(),
        )
    }
}

impl PrimaryConnector {
    /// Processes a sequence of ready events in order, handing back the
    /// actions taken, and leaves the loop at the first shutdown
    /// reconfiguration, whatever is in flight or still pending.
    pub fn run(&mut self, events: Vec<ConnectorEvent>) -> (actions: Vec<ConnectorAction>)
        requires
            old(self).wf(),
            !old(self).shut_down,
        ensures
            actions@ == spec_run_actions(*old(self), events@),
            *final(self) == spec_run_state(*old(self), events@),
            final(self).wf(),
    {
        let mut actions: Vec<ConnectorAction> = Vec::new();
        let mut i: usize = 0;
        proof {
            assert(events@.skip(0) =~= events@);
            assert(actions@ + spec_run_actions(*self, events@) =~= spec_run_actions(
                *self,
                events@,
            ));
        }
        while i < events.len()
            invariant
                i <= events.len(),
                self.wf(),
                !self.shut_down,
                spec_run_state(*old(self), events@) == spec_run_state(
                    *self,
                    events@.skip(i as int),
                ),
                spec_run_actions(*old(self), events@) == actions@ + spec_run_actions(
                    *self,
                    events@.skip(i as int),
                ),
            decreases events.len() - i,
        {
            let ghost pre = *self;
            let ghost rest = events@.skip(i as int);
            proof {
                assert(rest[0] == events@[i as int]);
                assert(rest.drop_first() =~= events@.skip(i + 1));
            }
            let e = events[i];
            let a = self.handle_event(e);
            actions.push(a);
            match a {
                ConnectorAction::Exit => {
                    proof {
                        assert(is_shutdown_event(e));
                        assert(spec_run_actions(pre, rest) =~= seq![a]);
                        assert(actions@ =~= actions@.drop_last() + seq![a]);
                        assert(actions@.drop_last() + spec_run_actions(pre, rest) =~= actions@);
                    }
                    return actions;
                },
                _ => {
                    proof {
                        assert(!is_shutdown_event(e));
                        assert(spec_run_actions(pre, rest) == seq![a] + spec_run_actions(
                            *self,
                            rest.drop_first(),
                        ));
                        assert(actions@.drop_last() + spec_run_actions(pre, rest) =~= actions@
                            + spec_run_actions(*self, events@.skip(i + 1)));
                        assert(spec_run_state(pre, rest) == spec_run_state(
                            *self,
                            events@.skip(i + 1),
                        ));
                    }
                },
            }
            i = i + 1;
        }
        proof {
            assert(events@.skip(events@.len() as int) =~= Seq::<ConnectorEvent>::empty());
        }
        actions
    }
}

/// A whole run keeps the in-flight set within the ceiling.
pub proof fn lemma_run_preserves_bound(pre: PrimaryConnector, es: Seq<ConnectorEvent>)
    requires
        pre.wf(),
    ensures
        spec_run_state(pre, es).wf(),
    decreases es.len(),
{
    if es.len() > 0 && !is_shutdown_event(es[0]) {
        lemma_run_preserves_bound(pre.spec_step_state(es[0]), es.drop_first());
    }
}

/// Backpressure bound: at no point of a run, whatever the events, does
/// the connector hold more than [`MAX_PENDING_DIGESTS`] sends in flight;
/// at the ceiling a new digest is dropped, not queued.
pub proof fn lemma_in_flight_bounded(pre: PrimaryConnector, es: Seq<ConnectorEvent>)
    requires
        pre.wf(),
    ensures
        forall|i: int| 0 <= i <= es.len() ==> spec_run_state(pre, #[trigger] es.take(i)).in_flight
            <= MAX_PENDING_DIGESTS,
{
    assert forall|i: int| 0 <= i <= es.len() implies spec_run_state(
        pre,
        #[trigger] es.take(i),
    ).in_flight <= MAX_PENDING_DIGESTS by {
        lemma_run_preserves_bound(pre, es.take(i));
    }
}

/// Shutdown termination: the first shutdown reconfiguration ends the run
/// within that very step — exactly one action follows the events before
/// it, that action is `Exit`, and the connector is shut down; pending
/// input and in-flight sends are simply left behind.
pub proof fn lemma_shutdown_terminates(pre: PrimaryConnector, es: Seq<ConnectorEvent>, k: int)
    requires
        0 <= k < es.len(),
        is_shutdown_event(es[k]),
        forall|j: int| 0 <= j < k ==> !is_shutdown_event(#[trigger] es[j]),
    ensures
        spec_run_actions(pre, es).len() == k + 1,
        spec_run_actions(pre, es)[k] == ConnectorAction::Exit,
        spec_run_state(pre, es).shut_down,
    decreases k,
{
    if k == 0 {
        assert(spec_run_actions(pre, es) == seq![pre.spec_step_action(es[0])]);
    } else {
        let rest = es.drop_first();
        assert(!is_shutdown_event(es[0]));
        assert(rest[k - 1] == es[k]);
        assert forall|j: int| 0 <= j < k - 1 implies !is_shutdown_event(#[trigger] rest[j]) by {
            assert(rest[j] == es[j + 1]);
        }
        lemma_shutdown_terminates(pre.spec_step_state(es[0]), rest, k - 1);
    }
}

} // verus!
