//! The life of one loopback listener of a forward: bind, accept, and bind anew when the socket
//! dies.
//!
//! Binding is retried until it succeeds. A listener that gave up would leave its forward dead but
//! enabled.

use vstd::prelude::*;

use crate::forward::{
    backoff, rebind_backoff, ForwardShared, ForwardSharedView, ForwardStateView, IoFailure,
    StackHealth, StackHealthView, STACK_V4, STACK_V6,
};

verus! {

/// What a listener is doing.
#[derive(Debug, Clone, Copy, PartialEq, Eq, Structural)]
pub enum ListenerPhase {
    Binding,
    Accepting,
}

/// What to do after a failed accept.
#[derive(Debug, Clone, Copy, PartialEq, Eq, Structural)]
pub enum AcceptOutcome {
    /// Wait, and accept again.
    Retry,
    /// The socket is dead: bind anew.
    Rebind,
}

/// What has happened to a listener.
#[derive(Debug)]
pub enum ListenerEvent {
    BindFailed(IoFailure),
    Bound,
    /// A connection was accepted; whether there was someone left to hand it to.
    Accepted { handed_off: bool },
    AcceptFailed { error: IoFailure, outcome: AcceptOutcome },
}

/// What a listener does next.
#[derive(Debug, Clone, Copy, PartialEq, Eq, Structural)]
pub enum ListenerAction {
    Bind,
    /// Bind after this many milliseconds.
    BindAfter(u64),
    Accept,
    /// Accept again once the retry's own delay is over.
    AcceptAfterRetryDelay,
    /// Nothing is left to serve.
    End,
}

/// One loopback listener of a forward.
#[derive(Debug)]
pub struct Listener {
    pub stack: usize,
    pub phase: ListenerPhase,
    /// How many binds in a row have failed.
    pub attempt: u32,
}

/// Whether an event can happen in a phase.
pub open spec fn event_fits(phase: ListenerPhase, event: ListenerEvent) -> bool {
    match event {
        ListenerEvent::BindFailed(_) | ListenerEvent::Bound => phase == ListenerPhase::Binding,
        ListenerEvent::Accepted { .. } | ListenerEvent::AcceptFailed { .. } => phase
            == ListenerPhase::Accepting,
    }
}

/// What a listener does after an event.
pub open spec fn next_action(attempt: u32, event: ListenerEvent) -> ListenerAction {
    match event {
        ListenerEvent::BindFailed(_) => ListenerAction::BindAfter(backoff(attempt as nat) as u64),
        ListenerEvent::Bound => ListenerAction::Accept,
        ListenerEvent::Accepted { handed_off } => if handed_off {
            ListenerAction::Accept
        } else {
            ListenerAction::End
        },
        ListenerEvent::AcceptFailed { outcome, .. } => match outcome {
            AcceptOutcome::Retry => ListenerAction::AcceptAfterRetryDelay,
            AcceptOutcome::Rebind => ListenerAction::Bind,
        },
    }
}

/// The phase of a listener after an event.
pub open spec fn next_phase(event: ListenerEvent) -> ListenerPhase {
    match event {
        ListenerEvent::BindFailed(_) => ListenerPhase::Binding,
        ListenerEvent::AcceptFailed { outcome: AcceptOutcome::Rebind, .. } => ListenerPhase::Binding,
        _ => ListenerPhase::Accepting,
    }
}

/// How many binds in a row have failed after an event.
pub open spec fn next_attempt(attempt: u32, event: ListenerEvent) -> u32 {
    match event {
        ListenerEvent::BindFailed(_) => if attempt < u32::MAX {
            (attempt + 1) as u32
        } else {
            attempt
        },
        _ => 0,
    }
}

/// The health that an event shows, if it shows any.
pub open spec fn health_after(event: ListenerEvent) -> Option<StackHealthView> {
    match event {
        ListenerEvent::BindFailed(e) => Some(StackHealthView::failed(e@)),
        ListenerEvent::Bound => Some(StackHealthView::bound()),
        ListenerEvent::AcceptFailed { error, outcome: AcceptOutcome::Rebind } => Some(
            StackHealthView::failed(error@),
        ),
        _ => None,
    }
}

/// What the forward's tasks share after an event.
pub open spec fn shared_after(
    shared: ForwardSharedView,
    stack: usize,
    event: ListenerEvent,
) -> ForwardSharedView {
    match health_after(event) {
        Some(health) => shared.with_health(stack, health),
        None => shared,
    }
}

impl Listener {
    /// Whether the slot exists, and failures are counted only while binding.
    pub open spec fn wf(&self) -> bool {
        &&& self.stack == STACK_V4 || self.stack == STACK_V6
        &&& self.phase == ListenerPhase::Accepting ==> self.attempt == 0
    }

    /// A listener that is about to bind for the first time.
    pub fn new(stack: usize) -> (r: (Self, ListenerAction))
        requires
            stack == STACK_V4 || stack == STACK_V6,
        ensures
            r.0.wf(),
            r.0 == (Listener { stack, phase: ListenerPhase::Binding, attempt: 0 }),
            r.1 == ListenerAction::Bind,
    {
        (Listener { stack, phase: ListenerPhase::Binding, attempt: 0 }, ListenerAction::Bind)
    }

    /// Takes note of an event, records the listener's health, and says what to do next.
    pub fn step(&mut self, shared: &mut ForwardShared, event: ListenerEvent) -> (r: ListenerAction)
        requires
            old(self).wf(),
            event_fits(old(self).phase, event),
        ensures
            final(self).wf(),
            *final(self) == (Listener {
                stack: old(self).stack,
                phase: next_phase(event),
                attempt: next_attempt(old(self).attempt, event),
            }),
            final(shared)@ == shared_after(old(shared)@, old(self).stack, event),
            r == next_action(old(self).attempt, event),
    {
        match event {
            ListenerEvent::BindFailed(e) => {
                shared.set_stack(self.stack, StackHealth::down(&e));
                let delay = rebind_backoff(self.attempt);
                if self.attempt < u32::MAX {
                    self.attempt = self.attempt + 1;
                }
                ListenerAction::BindAfter(delay)
            },
            ListenerEvent::Bound => {
                shared.set_stack(self.stack, StackHealth::up());
                self.attempt = 0;
                self.phase = ListenerPhase::Accepting;
                ListenerAction::Accept
            },
            ListenerEvent::Accepted { handed_off } => {
                if handed_off {
                    ListenerAction::Accept
                } else {
                    ListenerAction::End
                }
            },
            ListenerEvent::AcceptFailed { error, outcome } => match outcome {
                AcceptOutcome::Rebind => {
                    shared.set_stack(self.stack, StackHealth::down(&error));
                    self.attempt = 0;
                    self.phase = ListenerPhase::Binding;
                    ListenerAction::Bind
                },
                AcceptOutcome::Retry => ListenerAction::AcceptAfterRetryDelay,
            },
        }
    }
}

/// A listener never gives up: it ends only when there is no one left to hand a connection to.
/// After any failed bind it binds again, and after a dead socket it binds anew at once.
pub proof fn law_listener_never_gives_up(attempt: u32, event: ListenerEvent)
    ensures
        next_action(attempt, event) == ListenerAction::End <==> (event matches ListenerEvent::Accepted {
            handed_off,
        } && !handed_off),
        event is BindFailed ==> next_action(attempt, event) is BindAfter,
        next_action(attempt, event) == ListenerAction::Bind ==> next_phase(event)
            == ListenerPhase::Binding,
{
}

/// Once a listener has bound, its forward is listening, whatever went before.
pub proof fn law_bound_listener_listens(shared: ForwardSharedView, stack: usize)
    requires
        stack == STACK_V4 || stack == STACK_V6,
    ensures
        shared_after(shared, stack, ListenerEvent::Bound).state
            == ForwardStateView::Listening,
{
}

} // verus!
