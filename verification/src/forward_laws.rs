//! What a forward promises of its state, of the pace of its listeners, and of what goes on beside
//! its relays.

use vstd::prelude::*;

use crate::forward::{
    backoff, can_happen, folded, loop_step, ForwardAction, ForwardEvent, ForwardLoop,
    ForwardSharedView, ForwardStateView, StackHealthView, STACK_V4, STACK_V6,
};
use crate::listener::{
    next_action, next_attempt, next_phase, shared_after, AcceptOutcome, ListenerAction,
    ListenerEvent, ListenerPhase,
};
use crate::signaling::IoErrorKind;
use crate::text::decimal;

verus! {

/// Whether `state` is what two listeners in the given health make of a forward on `port`: it
/// listens if and only if one of them is up, it has failed if and only if neither is up and both
/// have an error, and it is starting if and only if neither is up and one of them has no error
/// yet.
pub open spec fn is_state_of(
    state: ForwardStateView,
    port: u16,
    v4: StackHealthView,
    v6: StackHealthView,
) -> bool {
    &&& state is Listening <==> v4.up || v6.up
    &&& state is Failed <==> !v4.up && !v6.up && v4.error is Some && v6.error is Some
    &&& state is Starting <==> !v4.up && !v6.up && (v4.error is None || v6.error is None)
    &&& state matches ForwardStateView::Failed(reason) ==> {
        let (a, b) = (v4.error->0, v6.error->0);
        if a.kind == IoErrorKind::AddrInUse || b.kind == IoErrorKind::AddrInUse {
            reason == "port "@ + decimal(port as nat) + " is in use"@
        } else {
            reason == a.message
        }
    }
}

/// The state of a forward says what its two listeners are, for every port and every pair of
/// healths: failed only once both are down with an error, and starting until both have resolved
/// their first bind. It makes no difference which of the two is which, but for the reason that is
/// given.
pub proof fn law_state_tells_the_listeners(port: u16, v4: StackHealthView, v6: StackHealthView)
    ensures
        is_state_of(folded(port, v4, v6), port, v4, v6),
        folded(port, v4, v6) is Listening <==> folded(port, v6, v4) is Listening,
        folded(port, v4, v6) is Failed <==> folded(port, v6, v4) is Failed,
        folded(port, v4, v6) is Starting <==> folded(port, v6, v4) is Starting,
{
}

/// Recording the health of a listener puts it in its slot, leaves the other slot, the port, the
/// relays and the last error as they were, and makes the state that of the two healths.
pub proof fn law_recorded_health_makes_the_state(
    s: ForwardSharedView,
    stack: usize,
    health: StackHealthView,
)
    requires
        stack == STACK_V4 || stack == STACK_V6,
    ensures
        ({
            let t = s.with_health(stack, health);
            &&& stack == 0 ==> t.v4 == health && t.v6 == s.v6
            &&& stack == 1 ==> t.v6 == health && t.v4 == s.v4
            &&& t.port == s.port
            &&& t.active == s.active
            &&& t.last_conn_error == s.last_conn_error
            &&& is_state_of(t.state, t.port, t.v4, t.v6)
        }),
{
}

/// At its start a forward is starting: no listener has bound or failed, no relay runs.
pub proof fn law_a_forward_starts_unresolved(port: u16)
    ensures
        ({
            let s = ForwardSharedView::initial(port);
            &&& s.port == port
            &&& s.state == ForwardStateView::Starting
            &&& !s.v4.up && s.v4.error is None
            &&& !s.v6.up && s.v6.error is None
            &&& s.active == 0
            &&& s.last_conn_error is None
        }),
{
}

/// At its start the loop of a forward has said nothing and holds no connection.
pub proof fn law_a_loop_starts_quiet()
    ensures
        !ForwardLoop::initial().warned,
        !ForwardLoop::initial().holding,
{
}

/// A status tells the forward's id, its state, its relays and its last error.
pub proof fn law_status_tells_all(s: ForwardSharedView, id: Seq<char>)
    ensures
        s.status(id).id == id,
        s.status(id).state == s.state,
        s.status(id).active == s.active,
        s.status(id).last_conn_error == s.last_conn_error,
{
}

/// The first delay is a quarter of a second; each one after that is twice the one before, up to
/// five seconds.
pub proof fn law_backoff_doubles(attempt: nat)
    ensures
        backoff(0) == 250,
        2 * backoff(attempt) <= 5000 ==> backoff(attempt + 1) == 2 * backoff(attempt),
        2 * backoff(attempt) > 5000 ==> backoff(attempt + 1) == 5000,
{
    reveal_with_fuel(crate::forward::doubled, 2);
}

/// Whether exactly the last `n` events are failed binds.
pub open spec fn ends_in_failed_binds(events: Seq<ListenerEvent>, n: nat) -> bool {
    &&& n <= events.len()
    &&& forall|i: int|
        events.len() - n <= i < events.len() ==> (#[trigger] events[i]) is BindFailed
    &&& n < events.len() ==> events[events.len() - n - 1] !is BindFailed
}

/// The failed binds that a listener has counted after events.
pub open spec fn counted(events: Seq<ListenerEvent>) -> u32
    decreases events.len(),
{
    if events.len() == 0 {
        0
    } else {
        next_attempt(counted(events.drop_last()), events.last())
    }
}

/// After `n` failed binds in a row, whatever went before them, the next one waits for the `n`th
/// delay: a success starts the delays anew.
pub proof fn law_delays_follow_failures_in_a_row(
    events: Seq<ListenerEvent>,
    n: nat,
    next: ListenerEvent,
)
    requires
        ends_in_failed_binds(events, n),
        n < u32::MAX,
        next is BindFailed,
    ensures
        counted(events) == n,
        next_action(counted(events), next) == ListenerAction::BindAfter(backoff(n) as u64),
    decreases events.len(),
{
    if events.len() > 0 {
        let init = events.drop_last();
        assert(events[events.len() - 1] == events.last());
        if n > 0 {
            let m = (n - 1) as nat;
            assert(ends_in_failed_binds(init, m)) by {
                assert forall|i: int| init.len() - m <= i < init.len() implies (
                #[trigger] init[i]) is BindFailed by {
                    assert(events[i] is BindFailed);
                }
            }
            law_delays_follow_failures_in_a_row(init, m, next);
        }
    }
}

/// What a listener does and shows: a failed bind marks it down with the error and is tried again
/// later; a bound socket marks it up and is accepted on; an accepted connection changes nothing; a
/// dead socket marks it down with the error and is bound anew at once; any other failure to accept
/// changes nothing and is waited out. Nothing but its own slot, and the state that follows from
/// it, changes.
pub proof fn law_listener_shows_what_happened(
    s: ForwardSharedView,
    stack: usize,
    attempt: u32,
    event: ListenerEvent,
)
    requires
        stack == STACK_V4 || stack == STACK_V6,
    ensures
        ({
            let t = shared_after(s, stack, event);
            let own = if stack == 0 {
                t.v4
            } else {
                t.v6
            };
            &&& event matches ListenerEvent::BindFailed(e) ==> {
                &&& !own.up && own.error == Some(e@)
                &&& next_action(attempt, event) is BindAfter
                &&& next_phase(event) == ListenerPhase::Binding
            }
            &&& event is Bound ==> {
                &&& own.up && own.error is None
                &&& next_action(attempt, event) == ListenerAction::Accept
                &&& next_phase(event) == ListenerPhase::Accepting
            }
            &&& event matches ListenerEvent::Accepted { handed_off } ==> {
                &&& t == s
                &&& next_action(attempt, event) == (if handed_off {
                    ListenerAction::Accept
                } else {
                    ListenerAction::End
                })
            }
            &&& event matches ListenerEvent::AcceptFailed { error, outcome } ==> if outcome
                == AcceptOutcome::Rebind {
                &&& !own.up && own.error == Some(error@)
                &&& next_action(attempt, event) == ListenerAction::Bind
                &&& next_phase(event) == ListenerPhase::Binding
            } else {
                &&& t == s
                &&& next_action(attempt, event) == ListenerAction::AcceptAfterRetryDelay
                &&& next_phase(event) == ListenerPhase::Accepting
            }
            &&& stack == 0 ==> t.v6 == s.v6
            &&& stack == 1 ==> t.v4 == s.v4
            &&& t.port == s.port && t.active == s.active && t.last_conn_error == s.last_conn_error
            &&& t != s ==> is_state_of(t.state, t.port, t.v4, t.v6)
        }),
{
}

/// The loop says that accepting pauses when a connection has to wait, once until a connection is
/// relayed at once again. A listener whose task ended is down, with an error that names it, and
/// neither the other listener nor the relays notice.
pub proof fn law_loop_beside_relays(l: ForwardLoop, s: ForwardSharedView, event: ForwardEvent)
    requires
        l.wf(s),
        can_happen(l, s, event),
    ensures
        ({
            let (l2, s2, action) = loop_step(l, s, event);
            &&& action == (ForwardAction::Hold { warn: true }) <==> event is Inbound && s.active
                == 128 && !l.warned
            &&& event is Inbound ==> l2.warned == (s.active == 128)
            &&& event !is Inbound ==> l2.warned == l.warned
            &&& event !is StackEnded ==> s2.v4 == s.v4 && s2.v6 == s.v6 && s2.state == s.state
            &&& s2.port == s.port
            &&& event matches ForwardEvent::StackEnded { stack, failure } ==> {
                let (own, other, before) = if stack == 0 {
                    (s2.v4, s2.v6, s.v6)
                } else {
                    (s2.v6, s2.v4, s.v4)
                };
                let label = if stack == 0 {
                    "IPv4"@
                } else {
                    "IPv6"@
                };
                &&& !own.up
                &&& own.error matches Some(e) && e.kind == IoErrorKind::Other
                &&& own.error->0.message == (match failure {
                    None => label + " listener task "@ + "ended unexpectedly"@,
                    Some(f) => label + " listener task "@ + ("failed: "@ + f@),
                })
                &&& other == before
                &&& s2.active == s.active && s2.last_conn_error == s.last_conn_error && l2 == l
                &&& is_state_of(s2.state, s2.port, s2.v4, s2.v6)
                &&& action is Wait
            }
        }),
{
}

} // verus!
