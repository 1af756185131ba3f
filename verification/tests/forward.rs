use flextunnel::forward::{
    rebind_backoff, ForwardAction, ForwardEvent, ForwardLoop, ForwardShared, ForwardSpec,
    ForwardState, IoFailure, StackHealth, FORWARD_REBIND_BASE_BACKOFF, FORWARD_REBIND_MAX_BACKOFF,
    MAX_ACTIVE_RELAYS_PER_FORWARD, STACK_V4, STACK_V6,
};
use flextunnel::forward_manager::ForwardManager;
use flextunnel::listener::{
    AcceptOutcome, Listener, ListenerAction, ListenerEvent, ListenerPhase,
};
use flextunnel::signaling::IoErrorKind;
use flextunnel::wire::{SocketAddr, Target};

fn failure(kind: IoErrorKind, message: &str) -> IoFailure {
    IoFailure { kind, message: message.to_string() }
}

#[test]
fn rebind_backoff_grows_and_caps() {
    assert_eq!(rebind_backoff(0), FORWARD_REBIND_BASE_BACKOFF);
    assert_eq!(rebind_backoff(1), FORWARD_REBIND_BASE_BACKOFF * 2);
    // Doubling is clamped to the ceiling, and stays there for large attempts.
    assert_eq!(rebind_backoff(5), FORWARD_REBIND_MAX_BACKOFF);
    assert_eq!(rebind_backoff(50), FORWARD_REBIND_MAX_BACKOFF);
}

#[test]
fn rebind_backoff_in_milliseconds() {
    let delays: Vec<u64> = (0..7).map(rebind_backoff).collect();
    assert_eq!(delays, vec![250, 500, 1000, 2000, 4000, 5000, 5000]);
    assert_eq!(rebind_backoff(u32::MAX), 5000);
}

#[test]
fn folded_state_tracks_stack_health() {
    let mut shared = ForwardShared::new(8080);
    assert_eq!(shared.state, ForwardState::Starting);
    // One stack resolving down keeps it starting until the other resolves.
    let in_use = failure(IoErrorKind::AddrInUse, "taken");
    shared.set_stack(STACK_V4, StackHealth::down(&in_use));
    assert_eq!(shared.state, ForwardState::Starting);
    shared.set_stack(STACK_V6, StackHealth::up());
    assert_eq!(shared.state, ForwardState::Listening);
    // Both down, either with the port in use, folds to that reason.
    shared.set_stack(STACK_V6, StackHealth::down(&failure(IoErrorKind::Other, "defunct")));
    assert_eq!(shared.state, ForwardState::Failed("port 8080 is in use".into()));
    // Either stack recovering flips it back to listening.
    shared.set_stack(STACK_V4, StackHealth::up());
    assert_eq!(shared.state, ForwardState::Listening);
}

#[test]
fn without_a_taken_port_the_first_reason_counts() {
    let mut shared = ForwardShared::new(1);
    shared.set_stack(STACK_V6, StackHealth::down(&failure(IoErrorKind::Other, "six")));
    shared.set_stack(STACK_V4, StackHealth::down(&failure(IoErrorKind::Other, "four")));
    assert_eq!(shared.state, ForwardState::Failed("four".into()));
}

#[test]
fn stack_reclaims_its_port_once_freed() {
    let mut shared = ForwardShared::new(4000);
    shared.set_stack(STACK_V6, StackHealth::down(&failure(IoErrorKind::Other, "unused")));
    let (mut v4, first) = Listener::new(STACK_V4);
    assert_eq!(first, ListenerAction::Bind);
    for delay in [250, 500, 1000] {
        let held = ListenerEvent::BindFailed(failure(IoErrorKind::AddrInUse, "held"));
        assert_eq!(v4.step(&mut shared, held), ListenerAction::BindAfter(delay));
        assert_eq!(shared.state, ForwardState::Failed("port 4000 is in use".into()));
    }
    assert_eq!(v4.step(&mut shared, ListenerEvent::Bound), ListenerAction::Accept);
    assert_eq!(shared.state, ForwardState::Listening);
    let accepted = ListenerEvent::Accepted { handed_off: true };
    assert_eq!(v4.step(&mut shared, accepted), ListenerAction::Accept);
    // A transient error leaves the socket alone, a dead one is bound anew at once.
    let transient = ListenerEvent::AcceptFailed {
        error: failure(IoErrorKind::Other, "aborted"),
        outcome: AcceptOutcome::Retry,
    };
    assert_eq!(v4.step(&mut shared, transient), ListenerAction::AcceptAfterRetryDelay);
    assert_eq!(shared.state, ForwardState::Listening);
    let dead = ListenerEvent::AcceptFailed {
        error: failure(IoErrorKind::Other, "dead"),
        outcome: AcceptOutcome::Rebind,
    };
    assert_eq!(v4.step(&mut shared, dead), ListenerAction::Bind);
    assert_eq!(v4.phase, ListenerPhase::Binding);
    assert_eq!(shared.state, ForwardState::Failed("dead".into()));
    let held = ListenerEvent::BindFailed(failure(IoErrorKind::Other, "held"));
    assert_eq!(v4.step(&mut shared, held), ListenerAction::BindAfter(250));
    assert_eq!(v4.step(&mut shared, ListenerEvent::Bound), ListenerAction::Accept);
    let gone = ListenerEvent::Accepted { handed_off: false };
    assert_eq!(v4.step(&mut shared, gone), ListenerAction::End);
}

#[test]
fn one_stuck_stack_does_not_block_the_other() {
    let mut shared = ForwardShared::new(4000);
    let (mut v4, _) = Listener::new(STACK_V4);
    let (mut v6, _) = Listener::new(STACK_V6);
    let held = ListenerEvent::BindFailed(failure(IoErrorKind::AddrInUse, "held"));
    v4.step(&mut shared, held);
    assert_eq!(v6.step(&mut shared, ListenerEvent::Bound), ListenerAction::Accept);
    assert_eq!(shared.state, ForwardState::Listening);
    assert!(!shared.v4.up);
    let held = ListenerEvent::BindFailed(failure(IoErrorKind::AddrInUse, "held"));
    v4.step(&mut shared, held);
    assert_eq!(shared.state, ForwardState::Listening);
    let accepted = ListenerEvent::Accepted { handed_off: true };
    assert_eq!(v6.step(&mut shared, accepted), ListenerAction::Accept);
}

fn ended(error: Option<&str>) -> ForwardEvent {
    ForwardEvent::RelayEnded { error: error.map(|e| e.to_string()) }
}

fn at_the_cap() -> (ForwardLoop, ForwardShared) {
    let mut shared = ForwardShared::new(1);
    let mut forward = ForwardLoop::new();
    for _ in 0..MAX_ACTIVE_RELAYS_PER_FORWARD {
        assert_eq!(forward.step(&mut shared, ForwardEvent::Inbound), ForwardAction::Relay);
    }
    (forward, shared)
}

#[test]
fn at_the_cap_a_connection_waits_for_a_relay_to_end() {
    let (mut forward, mut shared) = at_the_cap();
    assert_eq!(MAX_ACTIVE_RELAYS_PER_FORWARD, 128);
    assert_eq!(shared.active, 128);
    let full = forward.step(&mut shared, ForwardEvent::Inbound);
    assert_eq!(full, ForwardAction::Hold { warn: true });
    assert!(forward.holding);
    // A listener may fail meanwhile; the connection goes on waiting.
    let failed = ForwardEvent::StackEnded { stack: STACK_V4, failure: None };
    assert_eq!(forward.step(&mut shared, failed), ForwardAction::Wait);
    assert_eq!(forward.step(&mut shared, ended(Some("reset"))), ForwardAction::Relay);
    assert!(!forward.holding);
    assert_eq!(shared.active, 128);
    assert_eq!(shared.last_conn_error.as_deref(), Some("reset"));
}

#[test]
fn the_loop_warns_once_until_a_relay_starts_at_once() {
    let (mut forward, mut shared) = at_the_cap();
    let inbound = |f: &mut ForwardLoop, s: &mut ForwardShared| f.step(s, ForwardEvent::Inbound);
    assert_eq!(inbound(&mut forward, &mut shared), ForwardAction::Hold { warn: true });
    assert_eq!(forward.step(&mut shared, ended(None)), ForwardAction::Relay);
    assert_eq!(inbound(&mut forward, &mut shared), ForwardAction::Hold { warn: false });
    assert_eq!(forward.step(&mut shared, ForwardEvent::RelayLost), ForwardAction::Relay);
    assert_eq!(forward.step(&mut shared, ended(None)), ForwardAction::Wait);
    assert_eq!(inbound(&mut forward, &mut shared), ForwardAction::Relay);
    assert_eq!(inbound(&mut forward, &mut shared), ForwardAction::Hold { warn: true });
    assert_eq!(forward.step(&mut shared, ended(None)), ForwardAction::Relay);
    assert_eq!(forward.step(&mut shared, ForwardEvent::ListenersGone), ForwardAction::End);
}

#[test]
fn a_listener_task_that_ends_is_marked_down() {
    let mut shared = ForwardShared::new(1);
    let mut forward = ForwardLoop::new();
    shared.set_stack(STACK_V4, StackHealth::up());
    let ended = ForwardEvent::StackEnded { stack: STACK_V6, failure: None };
    assert_eq!(forward.step(&mut shared, ended), ForwardAction::Wait);
    assert_eq!(shared.state, ForwardState::Listening);
    let failed = ForwardEvent::StackEnded { stack: STACK_V4, failure: Some("panic".into()) };
    forward.step(&mut shared, failed);
    assert_eq!(shared.state, ForwardState::Failed("IPv4 listener task failed: panic".into()));
    assert_eq!(
        shared.v6.error,
        Some(failure(IoErrorKind::Other, "IPv6 listener task ended unexpectedly"))
    );
}

#[test]
fn relays_are_counted_and_their_last_error_kept() {
    let mut shared = ForwardShared::new(1);
    let mut forward = ForwardLoop::new();
    for n in 1..=3 {
        assert_eq!(forward.step(&mut shared, ForwardEvent::Inbound), ForwardAction::Relay);
        assert_eq!(shared.active, n);
    }
    assert_eq!(forward.step(&mut shared, ended(Some("refused"))), ForwardAction::Wait);
    let status = shared.status(&"f".to_string());
    assert_eq!(status.id, "f");
    assert_eq!(status.state, ForwardState::Starting);
    assert_eq!(status.active, 2);
    assert_eq!(status.last_conn_error.as_deref(), Some("refused"));
    // A relay without an outcome leaves the last error.
    forward.step(&mut shared, ForwardEvent::RelayLost);
    assert_eq!(shared.active, 1);
    assert_eq!(shared.last_conn_error.as_deref(), Some("refused"));
    forward.step(&mut shared, ended(None));
    assert_eq!(shared.active, 0);
    assert_eq!(shared.last_conn_error, None);
}

fn spec(id: &str, local_port: u16, host: &str) -> ForwardSpec {
    ForwardSpec {
        id: id.into(),
        local_port,
        target: Target::Domain(host.into(), 80),
    }
}

fn ids(specs: &[ForwardSpec]) -> Vec<&str> {
    specs.iter().map(|s| s.id.as_str()).collect()
}

#[test]
fn applying_a_set_stops_and_starts_the_difference() {
    let (mut manager, plan) = ForwardManager::new(&[spec("a", 1, "x"), spec("b", 2, "x")]);
    assert!(plan.stop.is_empty());
    assert_eq!(ids(&plan.start), vec!["a", "b"]);

    // Unchanged goes on, changed restarts, gone stops, new starts.
    let wanted = [spec("a", 1, "x"), spec("b", 2, "y"), spec("c", 3, "x")];
    let plan = manager.apply(&wanted);
    assert_eq!(plan.stop, vec!["b"]);
    assert_eq!(plan.start, vec![spec("b", 2, "y"), spec("c", 3, "x")]);
    assert_eq!(ids(&manager.tasks), vec!["a", "b", "c"]);

    let plan = manager.apply(&wanted);
    assert!(plan.stop.is_empty() && plan.start.is_empty());

    let plan = manager.apply(&[spec("c", 3, "x")]);
    assert_eq!(plan.stop, vec!["a", "b"]);
    assert!(plan.start.is_empty());

    let plan = manager.apply(&[]);
    assert_eq!(plan.stop, vec!["c"]);
    assert!(manager.tasks.is_empty());
}

#[test]
fn of_a_repeated_id_the_last_decides_what_stays_and_the_first_starts() {
    let (mut manager, plan) = ForwardManager::new(&[spec("a", 1, "x"), spec("a", 2, "x")]);
    assert_eq!(plan.start, vec![spec("a", 1, "x")]);
    let plan = manager.apply(&[spec("a", 1, "x"), spec("a", 2, "x")]);
    assert_eq!(plan.stop, vec!["a"]);
    assert_eq!(plan.start, vec![spec("a", 1, "x")]);
    let plan = manager.apply(&[spec("a", 2, "x"), spec("a", 1, "x")]);
    assert!(plan.stop.is_empty() && plan.start.is_empty());
}

#[test]
fn targets_are_told_apart() {
    let v4 = |last: u8| ForwardSpec {
        id: "a".into(),
        local_port: 1,
        target: Target::Ip(SocketAddr::V4 { octets: [10, 0, 0, last], port: 80 }),
    };
    let (mut manager, _) = ForwardManager::new(&[v4(1)]);
    assert!(manager.apply(&[v4(1)]).start.is_empty());
    assert_eq!(manager.apply(&[v4(2)]).start, vec![v4(2)]);
    let v6 = |scope_id: u32| ForwardSpec {
        id: "a".into(),
        local_port: 1,
        target: Target::Ip(SocketAddr::V6 { octets: [1; 16], port: 80, flowinfo: 0, scope_id }),
    };
    assert_eq!(manager.apply(&[v6(0)]).start, vec![v6(0)]);
    assert!(manager.apply(&[v6(0)]).start.is_empty());
    assert_eq!(manager.apply(&[v6(1)]).start, vec![v6(1)]);
}

#[test]
fn statuses_go_with_the_running_forwards() {
    let (manager, _) = ForwardManager::new(&[spec("a", 1, "x"), spec("b", 2, "x")]);
    let mut shared = vec![ForwardShared::new(1), ForwardShared::new(2)];
    shared[1].set_stack(STACK_V4, StackHealth::up());
    ForwardLoop::new().step(&mut shared[1], ForwardEvent::Inbound);
    let statuses = manager.statuses(&shared);
    assert_eq!(statuses.len(), 2);
    assert_eq!(statuses[0].id, "a");
    assert_eq!(statuses[0].state, ForwardState::Starting);
    assert_eq!(statuses[1].id, "b");
    assert_eq!(statuses[1].state, ForwardState::Listening);
    assert_eq!(statuses[1].active, 1);
}
