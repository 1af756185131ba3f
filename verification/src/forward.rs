//! Server-direct port forwards: the health of a forward's two loopback listeners, the pace at
//! which a lost port is reclaimed, and the relays of the accepted connections.

use vstd::prelude::*;
use vstd::string::*;

use crate::config::clone_opt;
use crate::signaling::IoErrorKind;
use crate::text::{decimal, opt_string, push_decimal};
use crate::wire::{Target, TargetView};

verus! {

/// The health slot of the `127.0.0.1` listener.
pub const STACK_V4: usize = 0;

/// The health slot of the `[::1]` listener.
pub const STACK_V6: usize = 1;

/// The first delay between two attempts to bind a port, in milliseconds.
pub const FORWARD_REBIND_BASE_BACKOFF: u64 = 250;

/// The largest delay between two attempts to bind a port, in milliseconds.
pub const FORWARD_REBIND_MAX_BACKOFF: u64 = 5000;

/// How many connections a forward relays at a time. At the cap it stops accepting until one
/// closes.
pub const MAX_ACTIVE_RELAYS_PER_FORWARD: usize = 128;

/// One server-direct forward.
#[derive(Debug, PartialEq, Eq)]
pub struct ForwardSpec {
    pub id: String,
    pub local_port: u16,
    pub target: Target,
}

/// What a [`ForwardSpec`] holds.
#[verifier::ext_equal]
pub struct ForwardSpecView {
    pub id: Seq<char>,
    pub local_port: u16,
    pub target: TargetView,
}

impl View for ForwardSpec {
    type V = ForwardSpecView;

    open spec fn view(&self) -> ForwardSpecView {
        ForwardSpecView { id: self.id@, local_port: self.local_port, target: self.target@ }
    }
}

impl Clone for ForwardSpec {
    fn clone(&self) -> (r: Self)
        ensures
            r@ == self@,
    {
        ForwardSpec {
            id: self.id.clone(),
            local_port: self.local_port,
            target: self.target.clone(),
        }
    }
}

/// The state of a forward's listener.
#[derive(Debug, PartialEq, Eq)]
pub enum ForwardState {
    Starting,
    Listening,
    Failed(String),
}

/// What a [`ForwardState`] holds.
#[verifier::ext_equal]
pub enum ForwardStateView {
    Starting,
    Listening,
    Failed(Seq<char>),
}

impl View for ForwardState {
    type V = ForwardStateView;

    open spec fn view(&self) -> ForwardStateView {
        match *self {
            ForwardState::Starting => ForwardStateView::Starting,
            ForwardState::Listening => ForwardStateView::Listening,
            ForwardState::Failed(reason) => ForwardStateView::Failed(reason@),
        }
    }
}

impl Clone for ForwardState {
    fn clone(&self) -> (r: Self)
        ensures
            r@ == self@,
    {
        match self {
            ForwardState::Starting => ForwardState::Starting,
            ForwardState::Listening => ForwardState::Listening,
            ForwardState::Failed(reason) => ForwardState::Failed(reason.clone()),
        }
    }
}

/// A forward's listener and relays at one moment.
#[derive(Debug)]
pub struct ForwardStatus {
    pub id: String,
    pub state: ForwardState,
    pub active: usize,
    pub last_conn_error: Option<String>,
}

/// What a [`ForwardStatus`] holds.
#[verifier::ext_equal]
pub struct ForwardStatusView {
    pub id: Seq<char>,
    pub state: ForwardStateView,
    pub active: nat,
    pub last_conn_error: Option<Seq<char>>,
}

impl View for ForwardStatus {
    type V = ForwardStatusView;

    open spec fn view(&self) -> ForwardStatusView {
        ForwardStatusView {
            id: self.id@,
            state: self.state@,
            active: self.active as nat,
            last_conn_error: opt_string(self.last_conn_error),
        }
    }
}

impl Clone for ForwardStatus {
    fn clone(&self) -> (r: Self)
        ensures
            r@ == self@,
    {
        ForwardStatus {
            id: self.id.clone(),
            state: self.state.clone(),
            active: self.active,
            last_conn_error: clone_opt(&self.last_conn_error),
        }
    }
}

/// An I/O error: its kind and its text.
#[derive(Debug, PartialEq, Eq)]
pub struct IoFailure {
    pub kind: IoErrorKind,
    pub message: String,
}

/// What an [`IoFailure`] holds.
#[verifier::ext_equal]
pub struct IoFailureView {
    pub kind: IoErrorKind,
    pub message: Seq<char>,
}

impl View for IoFailure {
    type V = IoFailureView;

    open spec fn view(&self) -> IoFailureView {
        IoFailureView { kind: self.kind, message: self.message@ }
    }
}

/// The health of one listener. Neither up nor in error: it has not resolved its first bind.
#[derive(Debug, PartialEq, Eq)]
pub struct StackHealth {
    pub up: bool,
    pub error: Option<IoFailure>,
}

/// What a [`StackHealth`] holds.
#[verifier::ext_equal]
pub struct StackHealthView {
    pub up: bool,
    pub error: Option<IoFailureView>,
}

impl View for StackHealth {
    type V = StackHealthView;

    open spec fn view(&self) -> StackHealthView {
        StackHealthView {
            up: self.up,
            error: match self.error {
                Some(e) => Some(e@),
                None => None,
            },
        }
    }
}

impl StackHealthView {
    /// A listener that has not resolved its first bind.
    pub open spec fn unresolved() -> Self {
        StackHealthView { up: false, error: None }
    }

    /// A bound listener.
    pub open spec fn bound() -> Self {
        StackHealthView { up: true, error: None }
    }

    /// A listener that failed.
    pub open spec fn failed(e: IoFailureView) -> Self {
        StackHealthView { up: false, error: Some(e) }
    }
}

impl Default for StackHealth {
    fn default() -> (r: Self)
        ensures
            r@ == StackHealthView::unresolved(),
    {
        StackHealth { up: false, error: None }
    }
}

impl StackHealth {
    /// A bound listener.
    pub fn up() -> (r: Self)
        ensures
            r@ == StackHealthView::bound(),
    {
        StackHealth { up: true, error: None }
    }

    /// A listener that failed with `e`.
    pub fn down(e: &IoFailure) -> (r: Self)
        ensures
            r@ == StackHealthView::failed(e@),
    {
        StackHealth {
            up: false,
            error: Some(IoFailure { kind: e.kind, message: e.message.clone() }),
        }
    }
}

/// What a forward's tasks share: its port, the health of its listeners and the state folded from
/// it, and its relays.
#[derive(Debug)]
pub struct ForwardShared {
    pub port: u16,
    pub state: ForwardState,
    pub v4: StackHealth,
    pub v6: StackHealth,
    pub active: usize,
    pub last_conn_error: Option<String>,
}

/// What a [`ForwardShared`] holds.
#[verifier::ext_equal]
pub struct ForwardSharedView {
    pub port: u16,
    pub state: ForwardStateView,
    pub v4: StackHealthView,
    pub v6: StackHealthView,
    pub active: nat,
    pub last_conn_error: Option<Seq<char>>,
}

impl View for ForwardShared {
    type V = ForwardSharedView;

    open spec fn view(&self) -> ForwardSharedView {
        ForwardSharedView {
            port: self.port,
            state: self.state@,
            v4: self.v4@,
            v6: self.v6@,
            active: self.active as nat,
            last_conn_error: opt_string(self.last_conn_error),
        }
    }
}

/// Whether a listener failed because its port is taken.
pub open spec fn is_in_use(health: StackHealthView) -> bool {
    health.error matches Some(e) && e.kind == IoErrorKind::AddrInUse
}

/// The state of a forward: listening while either listener is bound, failed once both are down,
/// and starting until both have resolved their first bind.
pub open spec fn folded(port: u16, v4: StackHealthView, v6: StackHealthView) -> ForwardStateView {
    if v4.up || v6.up {
        ForwardStateView::Listening
    } else if v4.error is Some && v6.error is Some {
        ForwardStateView::Failed(
            if is_in_use(v4) || is_in_use(v6) {
                "port "@ + decimal(port as nat) + " is in use"@
            } else {
                v4.error->0.message
            },
        )
    } else {
        ForwardStateView::Starting
    }
}

/// The name of a listener in messages.
pub open spec fn stack_label(stack: usize) -> Seq<char> {
    if stack == STACK_V4 {
        "IPv4"@
    } else {
        "IPv6"@
    }
}

/// Why a listener is down whose task ended. A listener task that ends is a fault, whether it
/// returned or failed.
pub open spec fn ended_task(stack: usize, failure: Option<Seq<char>>) -> IoFailureView {
    IoFailureView {
        kind: IoErrorKind::Other,
        message: stack_label(stack) + " listener task "@ + (match failure {
            None => "ended unexpectedly"@,
            Some(e) => "failed: "@ + e,
        }),
    }
}

impl ForwardSharedView {
    /// What is shared before anything has happened.
    pub open spec fn initial(port: u16) -> Self {
        ForwardSharedView {
            port,
            state: ForwardStateView::Starting,
            v4: StackHealthView::unresolved(),
            v6: StackHealthView::unresolved(),
            active: 0,
            last_conn_error: None,
        }
    }

    /// The state is the one folded from the listeners' health, and the cap on relays holds.
    pub open spec fn wf(self) -> bool {
        &&& self.state == folded(self.port, self.v4, self.v6)
        &&& self.active <= MAX_ACTIVE_RELAYS_PER_FORWARD
    }

    /// The health of a listener.
    pub open spec fn health(self, stack: usize) -> StackHealthView {
        if stack == STACK_V4 {
            self.v4
        } else {
            self.v6
        }
    }

    /// What is shared after one listener's health has been recorded.
    pub open spec fn with_health(self, stack: usize, health: StackHealthView) -> Self {
        let v4 = if stack == STACK_V4 {
            health
        } else {
            self.v4
        };
        let v6 = if stack == STACK_V4 {
            self.v6
        } else {
            health
        };
        ForwardSharedView { state: folded(self.port, v4, v6), v4, v6, ..self }
    }

    /// The status of the forward with the given id.
    pub open spec fn status(self, id: Seq<char>) -> ForwardStatusView {
        ForwardStatusView {
            id,
            state: self.state,
            active: self.active,
            last_conn_error: self.last_conn_error,
        }
    }
}

impl ForwardShared {
    /// What the tasks of a forward on `port` share at first.
    pub fn new(port: u16) -> (r: Self)
        ensures
            r@ == ForwardSharedView::initial(port),
            r@.wf(),
    {
        ForwardShared {
            port,
            state: ForwardState::Starting,
            v4: StackHealth::default(),
            v6: StackHealth::default(),
            active: 0,
            last_conn_error: None,
        }
    }

    /// Records one listener's health and folds the forward's state anew.
    pub fn set_stack(&mut self, stack: usize, health: StackHealth)
        requires
            stack == STACK_V4 || stack == STACK_V6,
        ensures
            final(self)@ == old(self)@.with_health(stack, health@),
            old(self)@.wf() ==> final(self)@.wf(),
    {
        if stack == STACK_V4 {
            self.v4 = health;
        } else {
            self.v6 = health;
        }
        self.state = self.fold();
    }

    fn fold(&self) -> (r: ForwardState)
        ensures
            r@ == folded(self.port, self.v4@, self.v6@),
    {
        if self.v4.up || self.v6.up {
            return ForwardState::Listening;
        }
        match (&self.v4.error, &self.v6.error) {
            (Some(a), Some(b)) => {
                if a.kind == IoErrorKind::AddrInUse || b.kind == IoErrorKind::AddrInUse {
                    let mut reason = String::from_str("port ");
                    push_decimal(&mut reason, self.port as u128);
                    reason.append(" is in use");
                    ForwardState::Failed(reason)
                } else {
                    ForwardState::Failed(a.message.clone())
                }
            },
            _ => ForwardState::Starting,
        }
    }

    /// Marks a listener down whose task ended: by itself, or with the given failure.
    pub fn stack_ended(&mut self, stack: usize, failure: Option<&str>)
        requires
            stack == STACK_V4 || stack == STACK_V6,
        ensures
            final(self)@ == old(self)@.with_health(
                stack,
                StackHealthView::failed(
                    ended_task(
                        stack,
                        match failure {
                            Some(e) => Some(e@),
                            None => None,
                        },
                    ),
                ),
            ),
            old(self)@.wf() ==> final(self)@.wf(),
    {
        let mut message = if stack == STACK_V4 {
            String::from_str("IPv4")
        } else {
            String::from_str("IPv6")
        };
        message.append(" listener task ");
        let ghost head = message@;
        match failure {
            None => {
                message.append("ended unexpectedly");
                assert(message@ == head + "ended unexpectedly"@);
            },
            Some(e) => {
                message.append("failed: ");
                message.append(e);
                assert(message@ == head + ("failed: "@ + e@));
            },
        }
        let failed = IoFailure { kind: IoErrorKind::Other, message };
        self.set_stack(stack, StackHealth::down(&failed));
    }

    /// The status of the forward with the given id.
    pub fn status(&self, id: &String) -> (r: ForwardStatus)
        ensures
            r@ == self@.status(id@),
    {
        ForwardStatus {
            id: id.clone(),
            state: self.state.clone(),
            active: self.active,
            last_conn_error: clone_opt(&self.last_conn_error),
        }
    }
}

/// Recording one listener's health leaves the other's as it was: a listener that is stuck never
/// blocks the other.
pub proof fn law_stacks_are_independent(
    s: ForwardSharedView,
    stack: usize,
    other: usize,
    health: StackHealthView,
)
    requires
        stack == STACK_V4 || stack == STACK_V6,
        other == STACK_V4 || other == STACK_V6,
        stack != other,
    ensures
        s.with_health(stack, health).health(other) == s.health(other),
        s.with_health(stack, health).health(stack) == health,
        s.health(other).up ==> s.with_health(stack, health).state == ForwardStateView::Listening,
{
}

/// The delay before an attempt, before it is capped: it doubles each time.
pub open spec fn doubled(attempt: nat) -> nat
    decreases attempt,
{
    if attempt == 0 {
        FORWARD_REBIND_BASE_BACKOFF as nat
    } else {
        2 * doubled((attempt - 1) as nat)
    }
}

/// The delay before the attempt with the given number, counted from zero, in milliseconds.
pub open spec fn backoff(attempt: nat) -> nat {
    if doubled(attempt) < FORWARD_REBIND_MAX_BACKOFF {
        doubled(attempt)
    } else {
        FORWARD_REBIND_MAX_BACKOFF as nat
    }
}

proof fn lemma_doubled_grows(a: nat, b: nat)
    requires
        a <= b,
    ensures
        doubled(a) <= doubled(b),
    decreases b,
{
    if a < b {
        lemma_doubled_grows(a, (b - 1) as nat);
    }
}

/// The delay before the attempt with the given number, counted from zero, in milliseconds.
pub fn rebind_backoff(attempt: u32) -> (r: u64)
    ensures
        r == backoff(attempt as nat),
{
    let last: u32 = if attempt < 5 {
        attempt
    } else {
        5
    };
    let mut delay: u64 = FORWARD_REBIND_BASE_BACKOFF;
    let mut i: u32 = 0;
    proof {
        reveal_with_fuel(doubled, 6);
    }
    while i < last
        invariant
            i <= last <= 5,
            delay == doubled(i as nat),
            doubled(5) == 8000,
        decreases last - i,
    {
        proof {
            lemma_doubled_grows(i as nat, 5);
        }
        delay = delay * 2;
        i += 1;
    }
    proof {
        lemma_doubled_grows(last as nat, attempt as nat);
    }
    if delay < FORWARD_REBIND_MAX_BACKOFF {
        delay
    } else {
        FORWARD_REBIND_MAX_BACKOFF
    }
}

/// The delays start at the base, never shrink and never exceed the ceiling, which they reach.
pub proof fn law_backoff_grows_and_caps(a: nat, b: nat)
    requires
        a <= b,
    ensures
        backoff(0) == FORWARD_REBIND_BASE_BACKOFF,
        FORWARD_REBIND_BASE_BACKOFF <= backoff(a) <= backoff(b) <= FORWARD_REBIND_MAX_BACKOFF,
        b >= 5 ==> backoff(b) == FORWARD_REBIND_MAX_BACKOFF,
{
    lemma_doubled_grows(a, b);
    lemma_doubled_grows(0, a);
    if b >= 5 {
        reveal_with_fuel(doubled, 6);
        lemma_doubled_grows(5, b);
    }
}

/// What has happened to a forward.
#[derive(Debug)]
pub enum ForwardEvent {
    /// A listener handed a connection over.
    Inbound,
    /// Both listeners are gone.
    ListenersGone,
    /// A relay ended, well or with the given error.
    RelayEnded { error: Option<String> },
    /// A relay's task went down without an outcome.
    RelayLost,
    /// A listener's task ended, by itself or with the given failure.
    StackEnded { stack: usize, failure: Option<String> },
}

/// What a forward does next.
#[derive(Debug, Clone, Copy, PartialEq, Eq, Structural)]
pub enum ForwardAction {
    /// Relay the connection at hand: the one that was handed over, or the one that is held.
    Relay,
    /// Hold the connection, and take no other, until a relay ends. `warn`: say that accepting
    /// pauses.
    Hold { warn: bool },
    /// Wait for the next event.
    Wait,
    /// Nothing is left to serve.
    End,
}

/// The loop of a forward, which relays what its listeners accept.
#[derive(Debug)]
pub struct ForwardLoop {
    /// Whether it was said that accepting pauses, since a relay could last start at once.
    pub warned: bool,
    /// Whether a connection is held until a relay ends.
    pub holding: bool,
}

/// Whether an event can happen: a loop that holds a connection takes no other, and only relays
/// that run can end.
pub open spec fn can_happen(l: ForwardLoop, s: ForwardSharedView, event: ForwardEvent) -> bool {
    match event {
        ForwardEvent::Inbound | ForwardEvent::ListenersGone => !l.holding,
        ForwardEvent::RelayEnded { .. } | ForwardEvent::RelayLost => s.active > 0,
        ForwardEvent::StackEnded { stack, .. } => stack == STACK_V4 || stack == STACK_V6,
    }
}

/// The state of a forward, and what it does, once a relay has ended: a held connection takes the
/// place that is free.
pub open spec fn freed(l: ForwardLoop, s: ForwardSharedView) -> (
    ForwardLoop,
    ForwardSharedView,
    ForwardAction,
) {
    if l.holding {
        (ForwardLoop { holding: false, ..l }, s, ForwardAction::Relay)
    } else {
        (l, ForwardSharedView { active: (s.active - 1) as nat, ..s }, ForwardAction::Wait)
    }
}

/// The state of a forward after an event, and what it does.
pub open spec fn loop_step(l: ForwardLoop, s: ForwardSharedView, event: ForwardEvent) -> (
    ForwardLoop,
    ForwardSharedView,
    ForwardAction,
) {
    match event {
        ForwardEvent::Inbound => if s.active < MAX_ACTIVE_RELAYS_PER_FORWARD {
            (
                ForwardLoop { warned: false, ..l },
                ForwardSharedView { active: s.active + 1, ..s },
                ForwardAction::Relay,
            )
        } else {
            (
                ForwardLoop { warned: true, holding: true },
                s,
                ForwardAction::Hold { warn: !l.warned },
            )
        },
        ForwardEvent::ListenersGone => (l, s, ForwardAction::End),
        ForwardEvent::RelayEnded { error } => freed(
            l,
            ForwardSharedView { last_conn_error: opt_string(error), ..s },
        ),
        ForwardEvent::RelayLost => freed(l, s),
        ForwardEvent::StackEnded { stack, failure } => (
            l,
            s.with_health(stack, StackHealthView::failed(ended_task(stack, opt_string(failure)))),
            ForwardAction::Wait,
        ),
    }
}

impl ForwardLoop {
    /// Whether a connection is held only while the cap is reached.
    pub open spec fn wf(self, s: ForwardSharedView) -> bool {
        s.wf() && (self.holding ==> s.active == MAX_ACTIVE_RELAYS_PER_FORWARD)
    }

    /// A loop at its start.
    pub open spec fn initial() -> ForwardLoop {
        ForwardLoop { warned: false, holding: false }
    }

    /// A loop that has not said anything and holds nothing.
    pub fn new() -> (r: Self)
        ensures
            r == ForwardLoop::initial(),
    {
        ForwardLoop { warned: false, holding: false }
    }

    fn release(&mut self, shared: &mut ForwardShared) -> (r: ForwardAction)
        requires
            old(shared)@.active > 0,
        ensures
            (*final(self), final(shared)@, r) == freed(*old(self), old(shared)@),
    {
        if self.holding {
            self.holding = false;
            ForwardAction::Relay
        } else {
            shared.active = shared.active - 1;
            ForwardAction::Wait
        }
    }

    /// Takes note of an event and says what to do next. Relays are counted up to the cap; at the
    /// cap one connection is held until a relay ends. A listener whose task ended is marked down.
    pub fn step(&mut self, shared: &mut ForwardShared, event: ForwardEvent) -> (r: ForwardAction)
        requires
            can_happen(*old(self), old(shared)@, event),
        ensures
            (*final(self), final(shared)@, r) == loop_step(*old(self), old(shared)@, event),
            old(self).wf(old(shared)@) ==> final(self).wf(final(shared)@),
    {
        match event {
            ForwardEvent::Inbound => {
                if shared.active < MAX_ACTIVE_RELAYS_PER_FORWARD {
                    self.warned = false;
                    shared.active = shared.active + 1;
                    ForwardAction::Relay
                } else {
                    let warn = !self.warned;
                    self.warned = true;
                    self.holding = true;
                    ForwardAction::Hold { warn }
                }
            },
            ForwardEvent::ListenersGone => ForwardAction::End,
            ForwardEvent::RelayEnded { error } => {
                shared.last_conn_error = error;
                self.release(shared)
            },
            ForwardEvent::RelayLost => self.release(shared),
            ForwardEvent::StackEnded { stack, failure } => {
                match &failure {
                    Some(e) => shared.stack_ended(stack, Some(e.as_str())),
                    None => shared.stack_ended(stack, None),
                }
                ForwardAction::Wait
            },
        }
    }
}

/// A forward goes on whatever happens to its relays and listeners: only when both listeners are
/// gone it ends. A connection is relayed at once below the cap, and held at the cap; the next
/// relay that ends, well or not, makes room for it. The last relay that ended leaves its error, or
/// none, and nothing else touches that.
pub proof fn law_every_connection_is_served(l: ForwardLoop, s: ForwardSharedView, event: ForwardEvent)
    requires
        l.wf(s),
        can_happen(l, s, event),
    ensures
        ({
            let (l2, s2, action) = loop_step(l, s, event);
            &&& l2.wf(s2)
            &&& action is End <==> event is ListenersGone
            &&& event is Inbound ==> action == (if s.active < MAX_ACTIVE_RELAYS_PER_FORWARD {
                ForwardAction::Relay
            } else {
                ForwardAction::Hold { warn: !l.warned }
            })
            &&& action is Hold <==> l2.holding && !l.holding
            &&& l.holding && (event is RelayEnded || event is RelayLost) ==> action is Relay
            &&& l.holding && !l2.holding ==> action is Relay
            &&& event matches ForwardEvent::RelayEnded { error } ==> s2.last_conn_error
                == opt_string(error)
            &&& event !is RelayEnded ==> s2.last_conn_error == s.last_conn_error
        }),
{
}

/// The state of a forward after events, from its start on the given port.
pub open spec fn loop_after(port: u16, events: Seq<ForwardEvent>) -> (ForwardLoop, ForwardSharedView)
    decreases events.len(),
{
    if events.len() == 0 {
        (ForwardLoop::initial(), ForwardSharedView::initial(port))
    } else {
        let (l, s) = loop_after(port, events.drop_last());
        let (l2, s2, _) = loop_step(l, s, events.last());
        (l2, s2)
    }
}

/// Whether events can happen one after the other, from a forward's start.
pub open spec fn all_can_happen(port: u16, events: Seq<ForwardEvent>) -> bool
    decreases events.len(),
{
    events.len() > 0 ==> {
        let (l, s) = loop_after(port, events.drop_last());
        all_can_happen(port, events.drop_last()) && can_happen(l, s, events.last())
    }
}

/// How many connections were handed over.
pub open spec fn connections(events: Seq<ForwardEvent>) -> nat
    decreases events.len(),
{
    if events.len() == 0 {
        0
    } else {
        connections(events.drop_last()) + (if events.last() is Inbound {
            1nat
        } else {
            0
        })
    }
}

/// How many relays ended.
pub open spec fn endings(events: Seq<ForwardEvent>) -> nat
    decreases events.len(),
{
    if events.len() == 0 {
        0
    } else {
        endings(events.drop_last()) + (if events.last() is RelayEnded || events.last()
            is RelayLost {
            1nat
        } else {
            0
        })
    }
}

/// How many relays were started.
pub open spec fn relays(port: u16, events: Seq<ForwardEvent>) -> nat
    decreases events.len(),
{
    if events.len() == 0 {
        0
    } else {
        let (l, s) = loop_after(port, events.drop_last());
        relays(port, events.drop_last()) + (if loop_step(l, s, events.last()).2 is Relay {
            1nat
        } else {
            0
        })
    }
}

/// How many connections are held.
pub open spec fn held(l: ForwardLoop) -> nat {
    if l.holding {
        1
    } else {
        0
    }
}

/// Over any course of connections and endings no connection is lost and the cap holds: each was
/// relayed but for the one that may be held, the relays that run are those that were started and
/// have not ended, they are never more than the cap, and one is only held while the cap is
/// reached.
pub proof fn law_no_connection_is_lost(port: u16, events: Seq<ForwardEvent>)
    requires
        all_can_happen(port, events),
    ensures
        ({
            let (l, s) = loop_after(port, events);
            &&& relays(port, events) + held(l) == connections(events)
            &&& s.active + endings(events) == relays(port, events)
            &&& s.active <= MAX_ACTIVE_RELAYS_PER_FORWARD
            &&& l.holding ==> s.active == MAX_ACTIVE_RELAYS_PER_FORWARD
            &&& l.wf(s)
        }),
    decreases events.len(),
{
    if events.len() > 0 {
        law_no_connection_is_lost(port, events.drop_last());
        let (l, s) = loop_after(port, events.drop_last());
        law_every_connection_is_served(l, s, events.last());
    }
}

} // verus!
