//! The constants of the transport that both sides share. Durations are in milliseconds.

use vstd::prelude::*;
use vstd::string::*;

verus! {

/// A connection without activity for this long is dead. There is no keep-alive below the
/// heartbeat, so this exceeds the widest heartbeat interval by far.
pub const QUIC_IDLE_TIMEOUT: u64 = 180_000;

/// The path MTU before discovery completes: the largest that is safe for IPv6 over Ethernet.
pub const QUIC_INITIAL_MTU: u16 = 1452;

/// The heartbeat interval of an active client.
pub const HEARTBEAT_INTERVAL: u64 = 10_000;

/// The heartbeat interval of a client in the background.
pub const HEARTBEAT_INTERVAL_IDLE: u64 = 60_000;

/// What is added to three intervals, so that a late heartbeat is not taken for a dead link.
pub const LIVENESS_GRACE: u64 = 3_000;

/// The server's window for heartbeats, sized for the widest interval.
pub const LIVENESS_WINDOW: u64 = HEARTBEAT_INTERVAL_IDLE * 3 + LIVENESS_GRACE;

/// The protocol label of client connections.
pub const ALPN: &'static str = "flextunnel/1";

/// The protocol label of connections from server to server.
pub const BRIDGE_ALPN: &'static str = "flextunnel-bridge/1";

/// The protocol label of quick-mode client connections.
pub const QUICK_ALPN: &'static str = "flextunnel-quick/1";

/// How long a link may be silent, by heartbeats at the given interval: three intervals and a
/// grace.
pub open spec fn window(interval: nat) -> nat {
    3 * interval + LIVENESS_GRACE as nat
}

/// How long a link may be silent, by heartbeats at the given interval.
pub fn liveness_window(interval: u64) -> (r: u64)
    requires
        window(interval as nat) <= u64::MAX,
    ensures
        r == window(interval as nat),
{
    interval * 3 + LIVENESS_GRACE
}

/// Two heartbeats in a row may be lost, and the third may be late by the grace, before a link is
/// taken for dead.
pub proof fn law_two_heartbeats_may_be_lost(interval: nat, late: nat)
    requires
        late <= LIVENESS_GRACE,
    ensures
        interval + interval + interval + late <= window(interval),
{
}

} // verus!
