//! The messages of the handshake and of the control stream, and the reply codes of a stream.

use vstd::prelude::*;
use vstd::string::*;

use crate::forwards::Checked;
use crate::text::{decimal, opt_string, push_decimal};

verus! {

/// The protocol version that both sides must speak.
pub const PROTOCOL_VERSION: u16 = 12;

/// The largest handshake message, 64 KiB.
pub const MAX_HANDSHAKE_SIZE: usize = 64 * 1024;

/// The largest frame on the control stream, 16 KiB.
pub const MAX_CONTROL_MSG_SIZE: usize = 16 * 1024;

/// The connection was made. Reply codes are those of SOCKS5.
pub const REP_SUCCESS: u8 = 0x00;

/// The connection failed, for no more specific reason.
pub const REP_GENERAL_FAILURE: u8 = 0x01;

/// The target is not in the server's routed set.
pub const REP_NOT_ALLOWED: u8 = 0x02;

/// The target's network cannot be reached.
pub const REP_NET_UNREACHABLE: u8 = 0x03;

/// The target host cannot be reached.
pub const REP_HOST_UNREACHABLE: u8 = 0x04;

/// The target refused the connection.
pub const REP_CONN_REFUSED: u8 = 0x05;

/// The command is not supported.
pub const REP_CMD_NOT_SUPPORTED: u8 = 0x07;

/// The address type is not supported.
pub const REP_ATYP_NOT_SUPPORTED: u8 = 0x08;

/// The public-key credential of a regular client. Nothing in it is secret.
#[derive(Debug, Clone, PartialEq, Eq)]
pub struct ClientAuthPayload {
    /// The client's public key, which must be among the server's authorized keys.
    pub public_key: String,
    /// The endpoint id that the client connects from.
    pub endpoint_id: String,
    /// The signature over the endpoint id.
    pub signature: String,
}

/// The client's part of the handshake.
#[derive(Debug, Clone, PartialEq, Eq)]
pub struct Hello {
    pub version: u16,
    /// The credential of a keypair client; `None` for a quick-mode client.
    pub auth: Option<ClientAuthPayload>,
    /// A random number for the client's process.
    pub client_instance_nonce: u128,
    /// The client has seen two servers with one identity.
    pub duplicate_server_observed: bool,
}

/// One outbound bridge route of a server.
#[derive(Debug, Clone, PartialEq, Eq)]
pub struct BridgeSummary {
    pub name: String,
    pub endpoint_id: String,
    pub domains: Vec<String>,
    pub cidrs: Vec<String>,
}

/// What a server tells a peer that it accepts. Empty for a bridge.
#[derive(Debug, Clone)]
pub struct AcceptedRoutes {
    pub routed_domains: Vec<String>,
    pub routed_cidrs: Vec<String>,
    pub host_aliases: Vec<(String, String)>,
    pub dns_forwards: Vec<(String, Vec<String>)>,
    pub bridges: Vec<BridgeSummary>,
}

impl AcceptedRoutes {
    /// No route at all.
    pub open spec fn is_none(&self) -> bool {
        &&& self.routed_domains@.len() == 0
        &&& self.routed_cidrs@.len() == 0
        &&& self.host_aliases@.len() == 0
        &&& self.dns_forwards@.len() == 0
        &&& self.bridges@.len() == 0
    }
}

impl Default for AcceptedRoutes {
    fn default() -> (r: Self)
        ensures
            r.is_none(),
    {
        AcceptedRoutes {
            routed_domains: Vec::new(),
            routed_cidrs: Vec::new(),
            host_aliases: Vec::new(),
            dns_forwards: Vec::new(),
            bridges: Vec::new(),
        }
    }
}

/// The server's part of the handshake.
#[derive(Debug, Clone)]
pub struct HelloResponse {
    pub version: u16,
    pub accepted: bool,
    pub reject_reason: Option<String>,
    /// A random number for the server's process.
    pub server_instance_nonce: u128,
    pub routed_domains: Vec<String>,
    pub routed_cidrs: Vec<String>,
    pub host_aliases: Vec<(String, String)>,
    pub dns_forwards: Vec<(String, Vec<String>)>,
    pub bridges: Vec<BridgeSummary>,
}

/// A bridge's part of the handshake. Its credential is its endpoint id.
#[derive(Debug, Clone)]
pub struct BridgeHello {
    pub version: u16,
}

/// A frame on the control stream.
#[derive(Debug, Clone, PartialEq, Eq)]
pub enum ControlMsg {
    /// The client is alive.
    Heartbeat { seq: u64 },
    /// The server's answer, with the heartbeat's number.
    HeartbeatAck { seq: u64 },
}

impl Hello {
    /// A hello of this version, which reports no duplicate server.
    pub fn new(auth: Option<ClientAuthPayload>, client_instance_nonce: u128) -> (r: Self)
        ensures
            r == (Hello {
                version: PROTOCOL_VERSION,
                auth,
                client_instance_nonce,
                duplicate_server_observed: false,
            }),
    {
        Hello {
            version: PROTOCOL_VERSION,
            auth,
            client_instance_nonce,
            duplicate_server_observed: false,
        }
    }
}

impl BridgeHello {
    /// A hello of this version.
    pub fn new() -> (r: Self)
        ensures
            r.version == PROTOCOL_VERSION,
    {
        BridgeHello { version: PROTOCOL_VERSION }
    }
}

impl Default for BridgeHello {
    fn default() -> (r: Self)
        ensures
            r.version == PROTOCOL_VERSION,
    {
        BridgeHello::new()
    }
}

impl HelloResponse {
    /// The routes that a response carries.
    pub open spec fn carries(&self, routes: AcceptedRoutes) -> bool {
        &&& self.routed_domains == routes.routed_domains
        &&& self.routed_cidrs == routes.routed_cidrs
        &&& self.host_aliases == routes.host_aliases
        &&& self.dns_forwards == routes.dns_forwards
        &&& self.bridges == routes.bridges
    }

    /// Whether a response carries no route.
    pub open spec fn carries_nothing(&self) -> bool {
        &&& self.routed_domains@.len() == 0
        &&& self.routed_cidrs@.len() == 0
        &&& self.host_aliases@.len() == 0
        &&& self.dns_forwards@.len() == 0
        &&& self.bridges@.len() == 0
    }

    /// Accepts the peer and tells it the routes.
    pub fn accepted(server_instance_nonce: u128, routes: AcceptedRoutes) -> (r: Self)
        ensures
            r.version == PROTOCOL_VERSION,
            r.accepted,
            r.reject_reason is None,
            r.server_instance_nonce == server_instance_nonce,
            r.carries(routes),
    {
        HelloResponse {
            version: PROTOCOL_VERSION,
            accepted: true,
            reject_reason: None,
            server_instance_nonce,
            routed_domains: routes.routed_domains,
            routed_cidrs: routes.routed_cidrs,
            host_aliases: routes.host_aliases,
            dns_forwards: routes.dns_forwards,
            bridges: routes.bridges,
        }
    }

    /// Refuses the peer, for the given reason. The response carries no route.
    pub fn rejected(server_instance_nonce: u128, reason: &str) -> (r: Self)
        ensures
            r.version == PROTOCOL_VERSION,
            !r.accepted,
            opt_string(r.reject_reason) == Some(reason@),
            r.server_instance_nonce == server_instance_nonce,
            r.carries_nothing(),
    {
        HelloResponse {
            version: PROTOCOL_VERSION,
            accepted: false,
            reject_reason: Some(String::from_str(reason)),
            server_instance_nonce,
            routed_domains: Vec::new(),
            routed_cidrs: Vec::new(),
            host_aliases: Vec::new(),
            dns_forwards: Vec::new(),
            bridges: Vec::new(),
        }
    }
}

/// The message that a peer speaks another version.
pub open spec fn version_error(version: u16) -> Seq<char> {
    "Unsupported protocol version: "@ + decimal(version as nat) + " (expected "@ + decimal(
        PROTOCOL_VERSION as nat,
    ) + ")"@
}

fn version_message(version: u16) -> (r: String)
    ensures
        r@ == version_error(version),
{
    let mut message = String::from_str("Unsupported protocol version: ");
    push_decimal(&mut message, version as u128);
    message.append(" (expected ");
    push_decimal(&mut message, PROTOCOL_VERSION as u128);
    message.append(")");
    message
}

/// What a decoder makes of a parsed message: an unreadable one and one of another version are
/// refused, each with its reason.
pub open spec fn decoded<T>(parsed: Checked<T>, version: u16, r: Checked<T>) -> bool {
    match parsed {
        Err(e) => r matches Err(f) && f@ == e@,
        Ok(message) => if version == PROTOCOL_VERSION {
            r == Ok::<T, String>(message)
        } else {
            r matches Err(f) && f@ == version_error(version)
        },
    }
}

/// Takes a parsed hello if it is of this version.
pub fn decode_hello(parsed: Checked<Hello>) -> (r: Checked<Hello>)
    ensures
        decoded(parsed, parsed->Ok_0.version, r),
{
    match parsed {
        Err(e) => Err(e),
        Ok(hello) => if hello.version != PROTOCOL_VERSION {
            Err(version_message(hello.version))
        } else {
            Ok(hello)
        },
    }
}

/// Takes a parsed bridge hello if it is of this version.
pub fn decode_bridge_hello(parsed: Checked<BridgeHello>) -> (r: Checked<BridgeHello>)
    ensures
        decoded(parsed, parsed->Ok_0.version, r),
{
    match parsed {
        Err(e) => Err(e),
        Ok(hello) => if hello.version != PROTOCOL_VERSION {
            Err(version_message(hello.version))
        } else {
            Ok(hello)
        },
    }
}

/// Takes a parsed response if it is of this version.
pub fn decode_hello_response(parsed: Checked<HelloResponse>) -> (r: Checked<HelloResponse>)
    ensures
        decoded(parsed, parsed->Ok_0.version, r),
{
    match parsed {
        Err(e) => Err(e),
        Ok(resp) => if resp.version != PROTOCOL_VERSION {
            Err(version_message(resp.version))
        } else {
            Ok(resp)
        },
    }
}

/// The kinds of I/O error that are told apart.
#[derive(Debug, Clone, Copy, PartialEq, Eq, Structural)]
pub enum IoErrorKind {
    AddrInUse,
    ConnectionRefused,
    NetworkUnreachable,
    HostUnreachable,
    Other,
}

/// The reply code for a failed outbound connection.
pub open spec fn reply_of(kind: IoErrorKind) -> u8 {
    match kind {
        IoErrorKind::ConnectionRefused => REP_CONN_REFUSED,
        IoErrorKind::NetworkUnreachable => REP_NET_UNREACHABLE,
        IoErrorKind::HostUnreachable => REP_HOST_UNREACHABLE,
        IoErrorKind::AddrInUse | IoErrorKind::Other => REP_GENERAL_FAILURE,
    }
}

/// The reply code for a failed outbound connection.
pub fn map_io_err(kind: IoErrorKind) -> (r: u8)
    ensures
        r == reply_of(kind),
{
    match kind {
        IoErrorKind::ConnectionRefused => REP_CONN_REFUSED,
        IoErrorKind::NetworkUnreachable => REP_NET_UNREACHABLE,
        IoErrorKind::HostUnreachable => REP_HOST_UNREACHABLE,
        _ => REP_GENERAL_FAILURE,
    }
}

} // verus!
