//! What the frames, the handshake and the allowlists promise, byte by byte.

use vstd::prelude::*;
use vstd::string::*;
use vstd::utf8::*;

use crate::endpoint::{outcome, AllowlistsView, OutcomeView, Side};
use crate::forwards::Checked;
use crate::signaling::{decoded, reply_of, IoErrorKind};
use crate::text::{decimal, hex};
use crate::transport::window;
use crate::wire::{
    message_bytes, message_step, reply_bytes, reply_step, request_bytes, request_step, Step,
    TargetView,
};

verus! {

/// A message goes out as four bytes that give its length, the most significant first, and then
/// its bytes unchanged. One whose length does not fit in them is refused.
pub proof fn law_message_layout(data: Seq<u8>)
    ensures
        data.len() < 0x1_0000_0000 ==> {
            &&& message_bytes(data) is Ok
            &&& message_bytes(data)->Ok_0.len() == 4 + data.len()
            &&& data.len() == message_bytes(data)->Ok_0[0] * 0x100_0000
                + message_bytes(data)->Ok_0[1] * 0x1_0000 + message_bytes(data)->Ok_0[2] * 0x100
                + message_bytes(data)->Ok_0[3]
            &&& forall|i: int|
                0 <= i < data.len() ==> message_bytes(data)->Ok_0[i + 4] == #[trigger] data[i]
        },
        data.len() >= 0x1_0000_0000 ==> message_bytes(data) == Err::<Seq<u8>, Seq<char>>(
            "Message too large: "@ + decimal(data.len()) + " bytes"@,
        ),
{
    let n = data.len();
    if n < 0x1_0000_0000 {
        assert(n == (n / 0x100_0000) * 0x100_0000 + (n / 0x1_0000 % 256) * 0x1_0000 + (n / 0x100
            % 256) * 0x100 + n % 256) by (nonlinear_arith)
            requires
                0 <= n < 0x1_0000_0000,
        ;
        assert(n / 0x100_0000 < 256);
    }
}

/// Whatever bytes have come, the reader of a message takes the first four for its length. Until
/// the message is complete it asks for exactly what is missing; a length beyond the limit is
/// refused at once; a complete message is what stands behind the length, and bytes that follow it
/// are not touched.
pub proof fn law_message_reader_by_bytes(buf: Seq<u8>, max_size: nat, len: nat)
    requires
        buf.len() >= 4 ==> len == buf[0] * 0x100_0000 + buf[1] * 0x1_0000 + buf[2] * 0x100 + buf[3],
    ensures
        ({
            let r = message_step(buf, max_size);
            &&& buf.len() < 4 ==> r == Step::<Seq<u8>>::More((4 - buf.len()) as nat)
            &&& buf.len() >= 4 && len > max_size ==> r == Step::<Seq<u8>>::Fail(
                "Message too large: "@ + decimal(len) + " > "@ + decimal(max_size),
            )
            &&& buf.len() >= 4 && len <= max_size && buf.len() < 4 + len ==> r == Step::<
                Seq<u8>,
            >::More((4 + len - buf.len()) as nat)
            &&& buf.len() >= 4 && len <= max_size && buf.len() >= 4 + len ==> {
                &&& r is Done
                &&& r->Done_0.len() == len
                &&& forall|i: int| 0 <= i < len ==> #[trigger] r->Done_0[i] == buf[i + 4]
            }
        }),
{
}

/// A request header is the version `1`, the kind of address, the address and the port, the port
/// with its high byte first. A name is put behind one byte that gives its length, and one of more
/// than 255 bytes is refused.
pub proof fn law_request_layout(t: TargetView, octets: Seq<u8>, host: Seq<char>, port: u16)
    ensures
        ({
            let r = request_bytes(t);
            let bytes = r->Ok_0;
            let name = encode_utf8(host);
            &&& (t matches TargetView::V4 { octets: o, port: p } && o == octets && octets.len() == 4
                && p == port) ==> {
                &&& r is Ok && bytes.len() == 8
                &&& bytes[0] == 1 && bytes[1] == 1
                &&& bytes[2] == octets[0] && bytes[3] == octets[1]
                &&& bytes[4] == octets[2] && bytes[5] == octets[3]
                &&& port == bytes[6] * 256 + bytes[7]
            }
            &&& (t matches TargetView::V6 { octets: o, port: p, .. } && o == octets && octets.len()
                == 16 && p == port) ==> {
                &&& r is Ok && bytes.len() == 20
                &&& bytes[0] == 1 && bytes[1] == 4
                &&& forall|i: int| 0 <= i < 16 ==> bytes[i + 2] == #[trigger] octets[i]
                &&& port == bytes[18] * 256 + bytes[19]
            }
            &&& (t matches TargetView::Domain { host: h, port: p } && h == host && p == port
                && name.len() < 256) ==> {
                &&& r is Ok && bytes.len() == name.len() + 5
                &&& bytes[0] == 1 && bytes[1] == 3 && bytes[2] == name.len()
                &&& forall|i: int| 0 <= i < name.len() ==> bytes[i + 3] == #[trigger] name[i]
                &&& port == bytes[bytes.len() - 2] * 256 + bytes[bytes.len() - 1]
            }
            &&& (t matches TargetView::Domain { host: h, port: p } && h == host && name.len()
                >= 256) ==> r == Err::<Seq<u8>, Seq<char>>("domain name longer than 255 bytes"@)
        }),
{
}

/// Whatever bytes have come, the reader of a request header refuses another version or an unknown
/// kind of address as soon as it is seen, and a name that is not text once it is complete. It asks
/// for exactly what is missing where it knows that, and gives the address and the port that the
/// bytes spell.
pub proof fn law_request_reader_by_bytes(buf: Seq<u8>)
    ensures
        ({
            let r = request_step(buf);
            let len = buf.len();
            &&& len == 0 ==> r == Step::<TargetView>::More(1)
            &&& len > 0 && buf[0] != 1 ==> r == Step::<TargetView>::Fail(
                "Unsupported stream version: "@ + decimal(buf[0] as nat) + " (expected "@
                    + decimal(1) + ")"@,
            )
            &&& len == 1 && buf[0] == 1 ==> r == Step::<TargetView>::More(1)
            &&& len > 1 && buf[0] == 1 && buf[1] != 1 && buf[1] != 3 && buf[1] != 4 ==> r
                == Step::<TargetView>::Fail("invalid address type: 0x"@ + hex(buf[1] as nat, 2))
            &&& 1 < len < 8 && buf[0] == 1 && buf[1] == 1 ==> r == Step::<TargetView>::More(
                (8 - len) as nat,
            )
            &&& len >= 8 && buf[0] == 1 && buf[1] == 1 ==> {
                &&& r is Done && r->Done_0 is V4
                &&& r->Done_0->V4_octets == seq![buf[2], buf[3], buf[4], buf[5]]
                &&& r->Done_0->V4_port == buf[6] * 256 + buf[7]
            }
            &&& 1 < len < 20 && buf[0] == 1 && buf[1] == 4 ==> r == Step::<TargetView>::More(
                (20 - len) as nat,
            )
            &&& len >= 20 && buf[0] == 1 && buf[1] == 4 ==> {
                &&& r is Done && r->Done_0 is V6
                &&& r->Done_0->V6_octets == buf.subrange(2, 18)
                &&& r->Done_0->V6_port == buf[18] * 256 + buf[19]
                &&& r->Done_0->V6_flowinfo == 0 && r->Done_0->V6_scope_id == 0
            }
            &&& len == 2 && buf[0] == 1 && buf[1] == 3 ==> r == Step::<TargetView>::More(1)
            &&& len > 2 && buf[0] == 1 && buf[1] == 3 && len < buf[2] + 5 ==> r == Step::<
                TargetView,
            >::More((buf[2] + 5 - len) as nat)
            &&& len > 2 && buf[0] == 1 && buf[1] == 3 && len >= buf[2] + 5 ==> {
                let name = buf.subrange(3, 3 + buf[2]);
                &&& !valid_utf8(name) ==> r == Step::<TargetView>::Fail(
                    "domain name is not valid UTF-8"@,
                )
                &&& valid_utf8(name) ==> {
                    &&& r is Done && r->Done_0 is Domain
                    &&& r->Done_0->Domain_host == decode_utf8(name)
                    &&& r->Done_0->Domain_port == buf[3 + buf[2]] * 256 + buf[4 + buf[2]]
                }
            }
        }),
{
    if buf.len() >= 8 {
        assert(buf.subrange(2, 6) == seq![buf[2], buf[3], buf[4], buf[5]]);
    }
}

/// A reply is the version `1` and the code. Its reader refuses another version as soon as it is
/// seen.
pub proof fn law_reply_layout(rep: u8, buf: Seq<u8>)
    ensures
        reply_bytes(rep).len() == 2,
        reply_bytes(rep)[0] == 1,
        reply_bytes(rep)[1] == rep,
        buf.len() == 0 ==> reply_step(buf) == Step::<u8>::More(1),
        buf.len() > 0 && buf[0] != 1 ==> reply_step(buf) == Step::<u8>::Fail(
            "Unsupported stream version: "@ + decimal(buf[0] as nat) + " (expected "@ + decimal(1)
                + ")"@,
        ),
        buf.len() == 1 && buf[0] == 1 ==> reply_step(buf) == Step::<u8>::More(1),
        buf.len() > 1 && buf[0] == 1 ==> reply_step(buf) == Step::<u8>::Done(buf[1]),
{
}

/// The reply code tells a refused connection from an unreachable network and an unreachable host,
/// by the codes of SOCKS5; every other failure has the general code. None is that of success.
pub proof fn law_reply_codes_tell_failures_apart(kind: IoErrorKind)
    ensures
        reply_of(kind) == 5 <==> kind == IoErrorKind::ConnectionRefused,
        reply_of(kind) == 3 <==> kind == IoErrorKind::NetworkUnreachable,
        reply_of(kind) == 4 <==> kind == IoErrorKind::HostUnreachable,
        reply_of(kind) == 1 <==> kind == IoErrorKind::AddrInUse || kind == IoErrorKind::Other,
        reply_of(kind) != 0,
{
}

/// A handshake message is taken exactly if it could be read and is of version 12, and it is then
/// taken unchanged. Otherwise the reason tells the reading error, or both versions.
pub proof fn law_other_versions_are_refused<T>(parsed: Checked<T>, version: u16, r: Checked<T>)
    requires
        decoded(parsed, version, r),
    ensures
        r is Ok <==> parsed is Ok && version == 12,
        r is Ok ==> r->Ok_0 == parsed->Ok_0,
        parsed is Err ==> r->Err_0@ == parsed->Err_0@,
        parsed is Ok && version != 12 ==> r->Err_0@ == "Unsupported protocol version: "@ + decimal(
            version as nat,
        ) + " (expected "@ + decimal(12) + ")"@,
{
}

/// A link may be silent for three heartbeat intervals and three seconds, counted in milliseconds.
pub proof fn law_window_is_three_intervals(interval: nat)
    ensures
        window(interval) == interval + interval + interval + 3000,
{
}

/// Whether a connection that comes in speaks the given protocol.
pub open spec fn comes_in(side: Side, alpn: Seq<u8>, label: Seq<char>) -> bool {
    side == Side::Server && alpn == encode_utf8(label)
}

/// Of the connections that come in, those of bridges and of quick clients pass exactly if the
/// other end is on the list of their kind; a refusal has code 3, and says whether the list is
/// empty. All other connections pass, and a list concerns no other kind than its own.
pub proof fn law_lists_decide_who_connects(lists: AllowlistsView, side: Side, alpn: Seq<u8>, remote: Seq<u8>)
    ensures
        ({
            let r = outcome(lists, side, alpn, remote);
            let bridge = comes_in(side, alpn, "flextunnel-bridge/1"@);
            let quick = comes_in(side, alpn, "flextunnel-quick/1"@);
            &&& r is Accept <==> (bridge ==> lists.bridge_servers.contains(remote)) && (quick
                ==> lists.quick_clients.contains(remote))
            &&& bridge && r is Reject ==> r->error_code == 3 && r->reason == (
            if forall|id: Seq<u8>| !#[trigger] lists.bridge_servers.contains(id) {
                "bridging is not enabled on this server"@
            } else {
                "server id is not on this server's bridge allowlist"@
            })
            &&& quick && r is Reject ==> r->error_code == 3 && r->reason == (
            if forall|id: Seq<u8>| !#[trigger] lists.quick_clients.contains(id) {
                "quick mode is not enabled on this server"@
            } else {
                "client id is not on this server's quick-client allowlist"@
            })
        }),
{
    if forall|id: Seq<u8>| !#[trigger] lists.bridge_servers.contains(id) {
        assert(lists.bridge_servers == Set::<Seq<u8>>::empty());
    }
    if forall|id: Seq<u8>| !#[trigger] lists.quick_clients.contains(id) {
        assert(lists.quick_clients == Set::<Seq<u8>>::empty());
    }
    reveal_strlit("flextunnel-bridge/1");
    reveal_strlit("flextunnel-quick/1");
    let (a, b) = ("flextunnel-bridge/1"@, "flextunnel-quick/1"@);
    assert(a.len() != b.len());
    encode_utf8_decode_utf8(a);
    encode_utf8_decode_utf8(b);
}

} // verus!
