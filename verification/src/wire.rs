//! The bytes on the tunnel's streams: length-prefixed messages, request headers and replies.
//!
//! A reader asks for exactly the bytes that are still missing, so that it never takes a byte that
//! belongs to what follows the header on the stream.

use vstd::prelude::*;
use vstd::string::*;
use vstd::utf8::{
    decode_utf8, encode_utf8, encode_utf8_decode_utf8, encode_utf8_valid_utf8, valid_utf8,
};

use crate::text::{decimal, hex, push_decimal, push_hex};

verus! {

/// The version byte of request and reply headers.
pub const STREAM_VERSION: u8 = 1;

/// The address type of an IPv4 address, as in SOCKS5.
pub const ATYP_IPV4: u8 = 0x01;

/// The address type of a domain name, as in SOCKS5.
pub const ATYP_DOMAIN: u8 = 0x03;

/// The address type of an IPv6 address, as in SOCKS5.
pub const ATYP_IPV6: u8 = 0x04;

/// The length of a message's length prefix.
pub const PREFIX_LEN: usize = 4;

/// An IP address and port.
#[derive(Debug, Clone, Copy, PartialEq, Eq)]
pub enum SocketAddr {
    V4 { octets: [u8; 4], port: u16 },
    V6 { octets: [u8; 16], port: u16, flowinfo: u32, scope_id: u32 },
}

/// A connection target that a stream asks for.
#[derive(Debug, PartialEq, Eq)]
pub enum Target {
    /// A resolved address.
    Ip(SocketAddr),
    /// A domain name and port, resolved on the server's side.
    Domain(String, u16),
}

/// What a [`Target`] holds.
#[verifier::ext_equal]
pub enum TargetView {
    V4 { octets: Seq<u8>, port: u16 },
    V6 { octets: Seq<u8>, port: u16, flowinfo: u32, scope_id: u32 },
    Domain { host: Seq<char>, port: u16 },
}

impl View for Target {
    type V = TargetView;

    open spec fn view(&self) -> TargetView {
        match *self {
            Target::Ip(SocketAddr::V4 { octets, port }) => TargetView::V4 { octets: octets@, port },
            Target::Ip(SocketAddr::V6 { octets, port, flowinfo, scope_id }) => TargetView::V6 {
                octets: octets@,
                port,
                flowinfo,
                scope_id,
            },
            Target::Domain(host, port) => TargetView::Domain { host: host@, port },
        }
    }
}

impl Clone for Target {
    fn clone(&self) -> (r: Self)
        ensures
            r@ == self@,
    {
        match self {
            Target::Ip(addr) => Target::Ip(*addr),
            Target::Domain(host, port) => Target::Domain(host.clone(), *port),
        }
    }
}

/// Where a reader stands after the bytes so far.
#[derive(Debug, PartialEq, Eq)]
pub enum ReadStep<T> {
    /// Read exactly this many more bytes, and look again.
    More(usize),
    /// The value is complete.
    Done(T),
    /// The bytes are refused.
    Fail(String),
}

/// What a [`ReadStep`] holds.
#[verifier::ext_equal]
#[verifier::reject_recursive_types(T)]
pub enum Step<T> {
    More(nat),
    Done(T),
    Fail(Seq<char>),
}

impl<T: View> View for ReadStep<T> {
    type V = Step<T::V>;

    open spec fn view(&self) -> Step<T::V> {
        match *self {
            ReadStep::More(n) => Step::More(n as nat),
            ReadStep::Done(t) => Step::Done(t@),
            ReadStep::Fail(e) => Step::Fail(e@),
        }
    }
}

/// The two bytes of `n`, most significant first.
pub open spec fn be16(n: u16) -> Seq<u8> {
    seq![(n / 256) as u8, (n % 256) as u8]
}

/// The number with the given two bytes, most significant first.
pub open spec fn from_be16(hi: u8, lo: u8) -> u16 {
    (hi * 256 + lo) as u16
}

/// The four bytes of `n`, most significant first.
pub open spec fn be32(n: nat) -> Seq<u8> {
    seq![
        (n / 0x100_0000 % 256) as u8,
        (n / 0x1_0000 % 256) as u8,
        (n / 0x100 % 256) as u8,
        (n % 256) as u8,
    ]
}

/// The number with the given four bytes, most significant first.
pub open spec fn from_be32(b: Seq<u8>) -> nat {
    (b[0] * 0x100_0000 + b[1] * 0x1_0000 + b[2] * 0x100 + b[3]) as nat
}

/// The bytes of a message: its length, then its payload.
pub open spec fn message_bytes(data: Seq<u8>) -> Result<Seq<u8>, Seq<char>> {
    if data.len() <= u32::MAX {
        Ok(be32(data.len()) + data)
    } else {
        Err("Message too large: "@ + decimal(data.len()) + " bytes"@)
    }
}

/// The view of encoded bytes.
pub open spec fn encoded(r: Result<Vec<u8>, String>) -> Result<Seq<u8>, Seq<char>> {
    match r {
        Ok(v) => Ok(v@),
        Err(e) => Err(e@),
    }
}

fn push_bytes(out: &mut Vec<u8>, data: &[u8])
    ensures
        final(out)@ == old(out)@ + data@,
{
    let mut i: usize = 0;
    while i < data.len()
        invariant
            i <= data.len(),
            out@ == old(out)@ + data@.take(i as int),
        decreases data.len() - i,
    {
        out.push(data[i]);
        i += 1;
    }
    assert(data@.take(data.len() as int) == data@);
}

fn copy_range(data: &[u8], from: usize, to: usize) -> (r: Vec<u8>)
    requires
        from <= to <= data.len(),
    ensures
        r@ == data@.subrange(from as int, to as int),
{
    let mut out: Vec<u8> = Vec::new();
    let mut i: usize = from;
    while i < to
        invariant
            from <= i <= to <= data.len(),
            out@ == data@.subrange(from as int, i as int),
        decreases to - i,
    {
        out.push(data[i]);
        i += 1;
    }
    out
}

/// The bytes of a length-prefixed message. A payload whose length does not fit the prefix is
/// refused.
pub fn write_message(data: &[u8]) -> (r: Result<Vec<u8>, String>)
    ensures
        encoded(r) == message_bytes(data@),
{
    if data.len() as u128 > u32::MAX as u128 {
        let mut message = String::from_str("Message too large: ");
        push_decimal(&mut message, data.len() as u128);
        message.append(" bytes");
        return Err(message);
    }
    let n: u32 = data.len() as u32;
    let mut out: Vec<u8> = Vec::new();
    out.push((n / 0x100_0000 % 256) as u8);
    out.push((n / 0x1_0000 % 256) as u8);
    out.push((n / 0x100 % 256) as u8);
    out.push((n % 256) as u8);
    assert(out@ == be32(data@.len()));
    push_bytes(&mut out, data);
    Ok(out)
}

/// Where the reader of a message stands after the bytes `buf`.
pub open spec fn message_step(buf: Seq<u8>, max_size: nat) -> Step<Seq<u8>> {
    if buf.len() < PREFIX_LEN {
        Step::More((PREFIX_LEN - buf.len()) as nat)
    } else {
        let len = from_be32(buf);
        if len > max_size {
            Step::Fail("Message too large: "@ + decimal(len) + " > "@ + decimal(max_size))
        } else if buf.len() < PREFIX_LEN + len {
            Step::More((PREFIX_LEN + len - buf.len()) as nat)
        } else {
            Step::Done(buf.subrange(PREFIX_LEN as int, PREFIX_LEN + len))
        }
    }
}

/// Says where the reader of a length-prefixed message stands after the bytes `buf`. A message
/// longer than `max_size` is refused as soon as its length is known.
pub fn read_message(buf: &[u8], max_size: usize) -> (r: ReadStep<Vec<u8>>)
    ensures
        r@ == message_step(buf@, max_size as nat),
{
    if buf.len() < PREFIX_LEN {
        return ReadStep::More(PREFIX_LEN - buf.len());
    }
    let len: u32 = buf[0] as u32 * 0x100_0000 + buf[1] as u32 * 0x1_0000 + buf[2] as u32 * 0x100
        + buf[3] as u32;
    if len as u128 > max_size as u128 {
        let mut message = String::from_str("Message too large: ");
        push_decimal(&mut message, len as u128);
        message.append(" > ");
        push_decimal(&mut message, max_size as u128);
        return ReadStep::Fail(message);
    }
    let len: usize = len as usize;
    let have: usize = buf.len() - PREFIX_LEN;
    if have < len {
        return ReadStep::More(len - have);
    }
    ReadStep::Done(copy_range(buf, PREFIX_LEN, PREFIX_LEN + len))
}

/// What was written as a message reads back, where the reader takes messages of that size.
pub proof fn law_message_reads_back(data: Seq<u8>, max_size: nat)
    requires
        data.len() <= u32::MAX,
        data.len() <= max_size,
    ensures
        message_bytes(data) matches Ok(bytes) && message_step(bytes, max_size) == Step::Done(data),
{
    let bytes = be32(data.len()) + data;
    lemma_be32(data.len());
    assert(from_be32(bytes) == from_be32(be32(data.len())));
    assert(bytes.subrange(4, 4 + data.len() as int) == data);
}

proof fn lemma_be32(n: nat)
    requires
        n <= u32::MAX,
    ensures
        from_be32(be32(n)) == n,
{
}

/// While a message is incomplete, its reader asks for more, and never for more than is left of
/// the message.
pub proof fn law_message_reader_stays_inside(data: Seq<u8>, max_size: nat, n: int)
    requires
        data.len() <= u32::MAX,
        data.len() <= max_size,
        0 <= n < 4 + data.len(),
    ensures
        message_step((be32(data.len()) + data).take(n), max_size) matches Step::More(k) && 0 < k
            <= 4 + data.len() - n,
{
    let bytes = be32(data.len()) + data;
    lemma_be32(data.len());
    if n >= 4 {
        assert(from_be32(bytes.take(n)) == from_be32(be32(data.len())));
    }
}

/// A message that is longer than the reader takes is refused as soon as its length is known,
/// however little of the payload has come: until then the reader asks for the rest of the length,
/// and for nothing of the payload.
pub proof fn law_long_message_is_refused(data: Seq<u8>, max_size: nat, n: int)
    requires
        max_size < data.len() <= u32::MAX,
        0 <= n <= PREFIX_LEN + data.len(),
    ensures
        message_bytes(data) matches Ok(bytes) && bytes.len() == PREFIX_LEN + data.len()
            && message_step(bytes.take(n), max_size) == (if n < PREFIX_LEN {
            Step::<Seq<u8>>::More((PREFIX_LEN - n) as nat)
        } else {
            Step::Fail("Message too large: "@ + decimal(data.len()) + " > "@ + decimal(max_size))
        }),
{
    let bytes = be32(data.len()) + data;
    lemma_be32(data.len());
    if n >= PREFIX_LEN {
        assert(from_be32(bytes.take(n)) == from_be32(be32(data.len())));
    }
}

/// The bytes of a request header for a target: version, address type, address, port.
pub open spec fn request_bytes(t: TargetView) -> Result<Seq<u8>, Seq<char>> {
    match t {
        TargetView::V4 { octets, port } => Ok(
            seq![STREAM_VERSION, ATYP_IPV4] + octets + be16(port),
        ),
        TargetView::V6 { octets, port, .. } => Ok(
            seq![STREAM_VERSION, ATYP_IPV6] + octets + be16(port),
        ),
        TargetView::Domain { host, port } => {
            let bytes = encode_utf8(host);
            if bytes.len() <= 255 {
                Ok(
                    seq![STREAM_VERSION, ATYP_DOMAIN, bytes.len() as u8] + bytes + be16(port),
                )
            } else {
                Err("domain name longer than 255 bytes"@)
            }
        },
    }
}

fn push_be16(out: &mut Vec<u8>, n: u16)
    ensures
        final(out)@ == old(out)@ + be16(n),
{
    out.push((n / 256) as u8);
    out.push((n % 256) as u8);
}

/// The bytes of the request header for a target.
pub fn write_request(t: &Target) -> (r: Result<Vec<u8>, String>)
    ensures
        encoded(r) == request_bytes(t@),
{
    let mut buf: Vec<u8> = Vec::new();
    buf.push(STREAM_VERSION);
    match t {
        Target::Ip(SocketAddr::V4 { octets, port }) => {
            buf.push(ATYP_IPV4);
            push_bytes(&mut buf, octets.as_slice());
            push_be16(&mut buf, *port);
            assert(buf@ == seq![STREAM_VERSION, ATYP_IPV4] + octets@ + be16(*port));
        },
        Target::Ip(SocketAddr::V6 { octets, port, flowinfo: _, scope_id: _ }) => {
            buf.push(ATYP_IPV6);
            push_bytes(&mut buf, octets.as_slice());
            push_be16(&mut buf, *port);
            assert(buf@ == seq![STREAM_VERSION, ATYP_IPV6] + octets@ + be16(*port));
        },
        Target::Domain(host, port) => {
            let bytes = host.as_str().as_bytes();
            if bytes.len() > 255 {
                return Err(String::from_str("domain name longer than 255 bytes"));
            }
            buf.push(ATYP_DOMAIN);
            buf.push(bytes.len() as u8);
            push_bytes(&mut buf, bytes);
            push_be16(&mut buf, *port);
            assert(buf@ == seq![STREAM_VERSION, ATYP_DOMAIN, bytes@.len() as u8] + bytes@ + be16(
                *port,
            ));
        },
    }
    Ok(buf)
}

/// The message that a stream has another version.
pub open spec fn stream_version_error(ver: u8) -> Seq<char> {
    "Unsupported stream version: "@ + decimal(ver as nat) + " (expected "@ + decimal(
        STREAM_VERSION as nat,
    ) + ")"@
}

fn stream_version_message(ver: u8) -> (r: String)
    ensures
        r@ == stream_version_error(ver),
{
    let mut message = String::from_str("Unsupported stream version: ");
    push_decimal(&mut message, ver as u128);
    message.append(" (expected ");
    push_decimal(&mut message, STREAM_VERSION as u128);
    message.append(")");
    message
}

/// Where the reader of a request header stands after the bytes `buf`.
pub open spec fn request_step(buf: Seq<u8>) -> Step<TargetView> {
    if buf.len() < 1 {
        Step::More(1)
    } else if buf[0] != STREAM_VERSION {
        Step::Fail(stream_version_error(buf[0]))
    } else if buf.len() < 2 {
        Step::More(1)
    } else if buf[1] == ATYP_IPV4 {
        if buf.len() < 8 {
            Step::More((8 - buf.len()) as nat)
        } else {
            Step::Done(
                TargetView::V4 { octets: buf.subrange(2, 6), port: from_be16(buf[6], buf[7]) },
            )
        }
    } else if buf[1] == ATYP_IPV6 {
        if buf.len() < 20 {
            Step::More((20 - buf.len()) as nat)
        } else {
            Step::Done(
                TargetView::V6 {
                    octets: buf.subrange(2, 18),
                    port: from_be16(buf[18], buf[19]),
                    flowinfo: 0,
                    scope_id: 0,
                },
            )
        }
    } else if buf[1] == ATYP_DOMAIN {
        if buf.len() < 3 {
            Step::More(1)
        } else {
            let end = 3 + buf[2] as int;
            if buf.len() < end + 2 {
                Step::More((end + 2 - buf.len()) as nat)
            } else if valid_utf8(buf.subrange(3, end)) {
                Step::Done(
                    TargetView::Domain {
                        host: decode_utf8(buf.subrange(3, end)),
                        port: from_be16(buf[end], buf[end + 1]),
                    },
                )
            } else {
                Step::Fail("domain name is not valid UTF-8"@)
            }
        }
    } else {
        Step::Fail("invalid address type: 0x"@ + hex(buf[1] as nat, 2))
    }
}

/// `String::from_utf8` gives the text that the bytes encode if they are valid UTF-8, and an error
/// if they are not.
#[verifier::external_body]
fn string_from_utf8(bytes: Vec<u8>) -> (r: Option<String>)
    ensures
        match r {
            Some(s) => valid_utf8(bytes@) && s@ == decode_utf8(bytes@),
            None => !valid_utf8(bytes@),
        },
{
    String::from_utf8(bytes).ok()
}

fn read_be16(buf: &[u8], i: usize) -> (r: u16)
    requires
        i + 1 < buf.len(),
    ensures
        r == from_be16(buf@[i as int], buf@[i + 1]),
{
    buf[i] as u16 * 256 + buf[i + 1] as u16
}

/// Says where the reader of a request header stands after the bytes `buf`.
pub fn read_request(buf: &[u8]) -> (r: ReadStep<Target>)
    ensures
        r@ == request_step(buf@),
{
    let n: usize = buf.len();
    if n < 1 {
        return ReadStep::More(1);
    }
    if buf[0] != STREAM_VERSION {
        return ReadStep::Fail(stream_version_message(buf[0]));
    }
    if n < 2 {
        return ReadStep::More(1);
    }
    let atyp = buf[1];
    if atyp == ATYP_IPV4 {
        if n < 8 {
            return ReadStep::More(8 - n);
        }
        let octets: [u8; 4] = [buf[2], buf[3], buf[4], buf[5]];
        assert(octets@ == buf@.subrange(2, 6));
        let port = read_be16(buf, 6);
        ReadStep::Done(Target::Ip(SocketAddr::V4 { octets, port }))
    } else if atyp == ATYP_IPV6 {
        if n < 20 {
            return ReadStep::More(20 - n);
        }
        let octets: [u8; 16] = [
            buf[2],
            buf[3],
            buf[4],
            buf[5],
            buf[6],
            buf[7],
            buf[8],
            buf[9],
            buf[10],
            buf[11],
            buf[12],
            buf[13],
            buf[14],
            buf[15],
            buf[16],
            buf[17],
        ];
        assert(octets@ == buf@.subrange(2, 18));
        let port = read_be16(buf, 18);
        ReadStep::Done(Target::Ip(SocketAddr::V6 { octets, port, flowinfo: 0, scope_id: 0 }))
    } else if atyp == ATYP_DOMAIN {
        if n < 3 {
            return ReadStep::More(1);
        }
        let end: usize = 3 + buf[2] as usize;
        if n < end + 2 {
            return ReadStep::More(end + 2 - n);
        }
        match string_from_utf8(copy_range(buf, 3, end)) {
            Some(host) => {
                let port = read_be16(buf, end);
                ReadStep::Done(Target::Domain(host, port))
            },
            None => ReadStep::Fail(String::from_str("domain name is not valid UTF-8")),
        }
    } else {
        let mut message = String::from_str("invalid address type: 0x");
        push_hex(&mut message, atyp as u64, 2);
        ReadStep::Fail(message)
    }
}

/// Whether a header can carry all of a target: an address has its length, and flow information
/// and scope, which are not sent, are zero.
pub open spec fn is_portable(t: TargetView) -> bool {
    match t {
        TargetView::V4 { octets, .. } => octets.len() == 4,
        TargetView::V6 { octets, flowinfo, scope_id, .. } => octets.len() == 16 && flowinfo == 0
            && scope_id == 0,
        TargetView::Domain { .. } => true,
    }
}

/// What was written as a request header reads back.
pub proof fn law_request_reads_back(t: TargetView)
    requires
        is_portable(t),
        request_bytes(t) is Ok,
    ensures
        request_step(request_bytes(t)->Ok_0) == Step::Done(t),
{
    let bytes = request_bytes(t)->Ok_0;
    match t {
        TargetView::V4 { octets, port } => {
            assert(bytes.subrange(2, 6) == octets);
        },
        TargetView::V6 { octets, port, .. } => {
            assert(bytes.subrange(2, 18) == octets);
        },
        TargetView::Domain { host, port } => {
            let enc = encode_utf8(host);
            encode_utf8_valid_utf8(host);
            encode_utf8_decode_utf8(host);
            assert(bytes.subrange(3, 3 + enc.len() as int) == enc);
        },
    }
}

/// While a request header is incomplete, its reader asks for more, and never for more than is
/// left of the header.
pub proof fn law_request_reader_stays_inside(t: TargetView, n: int)
    requires
        is_portable(t),
        request_bytes(t) is Ok,
        0 <= n < request_bytes(t)->Ok_0.len(),
    ensures
        request_step(request_bytes(t)->Ok_0.take(n)) matches Step::More(k) && 0 < k
            <= request_bytes(t)->Ok_0.len() - n,
{
}

/// The bytes of a reply header: version and reply code.
pub open spec fn reply_bytes(rep: u8) -> Seq<u8> {
    seq![STREAM_VERSION, rep]
}

/// The bytes of a reply header.
pub fn write_reply(rep: u8) -> (r: Vec<u8>)
    ensures
        r@ == reply_bytes(rep),
{
    let mut out: Vec<u8> = Vec::new();
    out.push(STREAM_VERSION);
    out.push(rep);
    assert(out@ == reply_bytes(rep));
    out
}

/// Where the reader of a reply header stands after the bytes `buf`.
pub open spec fn reply_step(buf: Seq<u8>) -> Step<u8> {
    if buf.len() < 1 {
        Step::More(1)
    } else if buf[0] != STREAM_VERSION {
        Step::Fail(stream_version_error(buf[0]))
    } else if buf.len() < 2 {
        Step::More(1)
    } else {
        Step::Done(buf[1])
    }
}

/// Says where the reader of a reply header stands after the bytes `buf`.
pub fn read_reply(buf: &[u8]) -> (r: ReadStep<u8>)
    ensures
        r@ == reply_step(buf@),
{
    if buf.len() < 1 {
        ReadStep::More(1)
    } else if buf[0] != STREAM_VERSION {
        ReadStep::Fail(stream_version_message(buf[0]))
    } else if buf.len() < 2 {
        ReadStep::More(1)
    } else {
        ReadStep::Done(buf[1])
    }
}

/// What was written as a reply reads back, and its reader asks for no byte beyond it.
pub proof fn law_reply_reads_back(rep: u8)
    ensures
        reply_step(reply_bytes(rep)) == Step::Done(rep),
        reply_step(reply_bytes(rep).take(0)) == Step::<u8>::More(1),
        reply_step(reply_bytes(rep).take(1)) == Step::<u8>::More(1),
{
}

} // verus!
