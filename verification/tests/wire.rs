use flextunnel::signaling::{
    map_io_err, IoErrorKind, REP_CONN_REFUSED, REP_GENERAL_FAILURE, REP_HOST_UNREACHABLE,
    REP_NET_UNREACHABLE,
};
use flextunnel::wire::{
    read_message, read_reply, read_request, write_message, write_reply, write_request, ReadStep,
    SocketAddr, Target,
};

/// Reads a request from a stream, taking exactly the bytes that are asked for.
fn read_request_from(stream: &[u8]) -> (Result<Target, String>, usize) {
    let mut taken = 0;
    loop {
        match read_request(&stream[..taken]) {
            ReadStep::More(n) => {
                if taken + n > stream.len() {
                    return (Err("unexpected end".to_string()), taken);
                }
                taken += n;
            }
            ReadStep::Done(target) => return (Ok(target), taken),
            ReadStep::Fail(e) => return (Err(e), taken),
        }
    }
}

fn roundtrip(t: &Target) -> Target {
    let mut buf = write_request(t).unwrap();
    let len = buf.len();
    // What follows the header on the stream is left alone.
    buf.extend_from_slice(b"payload");
    let (got, taken) = read_request_from(&buf);
    assert_eq!(taken, len);
    got.unwrap()
}

#[test]
fn request_roundtrip_ipv4() {
    let t = Target::Ip(SocketAddr::V4 { octets: [93, 184, 216, 34], port: 443 });
    assert_eq!(roundtrip(&t), t);
    assert_eq!(write_request(&t).unwrap(), vec![1, 1, 93, 184, 216, 34, 1, 187]);
}

#[test]
fn request_roundtrip_ipv6() {
    let t = Target::Ip(SocketAddr::V6 {
        octets: [
            0x26, 0x06, 0x28, 0x00, 0x02, 0x20, 0x00, 0x01, 0x02, 0x48, 0x18, 0x93, 0x25, 0xc8,
            0x19, 0x46,
        ],
        port: 80,
        flowinfo: 0,
        scope_id: 0,
    });
    assert_eq!(roundtrip(&t), t);
    let bytes = write_request(&t).unwrap();
    assert_eq!(bytes.len(), 20);
    assert_eq!(&bytes[..4], &[1, 4, 0x26, 0x06]);
    assert_eq!(&bytes[18..], &[0, 80]);
}

#[test]
fn request_roundtrip_domain() {
    let t = Target::Domain("example.com".to_string(), 443);
    assert_eq!(roundtrip(&t), t);
    let mut expected = vec![1, 3, 11];
    expected.extend_from_slice(b"example.com");
    expected.extend_from_slice(&[1, 187]);
    assert_eq!(write_request(&t).unwrap(), expected);
}

#[test]
fn request_roundtrip_domain_edges() {
    for host in ["", "bücher.example", &"a".repeat(255)] {
        let t = Target::Domain(host.to_string(), 65535);
        assert_eq!(roundtrip(&t), t);
    }
    let long = Target::Domain("a".repeat(256), 1);
    assert_eq!(write_request(&long), Err("domain name longer than 255 bytes".to_string()));
    // The limit is on bytes, not characters.
    let wide = Target::Domain("ü".repeat(128), 1);
    assert_eq!(write_request(&wide), Err("domain name longer than 255 bytes".to_string()));
}

#[test]
fn flow_information_and_scope_are_not_sent() {
    let t = Target::Ip(SocketAddr::V6 { octets: [7; 16], port: 9, flowinfo: 3, scope_id: 4 });
    let plain = Target::Ip(SocketAddr::V6 { octets: [7; 16], port: 9, flowinfo: 0, scope_id: 0 });
    assert_eq!(roundtrip(&t), plain);
}

#[test]
fn bad_requests_are_refused() {
    assert_eq!(
        read_request(&[2]),
        ReadStep::Fail("Unsupported stream version: 2 (expected 1)".to_string())
    );
    assert_eq!(
        read_request(&[1, 2]),
        ReadStep::Fail("invalid address type: 0x02".to_string())
    );
    assert_eq!(
        read_request(&[1, 0xff]),
        ReadStep::Fail("invalid address type: 0xff".to_string())
    );
    assert_eq!(
        read_request(&[1, 3, 1, 0xff, 0, 80]),
        ReadStep::Fail("domain name is not valid UTF-8".to_string())
    );
}

#[test]
fn a_request_is_asked_for_piece_by_piece() {
    assert_eq!(read_request(&[]), ReadStep::More(1));
    assert_eq!(read_request(&[1]), ReadStep::More(1));
    assert_eq!(read_request(&[1, 1]), ReadStep::More(6));
    assert_eq!(read_request(&[1, 1, 9]), ReadStep::More(5));
    assert_eq!(read_request(&[1, 4]), ReadStep::More(18));
    assert_eq!(read_request(&[1, 3]), ReadStep::More(1));
    assert_eq!(read_request(&[1, 3, 11]), ReadStep::More(13));
}

#[test]
fn reply_roundtrip() {
    let buf = write_reply(REP_HOST_UNREACHABLE);
    assert_eq!(buf, vec![1, 4]);
    assert_eq!(read_reply(&buf), ReadStep::Done(REP_HOST_UNREACHABLE));
    assert_eq!(read_reply(&[]), ReadStep::More(1));
    assert_eq!(read_reply(&buf[..1]), ReadStep::More(1));
    assert_eq!(
        read_reply(&[9, 0]),
        ReadStep::Fail("Unsupported stream version: 9 (expected 1)".to_string())
    );
}

#[test]
fn message_roundtrip() {
    let data = b"hello".to_vec();
    let framed = write_message(&data).unwrap();
    assert_eq!(framed, vec![0, 0, 0, 5, b'h', b'e', b'l', b'l', b'o']);
    assert_eq!(read_message(&framed, 5), ReadStep::Done(data));
    assert_eq!(read_message(&framed[..6], 5), ReadStep::More(3));
    assert_eq!(read_message(&framed[..2], 5), ReadStep::More(2));
    assert_eq!(read_message(&write_message(&[]).unwrap(), 0), ReadStep::Done(Vec::new()));
    let big = vec![7u8; 70_000];
    let framed = write_message(&big).unwrap();
    assert_eq!(&framed[..4], &[0, 1, 0x11, 0x70]);
    assert_eq!(read_message(&framed, 70_000), ReadStep::Done(big));
}

#[test]
fn long_messages_are_refused_at_once() {
    assert_eq!(
        read_message(&[0, 0, 0, 6], 5),
        ReadStep::Fail("Message too large: 6 > 5".to_string())
    );
    assert_eq!(
        read_message(&[0xff, 0xff, 0xff, 0xff], 65536),
        ReadStep::Fail("Message too large: 4294967295 > 65536".to_string())
    );
    let bytes = write_message(b"payload").unwrap();
    for n in 0..=bytes.len() {
        let expected = if n < 4 {
            ReadStep::More(4 - n)
        } else {
            ReadStep::Fail("Message too large: 7 > 6".to_string())
        };
        assert_eq!(read_message(&bytes[..n], 6), expected);
    }
}

#[test]
fn io_errors_map_to_replies() {
    assert_eq!(map_io_err(IoErrorKind::ConnectionRefused), REP_CONN_REFUSED);
    assert_eq!(map_io_err(IoErrorKind::NetworkUnreachable), REP_NET_UNREACHABLE);
    assert_eq!(map_io_err(IoErrorKind::HostUnreachable), REP_HOST_UNREACHABLE);
    assert_eq!(map_io_err(IoErrorKind::AddrInUse), REP_GENERAL_FAILURE);
    assert_eq!(map_io_err(IoErrorKind::Other), REP_GENERAL_FAILURE);
}
