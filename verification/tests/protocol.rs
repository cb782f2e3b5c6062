//! Unit tests for the wire protocol: encode/parse roundtrips, malformed-frame
//! safety (must degrade to `Fail`, never panic), and the MAX_PAYLOAD boundary.

use bytes::{BufMut, Bytes, BytesMut};
use wormhole::protocol::{self, Frame, ProxyAckEntry, ProxyReg, HDR, MAX_PAYLOAD};

fn roundtrip(f: &Frame) {
    let mut buf = BytesMut::new();
    protocol::encode(&mut buf, f);
    let mut b2 = buf.clone();
    let parsed = protocol::parse(&mut b2).expect("encoded frame should parse");
    assert_eq!(&parsed, f, "roundtrip mismatch");
    assert!(b2.is_empty(), "frame should fully consume the buffer");
}

#[test]
fn roundtrip_all_frame_types() {
    roundtrip(&Frame::Auth([7u8; 32]));
    roundtrip(&Frame::Okay);
    roundtrip(&Frame::Fail);
    roundtrip(&Frame::DCount(3));
    roundtrip(&Frame::ChIdx(0));
    roundtrip(&Frame::ChIdx(63));
    roundtrip(&Frame::ProxyAck {
        entries: vec![
            ProxyAckEntry {
                name: "rs".into(),
                status: 0,
            },
            ProxyAckEntry {
                name: "scan".into(),
                status: 1,
            },
            ProxyAckEntry {
                name: "x".into(),
                status: 2,
            },
        ],
        data_port: 1405,
    });
    roundtrip(&Frame::ProxyAck {
        entries: vec![],
        data_port: 1,
    });
    roundtrip(&Frame::New {
        id: 1,
        local_host: "127.0.0.1".into(),
        local_port: 8080,
    });
    roundtrip(&Frame::New {
        id: 65535,
        local_host: "10.0.0.5".into(),
        local_port: 1,
    });
    roundtrip(&Frame::Close(9));
    roundtrip(&Frame::Data(0x1234, Bytes::from_static(&[1, 2, 3, 4, 5])));
    roundtrip(&Frame::Data(7, Bytes::new())); // empty DATA (id only) is valid
    roundtrip(&Frame::Ping(0xdead_beef));
    roundtrip(&Frame::Pong(0x1234_5678));
    roundtrip(&Frame::Proxies(vec![
        ProxyReg {
            name: "rs".into(),
            remote: 1401,
            local_host: "127.0.0.1".into(),
            local_port: 1401,
        },
        ProxyReg {
            name: "scan".into(),
            remote: 1402,
            local_host: "10.0.0.5".into(),
            local_port: 5432,
        },
    ]));
    roundtrip(&Frame::Proxies(vec![]));
}

/// DATA payload bounds: a 2-byte payload (id + zero data bytes) is a valid
/// empty DATA frame; a 1-byte payload (no id prefix) is malformed -> `Fail`.
#[test]
fn data_frame_payload_bounds() {
    let f = Frame::Data(7, Bytes::new());
    let mut buf = BytesMut::new();
    protocol::encode(&mut buf, &f);
    let parsed = protocol::parse(&mut buf).expect("header present");
    assert_eq!(parsed, f, "2-byte DATA (id only) is a valid empty DATA frame");

    let mut buf = BytesMut::new();
    buf.put_u8(protocol::DATA);
    buf.put_u16(1);
    buf.put_slice(&[1]);
    assert_eq!(
        protocol::parse(&mut buf),
        Some(Frame::Fail),
        "1-byte DATA must be malformed"
    );
}

/// A DATA frame at the exact MAX_PAYLOAD boundary (payload == u16::MAX) must
/// encode and parse without wrapping the u16 length field.
#[test]
fn data_frame_at_max_payload() {
    let chunk: Vec<u8> = (0..MAX_PAYLOAD).map(|i| (i % 251) as u8).collect();
    let f = Frame::Data(0x1234, Bytes::from(chunk.clone()));

    let mut buf = BytesMut::new();
    protocol::encode(&mut buf, &f);
    assert_eq!(buf.len(), HDR + MAX_PAYLOAD + 2); // on-wire payload == u16::MAX

    let parsed = protocol::parse(&mut buf).expect("max DATA should parse");
    match parsed {
        Frame::Data(id, d) => {
            assert_eq!(id, 0x1234);
            assert_eq!(d.len(), MAX_PAYLOAD);
            assert_eq!(&d[..], &chunk[..]);
        }
        other => panic!("expected Data, got kind 0x{:02x}", other.kind()),
    }
}

#[test]
fn proxyack_entries_roundtrip_and_malformed() {
    roundtrip(&Frame::ProxyAck {
        entries: Vec::new(),
        data_port: 1401,
    }); // zero proxies is valid (payload = just the data port)

    // truncated entry (name_len overruns the entries body) must degrade to Fail
    let mut buf = BytesMut::new();
    buf.put_u8(0x0C); // PROXYACK
    buf.put_u16(3);
    buf.put_slice(&[0x03, b'a', b'b']);
    assert!(matches!(protocol::parse(&mut buf), Some(Frame::Fail)));
}

/// `parse` must return None (need more bytes) for a partial frame and must not
/// consume it.
#[test]
fn parse_returns_none_on_partial_frame() {
    let mut buf = BytesMut::new();
    buf.put_slice(&[protocol::DATA, 0x00, 0x05, 1, 2, 3]); // 3 of 5 payload bytes
    assert!(protocol::parse(&mut buf).is_none());
    assert_eq!(buf.len(), 6, "partial frame must not be consumed");
    // complete it
    buf.put_slice(&[4, 5]);
    assert!(protocol::parse(&mut buf).is_some());
}

/// A frame can be split across arbitrary read boundaries; the decoder must
/// reassemble it.
#[test]
fn parse_reassembles_across_reads() {
    let f = Frame::New {
        id: 7,
        local_host: "192.168.1.20".into(),
        local_port: 443,
    };
    let mut full = BytesMut::new();
    protocol::encode(&mut full, &f);
    // feed one byte at a time; `parse` consumes the frame once complete
    let mut buf = BytesMut::new();
    let mut parsed = None;
    for b in full.iter() {
        buf.put_u8(*b);
        if let Some(p) = protocol::parse(&mut buf) {
            parsed = Some(p);
            break;
        }
    }
    let parsed = parsed.expect("frame should parse once fully fed");
    assert_eq!(&parsed, &f);
    assert!(buf.is_empty());
}

/// build a raw frame `[type][len][payload]` and assert it parses to Fail.
fn expect_fail(t: u8, payload: &[u8]) {
    let mut buf = BytesMut::new();
    buf.put_u8(t);
    buf.put_u16(payload.len() as u16);
    buf.put_slice(payload);
    let parsed = protocol::parse(&mut buf).expect("header is well-formed");
    assert_eq!(
        parsed,
        Frame::Fail,
        "type 0x{t:02x} len {} must be Fail",
        payload.len()
    );
}

/// Malformed payloads must decode to `Fail` (never panic): wrong lengths,
/// truncated sub-fields, and unknown frame types.
#[test]
fn malformed_frames_never_panic() {
    expect_fail(protocol::AUTH, &[0u8; 5]); // AUTH needs 32
    expect_fail(protocol::AUTH, &[0u8; 33]); // AUTH needs exactly 32
    expect_fail(protocol::DCOUNT, &[]); // DCOUNT needs 1
    expect_fail(protocol::DCOUNT, &[1, 2]); // DCOUNT needs 1
    expect_fail(protocol::CLOSE, &[1]); // CLOSE needs 2
    // PROXYACK is entries + a trailing 2-byte data port
    expect_fail(protocol::PROXYACK, &[]); // needs the 2-byte data port
    expect_fail(protocol::PROXYACK, &[1]); // needs the 2-byte data port
    expect_fail(protocol::PROXYACK, &[3, 1, 2, 0, 0]); // name_len=3, truncated
    // ...but a well-formed 1-entry ack parses (regression guard)
    let mut buf = BytesMut::new();
    buf.put_u8(protocol::PROXYACK);
    buf.put_u16(5);
    buf.put_slice(&[1, b'x', 3, 0x12, 0x34]);
    let parsed = protocol::parse(&mut buf).expect("well-formed PROXYACK");
    assert_eq!(
        parsed,
        Frame::ProxyAck {
            entries: vec![ProxyAckEntry {
                name: "x".into(),
                status: 3
            }],
            data_port: 0x1234
        }
    );
    // CHIDX needs exactly 1 byte
    expect_fail(protocol::CHIDX, &[]);
    expect_fail(protocol::CHIDX, &[1, 2]);
    expect_fail(protocol::PING, &[1, 2, 3]); // PING needs 4
    expect_fail(protocol::DATA, &[1]); // DATA needs >=2
    // NEW truncated in various ways
    expect_fail(protocol::NEW, &[1, 2, 5]); // lh_len=5 but only 2 bytes left
    expect_fail(protocol::NEW, &[1, 2]); // too short
    // PROXIES with a count but not enough data
    expect_fail(protocol::PROXIES, &[0, 1, 0]); // count=1, one empty reg (missing fields)
    expect_fail(protocol::PROXIES, &[0, 1, 3, b'a', b'b', b'c', 0, 1, 2]); // truncated local host
    // unknown type
    expect_fail(0xff, &[0, 0, 0]);
}

/// secret_hash is deterministic and 32 bytes.
#[test]
fn secret_hash_deterministic() {
    let a = protocol::secret_hash("hunter2");
    let b = protocol::secret_hash("hunter2");
    assert_eq!(a, b);
    assert_ne!(a, protocol::secret_hash("hunter3"));
}

/// The published SHA-256 digest of "abc".
#[test]
fn secret_hash_known_value() {
    let h = protocol::secret_hash("abc");
    assert_eq!(&h[..4], &[0xba, 0x78, 0x16, 0xbf]);
    assert_eq!(&h[28..], &[0xf2, 0x00, 0x15, 0xad]);
}

#[test]
fn wire_bytes_of_each_frame() {
    let bytes = |f: &Frame| {
        let mut buf = BytesMut::new();
        protocol::encode(&mut buf, f);
        buf.to_vec()
    };
    assert_eq!(bytes(&Frame::Okay), vec![2, 0, 0]);
    assert_eq!(bytes(&Frame::Fail), vec![3, 0, 0]);
    assert_eq!(bytes(&Frame::DCount(8)), vec![4, 0, 1, 8]);
    assert_eq!(
        bytes(&Frame::New { id: 0x0102, local_host: "ab".into(), local_port: 0x0304 }),
        vec![5, 0, 7, 1, 2, 2, b'a', b'b', 3, 4]
    );
    assert_eq!(bytes(&Frame::Close(0x0506)), vec![6, 0, 2, 5, 6]);
    assert_eq!(
        bytes(&Frame::Data(1, Bytes::from_static(b"xyz"))),
        vec![7, 0, 5, 0, 1, b'x', b'y', b'z']
    );
    assert_eq!(
        bytes(&Frame::Proxies(vec![ProxyReg {
            name: "n".into(),
            remote: 258,
            local_host: "h".into(),
            local_port: 772,
        }])),
        vec![8, 0, 10, 0, 1, 1, b'n', 1, 2, 1, b'h', 3, 4]
    );
    assert_eq!(bytes(&Frame::Ping(0x01020304)), vec![9, 0, 4, 1, 2, 3, 4]);
    assert_eq!(bytes(&Frame::Pong(5)), vec![10, 0, 4, 0, 0, 0, 5]);
    assert_eq!(bytes(&Frame::ChIdx(63)), vec![11, 0, 1, 63]);
    assert_eq!(
        bytes(&Frame::ProxyAck {
            entries: vec![ProxyAckEntry { name: "n".into(), status: 2 }],
            data_port: 1405,
        }),
        vec![12, 0, 5, 1, b'n', 2, 5, 125]
    );
    assert_eq!(bytes(&Frame::Auth([9; 32])).len(), HDR + 32);
}

/// `encode_payload` appends behind what is there.
#[test]
fn encode_payload_appends() {
    let mut buf = BytesMut::new();
    buf.put_u8(0xaa);
    protocol::encode_payload(&mut buf, &Frame::Close(0x0102));
    assert_eq!(buf.to_vec(), vec![0xaa, 1, 2]);
}

/// A payload that is longer than the frame it holds is malformed.
#[test]
fn surplus_payload_is_malformed() {
    expect_fail(protocol::OK, &[1]);
    expect_fail(protocol::OK, &[1, 2, 3]);
    expect_fail(protocol::FAIL, &[1]);
    expect_fail(protocol::NEW, &[0, 1, 1, b'h', 0, 80, 99]);
    expect_fail(protocol::PROXIES, &[0, 0, 9]);
    expect_fail(protocol::PROXIES, &[0, 1, 1, b'n', 1, 2, 1, b'h', 3, 4, 0]);
    assert_eq!(protocol::decode(protocol::OK, &[]), Frame::Okay);
    assert_eq!(protocol::decode(protocol::OK, &[1]), Frame::Fail);
    assert_eq!(protocol::decode_proxies(&[0, 0]), Frame::Proxies(vec![]));
    assert_eq!(protocol::decode_proxies(&[0, 0, 9]), Frame::Fail);
    assert_eq!(protocol::decode_new(&[0, 1, 0, 0, 80, 7]), Frame::Fail);
    assert_eq!(
        protocol::decode_new(&[0, 1, 0, 0, 80]),
        Frame::New { id: 1, local_host: String::new(), local_port: 80 }
    );
}

/// A list that is cut off is never taken for a shorter one.
#[test]
fn cut_proxies_are_malformed() {
    let reg = |name: &str, remote: u16| ProxyReg {
        name: name.into(),
        remote,
        local_host: "10.0.0.5".into(),
        local_port: 5432,
    };
    let frame = Frame::Proxies(vec![reg("rs", 1401), reg("", 1402), reg("scan", 1403)]);
    let mut q = BytesMut::new();
    protocol::encode_payload(&mut q, &frame);
    assert_eq!(protocol::decode_proxies(&q), frame);
    for k in 0..q.len() {
        assert_eq!(protocol::decode_proxies(&q[..k]), Frame::Fail, "cut at {k}");
    }
}

/// Every byte of a PROXYACK payload is accounted for.
#[test]
fn proxyack_payload_is_written_back() {
    for p in [&[0x12u8, 0x34][..], &[1, b'x', 3, 0x12, 0x34], &[0, 9, 2, 0xc3, 0xa9, 1, 0, 80]] {
        let (entries, data_port) = protocol::decode_proxyack(p).expect("well-formed");
        let mut buf = BytesMut::new();
        protocol::encode_payload(&mut buf, &Frame::ProxyAck { entries, data_port });
        assert_eq!(&buf[..], p);
    }
    assert_eq!(protocol::decode_proxyack(&[5, 1, 2]), None);
}

/// Bytes of one type never decode to a frame of another.
#[test]
fn decode_keeps_the_type() {
    for t in 0..=255u8 {
        for len in 0..40usize {
            let f = protocol::decode(t, &vec![0u8; len]);
            assert!(f == Frame::Fail || f.kind() == t);
        }
    }
}

/// Bytes that are not UTF-8 are repaired, not refused.
#[test]
fn invalid_text_is_repaired() {
    let mut buf = BytesMut::new();
    buf.put_slice(&[protocol::NEW, 0, 7, 0, 1, 2, b'a', 0xff, 0, 80]);
    assert_eq!(
        protocol::parse(&mut buf),
        Some(Frame::New { id: 1, local_host: "a\u{fffd}".into(), local_port: 80 })
    );
}

/// Frames written one after the other are read in the same order.
#[test]
fn drain_reads_a_stream_in_order() {
    let frames = vec![Frame::Ping(1), Frame::Data(3, Bytes::from_static(b"abc")), Frame::Close(3)];
    let mut buf = BytesMut::new();
    for f in &frames {
        protocol::encode(&mut buf, f);
    }
    buf.put_slice(&[protocol::PING, 0]);
    assert_eq!(protocol::drain(&mut buf), frames);
    assert_eq!(buf.to_vec(), vec![protocol::PING, 0]);
    buf.put_slice(&[4, 0, 0, 0, 9]);
    assert_eq!(protocol::drain(&mut buf), vec![Frame::Ping(9)]);
    assert!(buf.is_empty());
}

#[test]
fn fits_is_the_length_field() {
    assert!(Frame::Data(1, Bytes::from(vec![0u8; MAX_PAYLOAD])).fits());
    assert!(!Frame::Data(1, Bytes::from(vec![0u8; MAX_PAYLOAD + 1])).fits());
    let reg = |n: usize| ProxyReg {
        name: "n".repeat(n),
        remote: 1,
        local_host: String::new(),
        local_port: 1,
    };
    assert!(Frame::Proxies(vec![reg(65527)]).fits());
    assert!(!Frame::Proxies(vec![reg(65528)]).fits());
    assert!(!Frame::Proxies(vec![reg(200); 400]).fits());
    let ack = |n: usize| Frame::ProxyAck {
        entries: vec![ProxyAckEntry { name: "n".repeat(n), status: 0 }],
        data_port: 1,
    };
    assert!(ack(65531).fits());
    assert!(!ack(65532).fits());
    assert!(Frame::New { id: 1, local_host: "h".repeat(65530), local_port: 1 }.fits());
    assert!(!Frame::New { id: 1, local_host: "h".repeat(65531), local_port: 1 }.fits());
}

#[test]
fn kind_is_the_first_byte() {
    for f in [Frame::Okay, Frame::Ping(3), Frame::ChIdx(1), Frame::Close(4)] {
        let mut buf = BytesMut::new();
        protocol::encode(&mut buf, &f);
        assert_eq!(buf[0], f.kind());
    }
}
