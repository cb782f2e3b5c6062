//! Unit tests for the client's decisions.

use bytes::BytesMut;
use wormhole::client::{self, Backoff, Received, Reply};
use wormhole::config::{LocalSpec, PortPolicy, ProxySpec};
use wormhole::protocol::{self, Frame, ProxyAckEntry, ProxyReg};

fn spec(remote: PortPolicy) -> ProxySpec {
    ProxySpec { remote, local: None }
}

fn reg(name: &str, remote: u16, local_host: &str, local_port: u16) -> ProxyReg {
    ProxyReg { name: name.into(), remote, local_host: local_host.into(), local_port }
}

#[test]
fn proxies_are_ordered_by_name() {
    let services = |order: &[usize]| {
        let all = vec![
            ("web".to_string(), spec(PortPolicy::Str("80-81".into()))),
            ("B".to_string(), spec(PortPolicy::Num(1))),
            ("we".to_string(), spec(PortPolicy::Num(2))),
            (
                "é".to_string(),
                ProxySpec {
                    remote: PortPolicy::Num(3),
                    local: Some(LocalSpec::Str("h:4".into())),
                },
            ),
            ("broken".to_string(), spec(PortPolicy::Str("2-1".into()))),
        ];
        order.iter().map(|i| all[*i].clone()).collect::<Vec<_>>()
    };
    let expected = vec![
        reg("B", 1, "127.0.0.1", 1),
        reg("we", 2, "127.0.0.1", 2),
        reg("web", 80, "127.0.0.1", 80),
        reg("web", 81, "127.0.0.1", 81),
        reg("é", 3, "h", 4),
    ];
    for order in [[0, 1, 2, 3, 4], [4, 3, 2, 1, 0], [2, 0, 4, 1, 3]] {
        assert_eq!(client::build_proxies(&services(&order)), expected);
    }
    assert!(client::build_proxies(&vec![]).is_empty());
}

#[test]
fn hellos_are_frames_in_order() {
    let hash = protocol::secret_hash("s");
    let mut b = client::auth_bytes(&hash);
    assert_eq!(protocol::drain(&mut b), vec![Frame::Auth(hash)]);
    let regs = vec![reg("a", 1, "h", 2)];
    let mut b = client::declare_bytes(8, &regs).unwrap();
    assert_eq!(protocol::drain(&mut b), vec![Frame::DCount(8), Frame::Proxies(regs)]);
    assert!(client::declare_bytes(8, &vec![reg(&"n".repeat(255), 1, "h", 2); 300]).is_none());
    let mut b = client::attach_bytes(&hash, 5);
    assert_eq!(protocol::drain(&mut b), vec![Frame::Auth(hash), Frame::ChIdx(5)]);
}

#[test]
fn a_read_brings_at_most_one_frame() {
    let mut buf = BytesMut::new();
    assert_eq!(client::received(&mut buf, 0), Received::Closed);
    buf.extend_from_slice(&[protocol::OK, 0]);
    assert_eq!(client::received(&mut buf, 2), Received::Partial);
    buf.extend_from_slice(&[0, protocol::FAIL, 0, 0]);
    assert_eq!(client::received(&mut buf, 4), Received::Frame(Frame::Okay));
    assert_eq!(buf.len(), 3);
    assert_eq!(client::received(&mut buf, 0), Received::Closed);
    assert_eq!(buf.len(), 3);
}

#[test]
fn replies_to_auth() {
    assert_eq!(client::auth_reply(Received::Frame(Frame::Okay)), Reply::Got(()));
    assert_eq!(
        client::auth_reply(Received::Frame(Frame::Fail)),
        Reply::Failed("server rejected the shared secret".into())
    );
    assert_eq!(
        client::auth_reply(Received::Closed),
        Reply::Failed("control channel closed during auth".into())
    );
    assert_eq!(client::auth_reply(Received::Partial), Reply::Wait);
    assert_eq!(client::auth_reply(Received::Frame(Frame::Ping(1))), Reply::Wait);
}

#[test]
fn replies_to_proxies() {
    let entries = vec![ProxyAckEntry { name: "a".into(), status: 0 }];
    let ack = Frame::ProxyAck { entries: entries.clone(), data_port: 1405 };
    assert_eq!(
        client::proxies_reply(Received::Frame(ack)),
        Reply::Got((entries, 1405))
    );
    assert_eq!(
        client::proxies_reply(Received::Frame(Frame::Fail)),
        Reply::Failed("server rejected the proxy list".into())
    );
    assert_eq!(
        client::proxies_reply(Received::Closed),
        Reply::Failed("control channel closed before proxy ack".into())
    );
    assert_eq!(client::proxies_reply(Received::Partial), Reply::Wait);
    assert_eq!(client::proxies_reply(Received::Frame(Frame::Okay)), Reply::Wait);
}

#[test]
fn replies_to_attach() {
    assert_eq!(client::attach_reply(Received::Frame(Frame::Okay)), Reply::Got(()));
    assert_eq!(
        client::attach_reply(Received::Frame(Frame::Fail)),
        Reply::Failed("server rejected the data channel (busy or unknown index?)".into())
    );
    assert_eq!(
        client::attach_reply(Received::Closed),
        Reply::Failed("server closed the data connection before OK".into())
    );
    assert_eq!(client::attach_reply(Received::Partial), Reply::Wait);
    assert_eq!(client::attach_reply(Received::Frame(Frame::Close(1))), Reply::Wait);
}

#[test]
fn backoff_doubles_to_its_limit() {
    let mut b = Backoff::new();
    let mut delays = Vec::new();
    for _ in 0..9 {
        delays.push(b.after_attempt(false, 256 + 7));
    }
    assert_eq!(
        delays,
        vec![257, 507, 1007, 2007, 4007, 8007, 16007, 30007, 30007]
    );
    // a connection that ran is retried promptly, and the backoff starts over
    assert_eq!(b.after_attempt(true, 255), 505);
    assert_eq!(b.after_attempt(true, 0), 250);
    assert_eq!(b.after_attempt(false, 0), 250);
    assert_eq!(b.after_attempt(false, 0), 500);
}

#[test]
fn retries_are_jittered_within_bounds() {
    let mut b = Backoff::new();
    let mut seen = Vec::new();
    for _ in 0..64 {
        let d = b.retry(true);
        assert!((250..506).contains(&d));
        seen.push(d);
    }
    seen.dedup();
    assert!(seen.len() > 1, "the jitter varies");
    for _ in 0..7 {
        b.retry(false);
    }
    assert_eq!(b.ms, 30_000);
    let d = b.retry(false);
    assert!((30_000..30_256).contains(&d));
    let d = b.retry(true);
    assert!((250..506).contains(&d));
    assert_eq!(b.ms, 250);
}
