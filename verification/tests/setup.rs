//! Tests of a server and a client together.

use bytes::{Bytes, BytesMut};
use wormhole::client::{self, Received, Reply};
use wormhole::config::{
    self, ClientConfig, ControlAddr, PortItem, PortPolicy, ProxySpec, ServerConfig,
};
use wormhole::protocol::{self, Frame};
use wormhole::server::{
    self, Attach, ControlState, ControlStep, DataHello, DataState, Plan, SlotTable,
};
use wormhole::tunnel::{self, ConnTable, DataStep, Outbound};

fn bind() -> Result<ControlAddr, String> {
    Ok(ControlAddr { text: "0.0.0.0:1400".into(), port: 1400 })
}

fn server_cfg() -> ServerConfig {
    ServerConfig {
        bind: "0.0.0.0:1400".into(),
        secret: "hunter2".into(),
        data_port: None,
        allow_ports: Some(PortPolicy::Str("2000-2999".into())),
        forbid_ports: Some(PortPolicy::Num(2022)),
    }
}

fn client_cfg(secret: &str) -> ClientConfig {
    ClientConfig { server: "localhost:1400".into(), secret: secret.into(), channels: Some(4) }
}

fn service(name: &str, remote: PortPolicy) -> (String, ProxySpec) {
    (name.to_string(), ProxySpec { remote, local: None })
}

/// Runs the control handshake on what the client sends.
fn control(expected: &[u8; 32], bytes: &[u8]) -> ControlStep {
    let mut buf = BytesMut::from(bytes);
    let mut state = ControlState::Auth;
    loop {
        match server::control_step(expected, state, protocol::parse(&mut buf)) {
            ControlStep::Continue { state: next, .. } => state = next,
            step => return step,
        }
    }
}

#[test]
fn startup_of_the_server() {
    let s = server::startup(&server_cfg(), &bind()).ok().unwrap();
    assert_eq!((s.ctrl.port, s.data_port), (1400, 1401));
    assert_eq!(s.expected, protocol::secret_hash("hunter2"));
    let mut bad = server_cfg();
    bad.data_port = Some(0);
    assert_eq!(
        server::startup(&bad, &bind()).err(),
        Some("server.data_port must be >= 1".to_string())
    );
}

#[test]
fn a_hello_with_the_secret_is_served() {
    let services = vec![service("b", PortPolicy::Num(2001)), service("a", PortPolicy::Num(2000))];
    let proxies = client::build_proxies(&services);
    let (_, _, n) = client_cfg("hunter2").resolve().unwrap();
    let mut hello = client::auth_bytes(&protocol::secret_hash("hunter2"));
    hello.extend_from_slice(&client::declare_bytes(n, &proxies).unwrap());
    let expected = protocol::secret_hash("hunter2");
    assert_eq!(
        control(&expected, &hello),
        ControlStep::Serve { n: 4, regs: proxies }
    );
    // cut short, it is not
    assert_eq!(control(&expected, &hello[..hello.len() - 1]), ControlStep::Close);
}

#[test]
fn a_hello_with_another_secret_is_refused() {
    let hello = client::auth_bytes(&protocol::secret_hash("hunter3"));
    let step = control(&protocol::secret_hash("hunter2"), &hello);
    let reply = match step {
        ControlStep::AuthFailed { reply } => reply,
        other => panic!("got {other:?}"),
    };
    let mut buf = BytesMut::new();
    protocol::encode(&mut buf, &reply);
    let n = buf.len();
    assert_eq!(
        client::auth_reply(client::received(&mut buf, n)),
        Reply::Failed("server rejected the shared secret".into())
    );
}

/// What `check` calls consistent is bound in full; what it does not, is not.
#[test]
fn a_consistent_setup_is_served_in_full() {
    let plans = |services: &Vec<(String, ProxySpec)>| {
        server::plan_proxies(&server_cfg(), &client::build_proxies(services))
    };
    let problems = |services: &Vec<(String, ProxySpec)>| {
        config::validate_pair(&server_cfg(), &client_cfg("hunter2"), services, &bind())
    };
    let good = vec![
        service("web", PortPolicy::Str("2080-2082".into())),
        service("db", PortPolicy::Vec(vec![PortItem::Num(2500), PortItem::Num(2600)])),
    ];
    assert!(problems(&good).is_empty());
    assert_eq!(plans(&good), vec![Plan::Bind; 5]);
    let bad = vec![
        service("ssh", PortPolicy::Num(2022)),
        service("web", PortPolicy::Num(2080)),
        service("twice", PortPolicy::Num(2080)),
    ];
    assert_eq!(problems(&bad).len(), 2);
    assert_eq!(plans(&bad), vec![Plan::Denied, Plan::Bind, Plan::Duplicate]);
}

/// A channel is attached, dies half way, and is attached again: the queued
/// frames arrive all, in order.
#[test]
fn a_flap_loses_nothing() {
    let hash = protocol::secret_hash("s");
    let mut out = Outbound::new(6);
    let mut frames = vec![Frame::New { id: 6, local_host: "h".into(), local_port: 1 }];
    for part in [&b"one "[..], b"two ", b"three"] {
        frames.extend(out.on_read(Some(Bytes::from_static(part))));
    }
    frames.extend(out.on_read(None));
    let mut queue = frames.into_iter();
    let mut slots = SlotTable::new(vec!["queue"]);
    let mut table: ConnTable<()> = ConnTable::new();
    let mut got: Vec<u8> = Vec::new();
    for written in [2usize, 0, 3] {
        // AUTH + CHIDX
        let mut hello = client::attach_bytes(&hash, 0);
        let mut state = DataState::Auth;
        let i = loop {
            match server::data_step(&hash, state, protocol::parse(&mut hello)) {
                DataHello::Continue { state: next } => state = next,
                DataHello::Attach { i } => break i,
                other => panic!("got {other:?}"),
            }
        };
        let attach = slots.attach(i);
        let mut wire = BytesMut::new();
        protocol::encode(&mut wire, &attach.reply());
        // the frames of this attach come in right behind the OK
        for f in queue.by_ref().take(written) {
            tunnel::batch_frame(&mut wire, &f);
        }
        let n = wire.len();
        assert_eq!(client::attach_reply(client::received(&mut wire, n)), Reply::Got(()));
        for frame in protocol::drain(&mut wire) {
            match tunnel::on_data_frame(&mut table, frame, true, || ((), ())) {
                DataStep::Deliver { data, .. } => got.extend_from_slice(&data),
                DataStep::Unregistered { .. } => panic!("lost"),
                _ => {}
            }
        }
        assert_eq!(slots.attach(0), Attach::Busy);
        match attach {
            Attach::Taken(rx) => slots.release(i, rx),
            other => panic!("got {other:?}"),
        }
    }
    assert_eq!(got, b"one two three");
    assert_eq!(table.len(), 0);
}

#[test]
fn the_ack_reaches_the_client() {
    let regs = client::build_proxies(&vec![service("a", PortPolicy::Num(2000))]);
    let plans = server::plan_proxies(&server_cfg(), &regs);
    let entries = server::ack_entries(&regs, &plans, &vec![true]);
    let mut buf = BytesMut::new();
    protocol::encode(&mut buf, &Frame::ProxyAck { entries: entries.clone(), data_port: 1401 });
    let n = buf.len();
    let got = client::received(&mut buf, n);
    assert!(matches!(got, Received::Frame(_)));
    assert_eq!(client::proxies_reply(got), Reply::Got((entries, 1401)));
}
