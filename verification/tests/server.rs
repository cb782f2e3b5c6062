//! Unit tests for the server's decisions.

use wormhole::config::{PortPolicy, ServerConfig};
use wormhole::protocol::{Frame, ProxyAckEntry, ProxyReg};
use wormhole::server::{
    self, Attach, ControlState, ControlStep, DataHello, DataState, Heartbeat, Plan, SessionSlot,
    SlotTable,
};

fn reg(name: &str, remote: u16) -> ProxyReg {
    ProxyReg {
        name: name.into(),
        remote,
        local_host: "127.0.0.1".into(),
        local_port: remote,
    }
}

fn cfg() -> ServerConfig {
    ServerConfig {
        bind: "0.0.0.0:1400".into(),
        secret: "s".into(),
        data_port: None,
        allow_ports: None,
        forbid_ports: Some(PortPolicy::Num(22)),
    }
}

#[test]
fn control_handshake_in_order() {
    let secret = [7u8; 32];
    let r = server::control_step(&secret, ControlState::Auth, Some(Frame::Auth([7; 32])));
    assert_eq!(
        r,
        ControlStep::Continue { state: ControlState::DCount, reply: Some(Frame::Okay) }
    );
    let r = server::control_step(&secret, ControlState::DCount, Some(Frame::DCount(64)));
    assert_eq!(
        r,
        ControlStep::Continue { state: ControlState::Proxies { n: 64 }, reply: None }
    );
    let state = ControlState::Proxies { n: 64 };
    let r = server::control_step(&secret, state, Some(Frame::Proxies(vec![reg("a", 1)])));
    assert_eq!(r, ControlStep::Serve { n: 64, regs: vec![reg("a", 1)] });
}

#[test]
fn control_handshake_refusals() {
    let secret = [7u8; 32];
    let mut wrong = [7u8; 32];
    wrong[31] = 8;
    let step = |s, f| server::control_step(&secret, s, f);
    assert_eq!(
        step(ControlState::Auth, Some(Frame::Auth(wrong))),
        ControlStep::AuthFailed { reply: Frame::Fail }
    );
    assert_eq!(step(ControlState::Auth, Some(Frame::Okay)), ControlStep::Close);
    assert_eq!(step(ControlState::Auth, None), ControlStep::Close);
    assert_eq!(
        step(ControlState::DCount, Some(Frame::DCount(0))),
        ControlStep::BadCount { count: 0 }
    );
    assert_eq!(
        step(ControlState::DCount, Some(Frame::DCount(65))),
        ControlStep::BadCount { count: 65 }
    );
    assert_eq!(step(ControlState::DCount, Some(Frame::Auth(secret))), ControlStep::Close);
    assert_eq!(step(ControlState::Proxies { n: 1 }, Some(Frame::Fail)), ControlStep::Close);
    assert_eq!(step(ControlState::Proxies { n: 1 }, None), ControlStep::Close);
}

#[test]
fn proxies_are_planned_and_acknowledged() {
    let regs = vec![reg("a", 80), reg("ssh", 22), reg("b", 80), reg("c", 81), reg("ssh2", 22)];
    let plans = server::plan_proxies(&cfg(), &regs);
    assert_eq!(
        plans,
        vec![Plan::Bind, Plan::Denied, Plan::Duplicate, Plan::Bind, Plan::Duplicate]
    );
    let ack = server::ack_entries(&regs, &plans, &vec![true, false, true, false, false]);
    let entry = |name: &str, status: u8| ProxyAckEntry { name: name.into(), status };
    assert_eq!(
        ack,
        vec![entry("a", 0), entry("ssh", 1), entry("b", 2), entry("c", 2), entry("ssh2", 2)]
    );
    assert_eq!(server::bound_count(&ack), 1);
    let bound = vec![true, false, true, false, false];
    assert_eq!(
        server::ack_frame(&regs, &plans, &bound, 1405),
        Frame::ProxyAck { entries: ack, data_port: 1405 }
    );
    assert_eq!(server::bound_count(&vec![]), 0);
}

#[test]
fn data_handshake() {
    let secret = [1u8; 32];
    let step = |s, f| server::data_step(&secret, s, f);
    assert_eq!(
        step(DataState::Auth, Some(Frame::Auth(secret))),
        DataHello::Continue { state: DataState::ChIdx }
    );
    assert_eq!(step(DataState::Auth, Some(Frame::Auth([0; 32]))), DataHello::AuthFailed);
    assert_eq!(step(DataState::Auth, Some(Frame::ChIdx(1))), DataHello::Close);
    assert_eq!(step(DataState::Auth, None), DataHello::Close);
    assert_eq!(step(DataState::ChIdx, Some(Frame::ChIdx(3))), DataHello::Attach { i: 3 });
    assert_eq!(step(DataState::ChIdx, Some(Frame::Okay)), DataHello::NoIndex);
    assert_eq!(step(DataState::ChIdx, None), DataHello::NoIndex);
}

#[test]
fn slots_are_taken_and_given_back() {
    let mut slots = SlotTable::new(vec!["rx0", "rx1"]);
    let a = slots.attach(1);
    assert_eq!(a.reply(), Frame::Okay);
    assert_eq!(a, Attach::Taken("rx1"));
    let b = slots.attach(1);
    assert_eq!(b, Attach::Busy);
    assert_eq!(b.reply(), Frame::Fail);
    let c = slots.attach(2);
    assert_eq!(c, Attach::OutOfRange);
    assert_eq!(c.reply(), Frame::Fail);
    slots.release(1, "rx1");
    assert_eq!(slots.attach(1), Attach::Taken("rx1"));
    assert_eq!(slots.attach(0), Attach::Taken("rx0"));
}

#[test]
fn one_session_at_a_time() {
    let mut slot = SessionSlot::new();
    assert_eq!(slot.install("first"), None);
    assert_eq!(slot.install("second"), Some("first"));
    assert_eq!(slot.current, Some("second"));
    slot.teardown();
    assert_eq!(slot.current, None);
}

#[test]
fn heartbeats_are_numbered() {
    let mut hb = Heartbeat::new();
    assert_eq!(hb.beat(), Frame::Ping(1));
    assert_eq!(hb.beat(), Frame::Ping(2));
    assert_eq!(server::HEARTBEAT, 15_000);
}

#[test]
fn hashes_are_compared_in_full() {
    let mut b = [5u8; 32];
    assert!(server::same_hash(&[5; 32], &b));
    b[0] = 6;
    assert!(!server::same_hash(&[5; 32], &b));
}

#[test]
fn an_unreadable_policy_is_not_served() {
    let mut s = cfg();
    assert_eq!(server::policies(&s), Ok(()));
    s.forbid_ports = Some(PortPolicy::Vec(vec![]));
    assert_eq!(server::policies(&s), Err("empty port list".to_string()));
    s.allow_ports = Some(PortPolicy::Str("2-1".into()));
    assert_eq!(server::policies(&s), Err("range 2-1 is inverted".to_string()));
    s.forbid_ports = None;
    assert_eq!(server::policies(&s), Err("range 2-1 is inverted".to_string()));
    s.allow_ports = Some(PortPolicy::Str("1-2".into()));
    assert_eq!(server::policies(&s), Ok(()));
}
