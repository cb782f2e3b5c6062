//! Server: a control listener + one shared data port. The server is a
//! **stateless generic forwarder** — it does not know the service list from
//! its own config. When a client authenticates and declares its proxies
//! (PROXIES), the server binds the requested public ports (subject to
//! `allow_ports` / `forbid_ports`) and forwards each accepted connection to
//! the client, which dials the local address. On disconnect the server tears
//! the public-port listeners back down. Only one client at a time.
//!
//! All N data channels share ONE port (the client learns it from PROXYACK);
//! each data connection names its channel with a CHIDX frame after AUTH. A
//! channel slot is `Some(receiver)` when free, `None` while attached — and
//! the receiver is held across re-attaches, so frames queued while a channel
//! is down survive the flap.
//!
//! Sockets and tasks are the caller's: what stands here says what a frame is
//! answered and what happens next.
use crate::config::{ControlAddr, PortPolicy, ServerConfig, MAX_DATA_CHANNELS};
use crate::config;
use crate::protocol::{Frame, FrameView, ProxyAckEntry, ProxyAckView, ProxyReg, ProxyRegView};
use crate::protocol;
use std::collections::HashSet;
use vstd::prelude::*;
use vstd::utf8::*;

verus! {

broadcast use vstd::std_specs::hash::group_hash_axioms;

/// Are the two hashes the same?
pub fn same_hash(a: &[u8; 32], b: &[u8; 32]) -> (r: bool)
    ensures
        r == (a@ == b@),
{
    let mut i: usize = 0;
    while i < 32
        invariant
            i <= 32,
            forall|k: int| 0 <= k < i ==> a@[k] == b@[k],
        decreases 32 - i,
    {
        if a[i] != b[i] {
            assert(a@[i as int] != b@[i as int]);
            return false;
        }
        i = i + 1;
    }
    assert(a@ =~= b@);
    true
}

/// What the server runs with: its control address, the shared data port, and
/// the hash that clients have to prove.
pub struct Startup {
    pub ctrl: ControlAddr,
    pub data_port: u16,
    pub expected: [u8; 32],
}

/// What the server runs with, given what `bind` was read as.
pub fn startup(cfg: &ServerConfig, bind: &Result<ControlAddr, String>) -> (r: Result<
    Startup,
    String,
>)
    ensures
        match config::server_addrs(*cfg, *bind) {
            Ok((ctrl, data_port)) => {
                &&& r matches Ok(s)
                &&& s.ctrl == ctrl
                &&& s.data_port == data_port
                &&& s.expected@ == protocol::sha256(encode_utf8(cfg.secret@))
            },
            Err(e) => r matches Err(t) && t@ == e,
        },
{
    match cfg.resolve(bind) {
        Ok((ctrl, data_port)) => {
            let expected = protocol::secret_hash(cfg.secret.as_str());
            Ok(Startup { ctrl, data_port, expected })
        },
        Err(e) => Err(e),
    }
}

/// What is wrong with a list of ports, if it is set.
pub open spec fn policy_complaint(policy: Option<PortPolicy>) -> Option<Seq<char>> {
    match policy {
        Some(p) => match config::policy_ports(p) {
            Ok(_) => None,
            Err(e) => Some(e),
        },
        None => None,
    }
}

/// What is wrong with the policy of a server: the first complaint, about
/// `allow_ports` and then about `forbid_ports`.
pub open spec fn policies_complaint(cfg: ServerConfig) -> Option<Seq<char>> {
    match policy_complaint(cfg.allow_ports) {
        Some(e) => Some(e),
        None => policy_complaint(cfg.forbid_ports),
    }
}

/// The server does not run with a policy that it cannot read.
pub fn policies(cfg: &ServerConfig) -> (r: Result<(), String>)
    ensures
        r is Ok <==> {
            &&& cfg.allow_ports matches Some(a) ==> config::policy_ports(a) is Ok
            &&& cfg.forbid_ports matches Some(f) ==> config::policy_ports(f) is Ok
        },
        match r {
            Ok(_) => policies_complaint(*cfg) is None,
            Err(e) => policies_complaint(*cfg) == Some(e@),
        },
{
    if let Some(a) = &cfg.allow_ports {
        if let Err(e) = a.resolve() {
            return Err(e);
        }
    }
    if let Some(f) = &cfg.forbid_ports {
        if let Err(e) = f.resolve() {
            return Err(e);
        }
    }
    Ok(())
}

// ---- control handshake ----

/// What the server waits for on a control connection.
#[derive(Debug, Clone, Copy, PartialEq, Eq, Structural)]
pub enum ControlState {
    /// AUTH
    Auth,
    /// DCOUNT: how many data channels the client will open
    DCount,
    /// PROXIES: the public->local mappings to expose, over `n` channels
    Proxies { n: u8 },
}

/// What the server does with a frame of the control handshake.
#[derive(Debug, PartialEq)]
pub enum ControlStep {
    /// send `reply`, if any, and wait for the next frame
    Continue { state: ControlState, reply: Option<Frame> },
    /// the session can start
    Serve { n: u8, regs: Vec<ProxyReg> },
    /// the secret is wrong: send `reply` and close
    AuthFailed { reply: Frame },
    /// the client wants `count` channels, which is out of range: close
    BadCount { count: u8 },
    /// the connection ended or broke the protocol: close
    Close,
}

/// What a step stands for.
#[verifier::ext_equal]
pub enum ControlStepView {
    Continue { state: ControlState, reply: Option<FrameView> },
    Serve { n: u8, regs: Seq<ProxyRegView> },
    AuthFailed { reply: FrameView },
    BadCount { count: u8 },
    Close,
}

/// What a frame, if there is one, stands for.
pub open spec fn opt_frame(f: Option<Frame>) -> Option<FrameView> {
    match f {
        Some(f) => Some(f@),
        None => None,
    }
}

impl View for ControlStep {
    type V = ControlStepView;

    open spec fn view(&self) -> ControlStepView {
        match *self {
            ControlStep::Continue { state, reply } => ControlStepView::Continue {
                state,
                reply: opt_frame(reply),
            },
            ControlStep::Serve { n, regs } => ControlStepView::Serve {
                n,
                regs: protocol::reg_views(regs@),
            },
            ControlStep::AuthFailed { reply } => ControlStepView::AuthFailed { reply: reply@ },
            ControlStep::BadCount { count } => ControlStepView::BadCount { count },
            ControlStep::Close => ControlStepView::Close,
        }
    }
}

/// The control handshake: AUTH with the right hash (answered OK; a wrong one is
/// answered FAIL), then a DCOUNT in range, then PROXIES. Anything else, and the
/// end of the connection (`None`), closes it.
pub open spec fn control_next(
    expected: Seq<u8>,
    state: ControlState,
    frame: Option<FrameView>,
) -> ControlStepView {
    match (state, frame) {
        (ControlState::Auth, Some(FrameView::Auth(h))) => if h == expected {
            ControlStepView::Continue { state: ControlState::DCount, reply: Some(FrameView::Okay) }
        } else {
            ControlStepView::AuthFailed { reply: FrameView::Fail }
        },
        (ControlState::DCount, Some(FrameView::DCount(n))) => if 1 <= n <= MAX_DATA_CHANNELS {
            ControlStepView::Continue { state: ControlState::Proxies { n }, reply: None }
        } else {
            ControlStepView::BadCount { count: n }
        },
        (ControlState::Proxies { n }, Some(FrameView::Proxies(regs))) => ControlStepView::Serve {
            n,
            regs,
        },
        _ => ControlStepView::Close,
    }
}

/// One step of the control handshake; `frame` is `None` where the connection
/// ended.
pub fn control_step(expected: &[u8; 32], state: ControlState, frame: Option<Frame>) -> (r:
    ControlStep)
    ensures
        r@ == control_next(expected@, state, opt_frame(frame)),
{
    match (state, frame) {
        (ControlState::Auth, Some(Frame::Auth(h))) => {
            if same_hash(&h, expected) {
                ControlStep::Continue { state: ControlState::DCount, reply: Some(Frame::Okay) }
            } else {
                ControlStep::AuthFailed { reply: Frame::Fail }
            }
        },
        (ControlState::DCount, Some(Frame::DCount(n))) => {
            if 1 <= n && n <= MAX_DATA_CHANNELS {
                ControlStep::Continue { state: ControlState::Proxies { n }, reply: None }
            } else {
                ControlStep::BadCount { count: n }
            }
        },
        (ControlState::Proxies { n }, Some(Frame::Proxies(regs))) => ControlStep::Serve { n, regs },
        _ => ControlStep::Close,
    }
}

// ---- public ports ----

/// What is to be done about one registration.
#[derive(Debug, Clone, Copy, PartialEq, Eq, Structural)]
pub enum Plan {
    /// an earlier registration named the same public port
    Duplicate,
    /// the policy forbids the public port
    Denied,
    /// bind the public port
    Bind,
}

/// Does a registration before the `i`-th name its public port?
pub open spec fn named_before(regs: Seq<ProxyRegView>, i: int) -> bool {
    exists|j: int| 0 <= j < i && (#[trigger] regs[j]).remote == regs[i].remote
}

/// What is to be done about the `i`-th registration.
pub open spec fn plan_of(cfg: ServerConfig, regs: Seq<ProxyRegView>, i: int) -> Plan {
    if named_before(regs, i) {
        Plan::Duplicate
    } else if !config::permits(cfg, regs[i].remote) {
        Plan::Denied
    } else {
        Plan::Bind
    }
}

/// What is to be done about each registration, in order.
pub fn plan_proxies(cfg: &ServerConfig, regs: &Vec<ProxyReg>) -> (r: Vec<Plan>)
    ensures
        r@ == Seq::new(
            regs@.len(),
            |i: int| plan_of(*cfg, protocol::reg_views(regs@), i),
        ),
{
    let ghost views = protocol::reg_views(regs@);
    let mut out: Vec<Plan> = Vec::new();
    let mut seen: HashSet<u16> = HashSet::new();
    let mut i: usize = 0;
    while i < regs.len()
        invariant
            i <= regs@.len(),
            views == protocol::reg_views(regs@),
            out@.len() == i,
            forall|k: int| 0 <= k < i ==> #[trigger] out@[k] == plan_of(*cfg, views, k),
            forall|p: u16| #[trigger]
                seen@.contains(p) <==> exists|j: int| 0 <= j < i && (#[trigger] views[j]).remote == p,
        decreases regs@.len() - i,
    {
        let remote: u16 = regs[i].remote;
        let ghost known = seen@;
        assert(views[i as int].remote == remote);
        assert(known.contains(remote) == named_before(views, i as int));
        let fresh = seen.insert(remote);
        let plan = if !fresh {
            Plan::Duplicate
        } else if !cfg.port_allowed(remote) {
            Plan::Denied
        } else {
            Plan::Bind
        };
        out.push(plan);
        proof {
            assert forall|p: u16| #[trigger] seen@.contains(p) <==> exists|j: int|
                0 <= j < i + 1 && (#[trigger] views[j]).remote == p by {
                if seen@.contains(p) {
                    if p == remote {
                        assert(views[i as int].remote == p);
                    } else {
                        assert(known.contains(p));
                        let j = choose|j: int| 0 <= j < i && (#[trigger] views[j]).remote == p;
                        assert(views[j].remote == p);
                    }
                }
                if exists|j: int| 0 <= j < i + 1 && (#[trigger] views[j]).remote == p {
                    let j = choose|j: int| 0 <= j < i + 1 && (#[trigger] views[j]).remote == p;
                    if j < i {
                        assert(known.contains(p));
                    }
                }
            }
        }
        i = i + 1;
    }
    assert(out@ =~= Seq::new(regs@.len(), |i: int| plan_of(*cfg, views, i)));
    out
}

/// The status of a registration: 0 = bound, 1 = denied by the policy, 2 = not
/// bound (duplicate public port or bind failure).
pub open spec fn status_of(plan: Plan, bound: bool) -> u8 {
    match plan {
        Plan::Duplicate => 2,
        Plan::Denied => 1,
        Plan::Bind => if bound {
            0
        } else {
            2
        },
    }
}

/// The registration results, in the order of the registrations, given which of
/// the planned binds succeeded.
pub open spec fn ack_of(regs: Seq<ProxyRegView>, plans: Seq<Plan>, bound: Seq<bool>) -> Seq<
    ProxyAckView,
> {
    Seq::new(
        regs.len(),
        |i: int| ProxyAckView { name: regs[i].name, status: status_of(plans[i], bound[i]) },
    )
}

/// The registration results, in the order of the registrations. `bound` says
/// of each whether its public port was bound.
pub fn ack_entries(regs: &Vec<ProxyReg>, plans: &Vec<Plan>, bound: &Vec<bool>) -> (r: Vec<
    ProxyAckEntry,
>)
    requires
        plans@.len() == regs@.len(),
        bound@.len() == regs@.len(),
    ensures
        protocol::ack_views(r@) == ack_of(protocol::reg_views(regs@), plans@, bound@),
{
    let mut out: Vec<ProxyAckEntry> = Vec::new();
    let ghost all = ack_of(protocol::reg_views(regs@), plans@, bound@);
    let mut i: usize = 0;
    while i < regs.len()
        invariant
            i <= regs@.len(),
            plans@.len() == regs@.len(),
            bound@.len() == regs@.len(),
            all == ack_of(protocol::reg_views(regs@), plans@, bound@),
            protocol::ack_views(out@) =~= all.take(i as int),
        decreases regs@.len() - i,
    {
        let status: u8 = match plans[i] {
            Plan::Duplicate => 2,
            Plan::Denied => 1,
            Plan::Bind => if bound[i] {
                0
            } else {
                2
            },
        };
        let e = ProxyAckEntry { name: regs[i].name.clone(), status };
        let ghost prev = out@;
        assert(e@ == all[i as int]);
        out.push(e);
        assert(protocol::ack_views(out@) =~= protocol::ack_views(prev).push(e@));
        i = i + 1;
    }
    assert(protocol::ack_views(out@) =~= all);
    out
}

/// The frame that reports the registration results and the data port, and says
/// that the data channels can be opened.
pub fn ack_frame(
    regs: &Vec<ProxyReg>,
    plans: &Vec<Plan>,
    bound: &Vec<bool>,
    data_port: u16,
) -> (r: Frame)
    requires
        plans@.len() == regs@.len(),
        bound@.len() == regs@.len(),
    ensures
        r@ == (FrameView::ProxyAck {
            entries: ack_of(protocol::reg_views(regs@), plans@, bound@),
            data_port,
        }),
{
    let entries = ack_entries(regs, plans, bound);
    Frame::ProxyAck { entries, data_port }
}

/// How many of the registrations were bound.
pub open spec fn bound_in(entries: Seq<ProxyAckView>) -> nat
    decreases entries.len(),
{
    if entries.len() == 0 {
        0
    } else if entries.last().status == 0 {
        bound_in(entries.drop_last()) + 1
    } else {
        bound_in(entries.drop_last())
    }
}

/// How many of the registrations were bound.
pub fn bound_count(entries: &Vec<ProxyAckEntry>) -> (r: usize)
    ensures
        r == bound_in(protocol::ack_views(entries@)),
        r <= entries@.len(),
{
    let ghost all = protocol::ack_views(entries@);
    let mut count: usize = 0;
    let mut i: usize = 0;
    while i < entries.len()
        invariant
            i <= entries@.len(),
            count <= i,
            all == protocol::ack_views(entries@),
            count == bound_in(all.take(i as int)),
        decreases entries@.len() - i,
    {
        assert(all.take(i + 1).drop_last() =~= all.take(i as int));
        if entries[i].status == 0 {
            count = count + 1;
        }
        i = i + 1;
    }
    assert(all.take(i as int) =~= all);
    count
}

// ---- data connections ----

/// What the server waits for on a data connection.
#[derive(Debug, Clone, Copy, PartialEq, Eq, Structural)]
pub enum DataState {
    /// AUTH
    Auth,
    /// CHIDX: which channel this is
    ChIdx,
}

/// What the server does with a frame of a data connection's handshake.
#[derive(Debug, Clone, Copy, PartialEq, Eq, Structural)]
pub enum DataHello {
    /// wait for the next frame
    Continue { state: DataState },
    /// take the slot of channel `i`
    Attach { i: u8 },
    /// the secret is wrong: close
    AuthFailed,
    /// no CHIDX after AUTH: close
    NoIndex,
    /// the connection ended or broke the protocol: close
    Close,
}

/// The handshake of a data connection: AUTH with the right hash, then CHIDX.
/// Neither is answered here.
pub open spec fn data_next(expected: Seq<u8>, state: DataState, frame: Option<FrameView>) ->
    DataHello {
    match (state, frame) {
        (DataState::Auth, Some(FrameView::Auth(h))) => if h == expected {
            DataHello::Continue { state: DataState::ChIdx }
        } else {
            DataHello::AuthFailed
        },
        (DataState::Auth, _) => DataHello::Close,
        (DataState::ChIdx, Some(FrameView::ChIdx(i))) => DataHello::Attach { i },
        (DataState::ChIdx, _) => DataHello::NoIndex,
    }
}

/// One step of a data connection's handshake; `frame` is `None` where the
/// connection ended.
pub fn data_step(expected: &[u8; 32], state: DataState, frame: Option<Frame>) -> (r: DataHello)
    ensures
        r == data_next(expected@, state, opt_frame(frame)),
{
    match (state, frame) {
        (DataState::Auth, Some(Frame::Auth(h))) => {
            if same_hash(&h, expected) {
                DataHello::Continue { state: DataState::ChIdx }
            } else {
                DataHello::AuthFailed
            }
        },
        (DataState::Auth, _) => DataHello::Close,
        (DataState::ChIdx, Some(Frame::ChIdx(i))) => DataHello::Attach { i },
        (DataState::ChIdx, _) => DataHello::NoIndex,
    }
}

/// One slot per data channel: `Some(rx)` = free, `None` = attached. The
/// receiver `R` is held across re-attaches so a channel's queued frames
/// survive a flap (a stalled pipe backpressures; it does not die).
pub struct SlotTable<R> {
    pub slots: Vec<Option<R>>,
}

/// What became of an attach.
#[derive(Debug, PartialEq)]
pub enum Attach<R> {
    /// the session has no such channel
    OutOfRange,
    /// the channel is attached already
    Busy,
    /// the slot is taken
    Taken(R),
}

impl<R> View for SlotTable<R> {
    type V = Seq<Option<R>>;

    open spec fn view(&self) -> Seq<Option<R>> {
        self.slots@
    }
}

/// An attach to channel `i`: what becomes of it, and the slots after it.
pub open spec fn attached<R>(slots: Seq<Option<R>>, i: u8) -> (Attach<R>, Seq<Option<R>>) {
    if i >= slots.len() {
        (Attach::OutOfRange, slots)
    } else {
        match slots[i as int] {
            Some(rx) => (Attach::Taken(rx), slots.update(i as int, None)),
            None => (Attach::Busy, slots),
        }
    }
}

/// The slots once channel `i` is given back.
pub open spec fn released<R>(slots: Seq<Option<R>>, i: u8, rx: R) -> Seq<Option<R>> {
    slots.update(i as int, Some(rx))
}

impl<R> SlotTable<R> {
    /// All of `receivers`, free.
    pub fn new(receivers: Vec<R>) -> (r: Self)
        ensures
            r@ == receivers@.map_values(|x: R| Some(x)),
    {
        let ghost all = receivers@;
        let mut slots: Vec<Option<R>> = Vec::new();
        for x in it: receivers
            invariant
                it.seq() == all,
                slots@ == all.take(it.index() as int).map_values(|x: R| Some(x)),
        {
            slots.push(Some(x));
            assert(slots@ =~= all.take(it.index() + 1).map_values(|x: R| Some(x)));
        }
        assert(slots@ =~= all.map_values(|x: R| Some(x)));
        SlotTable { slots }
    }

    /// Takes the slot of channel `i`, if it is free.
    pub fn attach(&mut self, i: u8) -> (r: Attach<R>)
        ensures
            (r, final(self)@) == attached(old(self)@, i),
    {
        let k: usize = i as usize;
        if k >= self.slots.len() {
            return Attach::OutOfRange;
        }
        match self.slots[k].take() {
            Some(rx) => Attach::Taken(rx),
            None => {
                assert(self.slots@ =~= old(self).slots@);
                Attach::Busy
            },
        }
    }

    /// Gives the slot of channel `i` back, with its receiver.
    pub fn release(&mut self, i: u8, rx: R)
        requires
            i < old(self)@.len(),
        ensures
            final(self)@ == released(old(self)@, i, rx),
    {
        self.slots.set(i as usize, Some(rx));
    }
}

/// The frame that answers an attach.
pub open spec fn attach_frame<R>(a: Attach<R>) -> FrameView {
    if a is Taken {
        FrameView::Okay
    } else {
        FrameView::Fail
    }
}

impl<R> Attach<R> {
    /// What the client is answered: OK where the slot is taken, FAIL where it
    /// is busy or there is none.
    pub fn reply(&self) -> (r: Frame)
        ensures
            r@ == attach_frame(*self),
    {
        match self {
            Attach::Taken(_) => Frame::Okay,
            _ => Frame::Fail,
        }
    }
}

/// The session of the one client that is served at a time.
pub struct SessionSlot<T> {
    pub current: Option<T>,
}

impl<T> SessionSlot<T> {
    /// No session.
    pub fn new() -> (r: Self)
        ensures
            r.current is None,
    {
        SessionSlot { current: None }
    }

    /// Puts `session` in the place of any prior one, which is given back for
    /// its public ports to be freed.
    pub fn install(&mut self, session: T) -> (r: Option<T>)
        ensures
            r == old(self).current,
            final(self).current == Some(session),
    {
        let prev = self.current.take();
        self.current = Some(session);
        prev
    }

    /// A control channel closed: there is no session.
    pub fn teardown(&mut self)
        ensures
            final(self).current is None,
    {
        self.current = None;
    }
}

// ---- heartbeat ----

/// PINGs, numbered from 1.
pub struct Heartbeat {
    pub nonce: u32,
}

/// Milliseconds between two PINGs.
pub const HEARTBEAT: u64 = 15_000;

impl Heartbeat {
    /// No PING was sent yet.
    pub fn new() -> (r: Self)
        ensures
            r.nonce == 0,
    {
        Heartbeat { nonce: 0 }
    }

    /// The next PING.
    pub fn beat(&mut self) -> (r: Frame)
        requires
            old(self).nonce < u32::MAX,
        ensures
            final(self).nonce == old(self).nonce + 1,
            r@ == FrameView::Ping(final(self).nonce),
    {
        self.nonce = self.nonce + 1;
        Frame::Ping(self.nonce)
    }
}

} // verus!
