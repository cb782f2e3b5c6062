//! Client: connects to the server's control port, declares the proxies it
//! wants exposed (PROXIES), learns the data port from PROXYACK, then opens N
//! data channels on that one shared port (each AUTH + CHIDX) and runs the
//! tunnel. On each NEW it dials the local address the server named and pipes
//! it through the tunnel.
//!
//! A dropped data channel is re-opened automatically (backoff + jitter). The
//! per-channel frame queue is held open across the flap, so bytes queued while
//! the channel is down are delivered when it comes back.
//!
//! Sockets and tasks are the caller's: what stands here says what is sent, what
//! a reply means and how long to wait.
use crate::buffer;
use crate::config::{MappingView, ProxySpec};
use crate::config;
use crate::protocol::{Frame, FrameView, ProxyAckEntry, ProxyAckView, ProxyReg, ProxyRegView};
use crate::protocol;
use bytes::BytesMut;
use vstd::prelude::*;
use vstd::utf8::*;

verus! {

/// First reconnect/reattach backoff, in milliseconds.
pub const MIN_BACKOFF: u64 = 250;

/// Max reconnect/reattach backoff, in milliseconds (the client retries forever
/// by default; this bounds the exponential growth).
pub const MAX_BACKOFF: u64 = 30_000;

// ---- the proxy list ----

/// Does `a` come before `b`, byte by byte?
pub open spec fn bytes_less(a: Seq<u8>, b: Seq<u8>) -> bool
    decreases a.len(),
{
    if b.len() == 0 {
        false
    } else if a.len() == 0 {
        true
    } else if a[0] != b[0] {
        a[0] < b[0]
    } else {
        bytes_less(a.skip(1), b.skip(1))
    }
}

/// Does the name `a` come before `b`? Names are ordered by their UTF-8 bytes.
pub open spec fn name_less(a: Seq<char>, b: Seq<char>) -> bool {
    bytes_less(encode_utf8(a), encode_utf8(b))
}

fn name_before(a: &str, b: &str) -> (r: bool)
    ensures
        r == name_less(a@, b@),
{
    let x = a.as_bytes();
    let y = b.as_bytes();
    let mut i: usize = 0;
    assert(x@.skip(0) =~= x@);
    assert(y@.skip(0) =~= y@);
    while i < x.len() && i < y.len() && x[i] == y[i]
        invariant
            i <= x@.len(),
            i <= y@.len(),
            bytes_less(x@, y@) == bytes_less(x@.skip(i as int), y@.skip(i as int)),
        decreases x@.len() - i,
    {
        assert(x@.skip(i as int).skip(1) =~= x@.skip(i + 1));
        assert(y@.skip(i as int).skip(1) =~= y@.skip(i + 1));
        i = i + 1;
    }
    if i >= y.len() {
        false
    } else if i >= x.len() {
        true
    } else {
        x[i] < y[i]
    }
}

/// The first position from `from` on whose name comes after `name`.
pub open spec fn spot(sorted: Seq<(String, ProxySpec)>, name: Seq<char>, from: int) -> int
    decreases sorted.len() - from,
{
    if from >= sorted.len() {
        sorted.len() as int
    } else if name_less(name, sorted[from].0@) {
        from
    } else {
        spot(sorted, name, from + 1)
    }
}

/// `services`, ordered by name.
pub open spec fn by_name(services: Seq<(String, ProxySpec)>) -> Seq<(String, ProxySpec)>
    decreases services.len(),
{
    if services.len() == 0 {
        Seq::empty()
    } else {
        let sorted = by_name(services.drop_last());
        sorted.insert(spot(sorted, services.last().0@, 0), services.last())
    }
}

/// The services at these positions.
spec fn picked(services: Seq<(String, ProxySpec)>, order: Seq<usize>) -> Seq<(String, ProxySpec)> {
    order.map_values(|i: usize| services[i as int])
}

/// The positions of the services, ordered by name.
fn order_by_name(services: &Vec<(String, ProxySpec)>) -> (r: Vec<usize>)
    ensures
        r@.len() == services@.len(),
        forall|k: int| 0 <= k < r@.len() ==> (#[trigger] r@[k]) < services@.len(),
        picked(services@, r@) == by_name(services@),
{
    let mut order: Vec<usize> = Vec::new();
    let mut i: usize = 0;
    assert(picked(services@, order@) =~= by_name(services@.take(0)));
    while i < services.len()
        invariant
            i <= services@.len(),
            order@.len() == i,
            forall|k: int| 0 <= k < i ==> (#[trigger] order@[k]) < i,
            picked(services@, order@) == by_name(services@.take(i as int)),
        decreases services@.len() - i,
    {
        let name = services[i].0.as_str();
        let ghost sorted = picked(services@, order@);
        let mut p: usize = 0;
        while p < order.len() && !name_before(name, services[order[p]].0.as_str())
            invariant
                p <= order@.len(),
                order@.len() == i,
                i < services@.len(),
                forall|k: int| 0 <= k < i ==> (#[trigger] order@[k]) < i,
                sorted == picked(services@, order@),
                name@ == services@[i as int].0@,
                spot(sorted, name@, 0) == spot(sorted, name@, p as int),
            decreases order@.len() - p,
        {
            p = p + 1;
        }
        assert(services@.take(i + 1).drop_last() =~= services@.take(i as int));
        order.insert(p, i);
        assert(picked(services@, order@) =~= sorted.insert(p as int, services@[i as int]));
        i = i + 1;
    }
    assert(services@.take(i as int) =~= services@);
    order
}

/// The registration of one mapping of the service `name`.
pub open spec fn reg_of(name: Seq<char>, m: MappingView) -> ProxyRegView {
    ProxyRegView { name, remote: m.remote, local_host: m.local_host, local_port: m.local_port }
}

/// The registrations of one service; none where it cannot be expanded.
pub open spec fn service_regs(name: Seq<char>, sp: ProxySpec) -> Seq<ProxyRegView> {
    match config::expansion(sp) {
        Ok(ms) => ms.map_values(|m: MappingView| reg_of(name, m)),
        Err(_) => Seq::empty(),
    }
}

/// The registrations of all services, in this order.
pub open spec fn services_regs(services: Seq<(String, ProxySpec)>) -> Seq<ProxyRegView>
    decreases services.len(),
{
    if services.len() == 0 {
        Seq::empty()
    } else {
        services_regs(services.drop_last()) + service_regs(
            services.last().0@,
            services.last().1,
        )
    }
}

fn push_service_regs(out: &mut Vec<ProxyReg>, name: &String, sp: &ProxySpec)
    ensures
        protocol::reg_views(final(out)@) == protocol::reg_views(old(out)@) + service_regs(
            name@,
            *sp,
        ),
{
    let ghost before = protocol::reg_views(out@);
    match sp.expand() {
        Err(_) => {
            assert(before =~= before + service_regs(name@, *sp));
        },
        Ok(ms) => {
            let ghost all = service_regs(name@, *sp);
            let mut i: usize = 0;
            while i < ms.len()
                invariant
                    i <= ms@.len(),
                    all == service_regs(name@, *sp),
                    config::mappings_view(Ok(ms)) == config::expansion(*sp),
                    protocol::reg_views(out@) =~= before + all.take(i as int),
                decreases ms@.len() - i,
            {
                let reg = ProxyReg {
                    name: name.clone(),
                    remote: ms[i].remote,
                    local_host: ms[i].local_host.clone(),
                    local_port: ms[i].local_port,
                };
                let ghost prev = out@;
                assert(reg@ == all[i as int]);
                out.push(reg);
                assert(protocol::reg_views(out@) =~= protocol::reg_views(prev).push(reg@));
                i = i + 1;
            }
            assert(protocol::reg_views(out@) =~= before + all);
        },
    }
}

/// Expand the service specs into the flat proxy list sent to the server,
/// ordered by service name.
pub fn build_proxies(services: &Vec<(String, ProxySpec)>) -> (r: Vec<ProxyReg>)
    ensures
        protocol::reg_views(r@) == services_regs(by_name(services@)),
{
    let order = order_by_name(services);
    let ghost sorted = by_name(services@);
    let mut out: Vec<ProxyReg> = Vec::new();
    let mut i: usize = 0;
    assert(protocol::reg_views(out@) =~= services_regs(sorted.take(0)));
    while i < order.len()
        invariant
            i <= order@.len(),
            order@.len() == services@.len(),
            forall|k: int| 0 <= k < order@.len() ==> (#[trigger] order@[k]) < services@.len(),
            sorted == picked(services@, order@),
            protocol::reg_views(out@) == services_regs(sorted.take(i as int)),
        decreases order@.len() - i,
    {
        let k: usize = order[i];
        push_service_regs(&mut out, &services[k].0, &services[k].1);
        assert(sorted.take(i + 1).drop_last() =~= sorted.take(i as int));
        assert(sorted[i as int] == services@[k as int]);
        i = i + 1;
    }
    assert(sorted.take(i as int) =~= sorted);
    out
}

// ---- what is sent ----

/// The first bytes on a control channel: AUTH.
pub fn auth_bytes(hash: &[u8; 32]) -> (r: BytesMut)
    ensures
        buffer::filled(r) == protocol::wire(FrameView::Auth(hash@)),
{
    let mut buf = BytesMut::new();
    protocol::encode(&mut buf, &Frame::Auth(*hash));
    assert(buffer::filled(buf) =~= protocol::wire(FrameView::Auth(hash@)));
    buf
}

/// What is sent once the server answered OK: DCOUNT (how many data channels we
/// will open) and PROXIES (the public->local mappings to expose). `None` where
/// the proxy list does not fit a frame.
pub fn declare_bytes(n: u8, proxies: &Vec<ProxyReg>) -> (r: Option<BytesMut>)
    ensures
        match r {
            Some(b) => protocol::payload_of(
                FrameView::Proxies(protocol::reg_views(proxies@)),
            ).len() <= u16::MAX && buffer::filled(b) == protocol::wire(FrameView::DCount(n))
                + protocol::wire(FrameView::Proxies(protocol::reg_views(proxies@))),
            None => protocol::payload_of(
                FrameView::Proxies(protocol::reg_views(proxies@)),
            ).len() > u16::MAX,
        },
{
    let frame = Frame::Proxies(proxies.clone());
    assert(protocol::reg_views(frame->Proxies_0@) =~= protocol::reg_views(proxies@));
    if !frame.fits() {
        return None;
    }
    let mut buf = BytesMut::new();
    protocol::encode(&mut buf, &Frame::DCount(n));
    protocol::encode(&mut buf, &frame);
    assert(buffer::filled(buf) =~= protocol::wire(FrameView::DCount(n)) + protocol::wire(
        FrameView::Proxies(protocol::reg_views(proxies@)),
    ));
    Some(buf)
}

/// The first bytes on a data channel: AUTH and CHIDX.
pub fn attach_bytes(hash: &[u8; 32], idx: u8) -> (r: BytesMut)
    ensures
        buffer::filled(r) == protocol::wire(FrameView::Auth(hash@)) + protocol::wire(
            FrameView::ChIdx(idx),
        ),
{
    let mut buf = BytesMut::new();
    protocol::encode(&mut buf, &Frame::Auth(*hash));
    protocol::encode(&mut buf, &Frame::ChIdx(idx));
    assert(buffer::filled(buf) =~= protocol::wire(FrameView::Auth(hash@)) + protocol::wire(
        FrameView::ChIdx(idx),
    ));
    buf
}

// ---- what comes back ----

/// What one read of a connection brought during a handshake.
#[derive(Debug, PartialEq)]
pub enum Received {
    /// the connection ended
    Closed,
    /// no full frame yet
    Partial,
    Frame(Frame),
}

/// What a read stands for.
#[verifier::ext_equal]
pub enum ReceivedView {
    Closed,
    Partial,
    Frame(FrameView),
}

impl View for Received {
    type V = ReceivedView;

    open spec fn view(&self) -> ReceivedView {
        match *self {
            Received::Closed => ReceivedView::Closed,
            Received::Partial => ReceivedView::Partial,
            Received::Frame(f) => ReceivedView::Frame(f@),
        }
    }
}

/// Takes what a read of `n` bytes into `buf` brought: at most one frame. What
/// came in behind it stays in `buf`.
pub fn received(buf: &mut BytesMut, n: usize) -> (r: Received)
    ensures
        n == 0 ==> r@ is Closed && *final(buf) == *old(buf),
        n > 0 ==> match protocol::first_frame(buffer::filled(*old(buf))) {
            Some((f, rest)) => r@ == ReceivedView::Frame(f) && buffer::filled(*final(buf)) == rest,
            None => r@ is Partial && *final(buf) == *old(buf),
        },
{
    if n == 0 {
        return Received::Closed;
    }
    match protocol::parse(buf) {
        Some(f) => Received::Frame(f),
        None => Received::Partial,
    }
}

/// What a handshake reply comes to.
#[derive(Debug, PartialEq)]
pub enum Reply<T> {
    /// not there yet: read on
    Wait,
    /// the answer that was waited for
    Got(T),
    /// the handshake failed
    Failed(String),
}

/// What a reply stands for.
#[verifier::ext_equal]
pub enum Answer<T> {
    Wait,
    Got(T),
    Failed(Seq<char>),
}

/// What a reply without contents stands for.
pub open spec fn plain_answer(r: Reply<()>) -> Answer<()> {
    match r {
        Reply::Wait => Answer::Wait,
        Reply::Got(_) => Answer::Got(()),
        Reply::Failed(e) => Answer::Failed(e@),
    }
}

/// What a reply with registration results stands for.
pub open spec fn ack_answer(r: Reply<(Vec<ProxyAckEntry>, u16)>) -> Answer<
    (Seq<ProxyAckView>, u16),
> {
    match r {
        Reply::Wait => Answer::Wait,
        Reply::Got((entries, data_port)) => Answer::Got((protocol::ack_views(entries@), data_port)),
        Reply::Failed(e) => Answer::Failed(e@),
    }
}

/// What a read means to a client that sent AUTH.
pub open spec fn auth_answer(got: ReceivedView) -> Answer<()> {
    match got {
        ReceivedView::Closed => Answer::Failed("control channel closed during auth"@),
        ReceivedView::Partial => Answer::Wait,
        ReceivedView::Frame(f) => match f {
            FrameView::Okay => Answer::Got(()),
            FrameView::Fail => Answer::Failed("server rejected the shared secret"@),
            _ => Answer::Wait,
        },
    }
}

/// What a read means to a client that sent PROXIES.
pub open spec fn proxies_answer(got: ReceivedView) -> Answer<(Seq<ProxyAckView>, u16)> {
    match got {
        ReceivedView::Closed => Answer::Failed("control channel closed before proxy ack"@),
        ReceivedView::Partial => Answer::Wait,
        ReceivedView::Frame(f) => match f {
            FrameView::ProxyAck { entries, data_port } => Answer::Got((entries, data_port)),
            FrameView::Fail => Answer::Failed("server rejected the proxy list"@),
            _ => Answer::Wait,
        },
    }
}

/// What a read means to a client that sent AUTH and CHIDX on a data channel.
pub open spec fn attach_answer(got: ReceivedView) -> Answer<()> {
    match got {
        ReceivedView::Closed => Answer::Failed("server closed the data connection before OK"@),
        ReceivedView::Partial => Answer::Wait,
        ReceivedView::Frame(f) => match f {
            FrameView::Okay => Answer::Got(()),
            FrameView::Fail => Answer::Failed(
                "server rejected the data channel (busy or unknown index?)"@,
            ),
            _ => Answer::Wait,
        },
    }
}

/// The answer to AUTH: OK, or FAIL where the secret is wrong.
pub fn auth_reply(got: Received) -> (r: Reply<()>)
    ensures
        plain_answer(r) == auth_answer(got@),
{
    match got {
        Received::Closed => Reply::Failed("control channel closed during auth".to_owned()),
        Received::Partial => Reply::Wait,
        Received::Frame(Frame::Okay) => Reply::Got(()),
        Received::Frame(Frame::Fail) => Reply::Failed(
            "server rejected the shared secret".to_owned(),
        ),
        Received::Frame(_) => Reply::Wait,
    }
}

/// The answer to PROXIES: per-proxy registration results + the data port (also
/// = ready), or FAIL.
pub fn proxies_reply(got: Received) -> (r: Reply<(Vec<ProxyAckEntry>, u16)>)
    ensures
        ack_answer(r) == proxies_answer(got@),
{
    match got {
        Received::Closed => Reply::Failed("control channel closed before proxy ack".to_owned()),
        Received::Partial => Reply::Wait,
        Received::Frame(Frame::ProxyAck { entries, data_port }) => Reply::Got((entries, data_port)),
        Received::Frame(Frame::Fail) => Reply::Failed("server rejected the proxy list".to_owned()),
        Received::Frame(_) => Reply::Wait,
    }
}

/// The answer to AUTH and CHIDX on a data channel: OK (slot taken) or FAIL
/// (busy / out of range).
pub fn attach_reply(got: Received) -> (r: Reply<()>)
    ensures
        plain_answer(r) == attach_answer(got@),
{
    match got {
        Received::Closed => Reply::Failed(
            "server closed the data connection before OK".to_owned(),
        ),
        Received::Partial => Reply::Wait,
        Received::Frame(Frame::Okay) => Reply::Got(()),
        Received::Frame(Frame::Fail) => Reply::Failed(
            "server rejected the data channel (busy or unknown index?)".to_owned(),
        ),
        Received::Frame(_) => Reply::Wait,
    }
}

// ---- retrying ----

/// Exponential backoff.
#[derive(Debug, Clone, Copy, PartialEq, Eq, Structural)]
pub struct Backoff {
    pub ms: u64,
}

/// The backoff after an attempt: back to the start where it ran, twice as long
/// otherwise, up to `MAX_BACKOFF`.
pub open spec fn next_backoff(ms: u64, ran: bool) -> u64 {
    if ran {
        MIN_BACKOFF
    } else if 2 * ms <= MAX_BACKOFF {
        (2 * ms) as u64
    } else {
        MAX_BACKOFF
    }
}

/// How long to wait after an attempt, without the jitter: the backoff, or no
/// longer than at the start where the attempt ran.
pub open spec fn delay_base(ms: u64, ran: bool) -> u64 {
    if ran {
        MIN_BACKOFF
    } else {
        ms
    }
}

/// `rand::random`: any number.
#[verifier::external_body]
fn random_u64() -> (r: u64) {
    rand::random::<u64>()
}

impl Backoff {
    /// The backoff never leaves its range.
    pub open spec fn wf(self) -> bool {
        MIN_BACKOFF <= self.ms <= MAX_BACKOFF
    }

    /// The backoff before any attempt.
    pub fn new() -> (r: Self)
        ensures
            r.wf(),
            r.ms == MIN_BACKOFF,
    {
        Backoff { ms: MIN_BACKOFF }
    }

    /// How many milliseconds to wait after an attempt, with a jitter (which
    /// avoids a fixed retry cadence) out of `random`. `ran` says that the
    /// attempt got through and ran until the connection died: the backoff is
    /// reset, and the retry is prompt.
    pub fn after_attempt(&mut self, ran: bool, random: u64) -> (r: u64)
        requires
            old(self).wf(),
        ensures
            final(self).wf(),
            r == delay_base(old(self).ms, ran) + random % 256,
            final(self).ms == next_backoff(old(self).ms, ran),
    {
        let base: u64 = if ran {
            MIN_BACKOFF
        } else {
            self.ms
        };
        let delay: u64 = base + random % 256;
        self.ms = if ran {
            MIN_BACKOFF
        } else if 2 * self.ms <= MAX_BACKOFF {
            2 * self.ms
        } else {
            MAX_BACKOFF
        };
        delay
    }

    /// How many milliseconds to wait after an attempt, with a random jitter.
    pub fn retry(&mut self, ran: bool) -> (r: u64)
        requires
            old(self).wf(),
        ensures
            final(self).wf(),
            delay_base(old(self).ms, ran) <= r < delay_base(old(self).ms, ran) + 256,
            final(self).ms == next_backoff(old(self).ms, ran),
    {
        let random: u64 = random_u64();
        self.after_attempt(ran, random)
    }
}

} // verus!
