//! Wire protocol for wormhole.
//!
//! A connection between server and client is either a **control channel** or a
//! **data channel**. Both speak the same frame language:
//!
//!   `[type:u8][len:u16 BE][payload:len]`
//!
//! Control channel (1):
//!   AUTH/OK/FAIL  -> shared-secret handshake (sha256 of the secret)
//!   DCOUNT        -> client tells the server how many data channels it will open
//!   PROXIES       -> client declares the public->local port mappings it wants exposed
//!   PROXYACK      -> server reports per-proxy bind results (policy-checked) + the
//!                    data port; also = "ready"
//!   NEW           -> a connection arrived on a bound public port; carry its local addr
//!   CLOSE         -> a connection is closing (rides the data channel, in id order)
//!   PING/PONG     -> heartbeat (liveness)
//!
//! Data channels (N): DATA both ways. All N attach to ONE shared port; a channel
//! connection authenticates (AUTH) then names itself (CHIDX). Connection `id`
//! rides data channel `id % N`.
use crate::buffer;
use crate::text;
use bytes::{Bytes, BytesMut};
use sha2::{Digest, Sha256};
use vstd::prelude::*;
use vstd::utf8::*;

verus! {

pub const AUTH: u8 = 0x01;

pub const OK: u8 = 0x02;

pub const FAIL: u8 = 0x03;

/// client -> server: number of data channels
pub const DCOUNT: u8 = 0x04;

/// server -> client: a connection arrived; carry its local addr
pub const NEW: u8 = 0x05;

/// either: a connection is closing (data channel, in id order)
pub const CLOSE: u8 = 0x06;

/// either: payload for a connection (data channel)
pub const DATA: u8 = 0x07;

/// client -> server: the public->local mappings to expose
pub const PROXIES: u8 = 0x08;

/// either: heartbeat, payload = nonce(u32)
pub const PING: u8 = 0x09;

/// either: heartbeat reply, payload = nonce(u32)
pub const PONG: u8 = 0x0a;

/// client -> server: which data channel this connection is (after AUTH)
pub const CHIDX: u8 = 0x0b;

/// server -> client: per-proxy bind results + data port (= ready)
pub const PROXYACK: u8 = 0x0c;

/// Max DATA *chunk* (the bytes after the 2-byte id prefix). A Data frame's
/// on-wire payload is `id(2) + chunk`, which must fit the u16 length field:
/// a larger chunk would wrap it and desync the whole data channel.
pub const MAX_PAYLOAD: usize = 65533;

/// Max bytes gathered into one socket write by the per-connection pipe
/// (a burst of payloads is shared across one writev; a lone payload
/// writes immediately).
pub const PIPE_BATCH: usize = 256 * 1024;

/// Header size: type + len.
pub const HDR: usize = 3;

/// One public->local mapping the client wants exposed (a unit of `PROXIES`).
#[derive(Debug, PartialEq)]
pub struct ProxyReg {
    /// human label (for logs); routing does not depend on it
    pub name: String,
    /// the public port the server binds
    pub remote: u16,
    /// the local host the client connects to
    pub local_host: String,
    /// the local port the client connects to
    pub local_port: u16,
}

/// What a `ProxyReg` stands for.
#[verifier::ext_equal]
pub struct ProxyRegView {
    pub name: Seq<char>,
    pub remote: u16,
    pub local_host: Seq<char>,
    pub local_port: u16,
}

impl Clone for ProxyReg {
    fn clone(&self) -> (r: Self)
        ensures
            r == *self,
    {
        ProxyReg {
            name: self.name.clone(),
            remote: self.remote,
            local_host: self.local_host.clone(),
            local_port: self.local_port,
        }
    }
}

impl View for ProxyReg {
    type V = ProxyRegView;

    open spec fn view(&self) -> ProxyRegView {
        ProxyRegView {
            name: self.name@,
            remote: self.remote,
            local_host: self.local_host@,
            local_port: self.local_port,
        }
    }
}

/// Per-proxy registration result (a unit of `PROXYACK`), echoing the order
/// of the client's `PROXIES`.
#[derive(Debug, PartialEq)]
pub struct ProxyAckEntry {
    /// the proxy name, as declared by the client
    pub name: String,
    /// 0 = bound, 1 = denied by the server's port policy, 2 = not bound
    /// (duplicate public port or bind failure)
    pub status: u8,
}

/// What a `ProxyAckEntry` stands for.
#[verifier::ext_equal]
pub struct ProxyAckView {
    pub name: Seq<char>,
    pub status: u8,
}

impl Clone for ProxyAckEntry {
    fn clone(&self) -> (r: Self)
        ensures
            r == *self,
    {
        ProxyAckEntry { name: self.name.clone(), status: self.status }
    }
}

impl View for ProxyAckEntry {
    type V = ProxyAckView;

    open spec fn view(&self) -> ProxyAckView {
        ProxyAckView { name: self.name@, status: self.status }
    }
}

#[derive(Debug, PartialEq)]
pub enum Frame {
    /// AUTH: 32-byte sha256(secret).
    Auth([u8; 32]),
    /// OK / FAIL: auth result (empty payload).
    Okay,
    Fail,
    /// DCOUNT: number of data channels the client will open.
    DCount(u8),
    /// PROXIES: the mappings the client wants exposed.
    Proxies(Vec<ProxyReg>),
    /// PROXYACK: per-proxy registration results + the data port the client
    /// dials for all its channels (also signals "ready: open the data channels").
    ProxyAck { entries: Vec<ProxyAckEntry>, data_port: u16 },
    /// CHIDX: this data connection is channel `i` of the session (sent right
    /// after AUTH on a data-channel connection).
    ChIdx(u8),
    /// NEW: connection `id` wants local_host:local_port.
    New { id: u16, local_host: String, local_port: u16 },
    /// CLOSE: connection `id` is closing.
    Close(u16),
    /// DATA: `payload` for connection `id`. The id rides the frame (on the
    /// wire it is prefixed inside the payload); keeping it out of the bytes
    /// means the hot path never copies a data chunk to prepend it.
    Data(u16, Bytes),
    /// PING / PONG: heartbeat with `nonce`.
    Ping(u32),
    Pong(u32),
}

/// What a `Frame` stands for.
#[verifier::ext_equal]
pub enum FrameView {
    Auth(Seq<u8>),
    Okay,
    Fail,
    DCount(u8),
    Proxies(Seq<ProxyRegView>),
    ProxyAck { entries: Seq<ProxyAckView>, data_port: u16 },
    ChIdx(u8),
    New { id: u16, local_host: Seq<char>, local_port: u16 },
    Close(u16),
    Data(u16, Seq<u8>),
    Ping(u32),
    Pong(u32),
}

/// The views of a list of registrations.
pub open spec fn reg_views(regs: Seq<ProxyReg>) -> Seq<ProxyRegView> {
    regs.map_values(|r: ProxyReg| r@)
}

/// The views of a list of registration results.
pub open spec fn ack_views(entries: Seq<ProxyAckEntry>) -> Seq<ProxyAckView> {
    entries.map_values(|e: ProxyAckEntry| e@)
}

impl View for Frame {
    type V = FrameView;

    open spec fn view(&self) -> FrameView {
        match *self {
            Frame::Auth(h) => FrameView::Auth(h@),
            Frame::Okay => FrameView::Okay,
            Frame::Fail => FrameView::Fail,
            Frame::DCount(n) => FrameView::DCount(n),
            Frame::Proxies(regs) => FrameView::Proxies(reg_views(regs@)),
            Frame::ProxyAck { entries, data_port } => FrameView::ProxyAck {
                entries: ack_views(entries@),
                data_port,
            },
            Frame::ChIdx(i) => FrameView::ChIdx(i),
            Frame::New { id, local_host, local_port } => FrameView::New {
                id,
                local_host: local_host@,
                local_port,
            },
            Frame::Close(id) => FrameView::Close(id),
            Frame::Data(id, p) => FrameView::Data(id, buffer::held(p)),
            Frame::Ping(n) => FrameView::Ping(n),
            Frame::Pong(n) => FrameView::Pong(n),
        }
    }
}

/// The type byte of a frame.
pub open spec fn kind_of(f: FrameView) -> u8 {
    match f {
        FrameView::Auth(_) => AUTH,
        FrameView::Okay => OK,
        FrameView::Fail => FAIL,
        FrameView::DCount(_) => DCOUNT,
        FrameView::Proxies(_) => PROXIES,
        FrameView::ProxyAck { .. } => PROXYACK,
        FrameView::ChIdx(_) => CHIDX,
        FrameView::New { .. } => NEW,
        FrameView::Close(_) => CLOSE,
        FrameView::Data(..) => DATA,
        FrameView::Ping(_) => PING,
        FrameView::Pong(_) => PONG,
    }
}

/// `b` behind one byte that holds its length, modulo 256.
pub open spec fn short(b: Seq<u8>) -> Seq<u8> {
    seq![(b.len() % 256) as u8] + b
}

/// A registration on the wire.
pub open spec fn reg_bytes(r: ProxyRegView) -> Seq<u8> {
    short(encode_utf8(r.name)) + buffer::be16(r.remote) + short(encode_utf8(r.local_host))
        + buffer::be16(r.local_port)
}

/// A registration result on the wire.
pub open spec fn ack_bytes(e: ProxyAckView) -> Seq<u8> {
    short(encode_utf8(e.name)).push(e.status)
}

/// Registrations on the wire, one after the other.
pub open spec fn regs_bytes(regs: Seq<ProxyRegView>) -> Seq<u8> {
    buffer::concat(regs.map_values(|r: ProxyRegView| reg_bytes(r)))
}

/// Registration results on the wire, one after the other.
pub open spec fn acks_bytes(entries: Seq<ProxyAckView>) -> Seq<u8> {
    buffer::concat(entries.map_values(|e: ProxyAckView| ack_bytes(e)))
}

/// The payload of a frame.
pub open spec fn payload_of(f: FrameView) -> Seq<u8> {
    match f {
        FrameView::Auth(h) => h,
        FrameView::Okay => Seq::empty(),
        FrameView::Fail => Seq::empty(),
        FrameView::DCount(n) => seq![n],
        FrameView::Proxies(regs) => buffer::be16((regs.len() % 65536) as u16) + regs_bytes(regs),
        FrameView::ProxyAck { entries, data_port } => acks_bytes(entries) + buffer::be16(data_port),
        FrameView::ChIdx(i) => seq![i],
        FrameView::New { id, local_host, local_port } => buffer::be16(id) + short(
            encode_utf8(local_host),
        ) + buffer::be16(local_port),
        FrameView::Close(id) => buffer::be16(id),
        FrameView::Data(id, p) => buffer::be16(id) + p,
        FrameView::Ping(n) => buffer::be32(n),
        FrameView::Pong(n) => buffer::be32(n),
    }
}

/// A frame on the wire, where its payload fits the length field.
pub open spec fn wire(f: FrameView) -> Seq<u8> {
    seq![kind_of(f)] + buffer::be16(payload_of(f).len() as u16) + payload_of(f)
}

impl Frame {
    /// type byte.
    pub fn kind(&self) -> (r: u8)
        ensures
            r == kind_of(self@),
    {
        match self {
            Frame::Auth(_) => AUTH,
            Frame::Okay => OK,
            Frame::Fail => FAIL,
            Frame::DCount(_) => DCOUNT,
            Frame::Proxies(_) => PROXIES,
            Frame::ProxyAck { .. } => PROXYACK,
            Frame::ChIdx(_) => CHIDX,
            Frame::New { .. } => NEW,
            Frame::Close(_) => CLOSE,
            Frame::Data(..) => DATA,
            Frame::Ping(_) => PING,
            Frame::Pong(_) => PONG,
        }
    }
}

/// Appends a length byte (modulo 256) and `b`.
fn put_short(buf: &mut BytesMut, b: &[u8])
    requires
        buffer::filled(*old(buf)).len() + b@.len() < isize::MAX,
    ensures
        buffer::filled(*final(buf)) == buffer::filled(*old(buf)) + short(b@),
{
    let len: usize = b.len();
    assert(len as u8 == len % 256) by (bit_vector);
    buffer::put_u8(buf, len as u8);
    buffer::put_slice(buf, b);
    assert(buffer::filled(*buf) =~= buffer::filled(*old(buf)) + short(b@));
}

fn put_reg(buf: &mut BytesMut, r: &ProxyReg)
    requires
        buffer::filled(*old(buf)).len() + reg_bytes(r@).len() <= isize::MAX,
    ensures
        buffer::filled(*final(buf)) == buffer::filled(*old(buf)) + reg_bytes(r@),
{
    put_short(buf, r.name.as_str().as_bytes());
    buffer::put_u16(buf, r.remote);
    put_short(buf, r.local_host.as_str().as_bytes());
    buffer::put_u16(buf, r.local_port);
    assert(buffer::filled(*buf) =~= buffer::filled(*old(buf)) + reg_bytes(r@));
}

fn put_ack(buf: &mut BytesMut, e: &ProxyAckEntry)
    requires
        buffer::filled(*old(buf)).len() + ack_bytes(e@).len() <= isize::MAX,
    ensures
        buffer::filled(*final(buf)) == buffer::filled(*old(buf)) + ack_bytes(e@),
{
    put_short(buf, e.name.as_str().as_bytes());
    buffer::put_u8(buf, e.status);
    assert(buffer::filled(*buf) =~= buffer::filled(*old(buf)) + ack_bytes(e@));
}

/// A registration among the others: what stands before it, itself, and what
/// follows.
proof fn lemma_regs_step(regs: Seq<ProxyReg>, i: int)
    requires
        0 <= i < regs.len(),
    ensures
        regs_bytes(reg_views(regs.take(i + 1))) == regs_bytes(reg_views(regs.take(i)))
            + reg_bytes(regs[i]@),
        regs_bytes(reg_views(regs.take(i + 1))).len() <= regs_bytes(reg_views(regs)).len(),
{
    let f = |r: ProxyRegView| reg_bytes(r);
    let parts = reg_views(regs).map_values(f);
    assert(reg_views(regs.take(i)).map_values(f) =~= parts.take(i));
    assert(reg_views(regs.take(i + 1)).map_values(f) =~= parts.take(i + 1));
    assert(parts.take(i + 1) =~= parts.take(i).push(parts[i]));
    buffer::lemma_concat_push(parts.take(i), parts[i]);
    buffer::lemma_concat_prefix(parts, i + 1);
}

/// A registration result among the others.
proof fn lemma_acks_step(entries: Seq<ProxyAckEntry>, i: int)
    requires
        0 <= i < entries.len(),
    ensures
        acks_bytes(ack_views(entries.take(i + 1))) == acks_bytes(ack_views(entries.take(i)))
            + ack_bytes(entries[i]@),
        acks_bytes(ack_views(entries.take(i + 1))).len() <= acks_bytes(ack_views(entries)).len(),
{
    let f = |e: ProxyAckView| ack_bytes(e);
    let parts = ack_views(entries).map_values(f);
    assert(ack_views(entries.take(i)).map_values(f) =~= parts.take(i));
    assert(ack_views(entries.take(i + 1)).map_values(f) =~= parts.take(i + 1));
    assert(parts.take(i + 1) =~= parts.take(i).push(parts[i]));
    buffer::lemma_concat_push(parts.take(i), parts[i]);
    buffer::lemma_concat_prefix(parts, i + 1);
}

fn put_regs(buf: &mut BytesMut, regs: &Vec<ProxyReg>)
    requires
        buffer::filled(*old(buf)).len() + regs_bytes(reg_views(regs@)).len() <= isize::MAX,
    ensures
        buffer::filled(*final(buf)) == buffer::filled(*old(buf)) + regs_bytes(reg_views(regs@)),
{
    let ghost before = buffer::filled(*buf);
    let mut i: usize = 0;
    assert(before =~= before + regs_bytes(reg_views(regs@.take(0))));
    while i < regs.len()
        invariant
            i <= regs@.len(),
            before.len() + regs_bytes(reg_views(regs@)).len() <= isize::MAX,
            buffer::filled(*buf) == before + regs_bytes(reg_views(regs@.take(i as int))),
        decreases regs@.len() - i,
    {
        proof {
            lemma_regs_step(regs@, i as int);
        }
        put_reg(buf, &regs[i]);
        i = i + 1;
        assert(buffer::filled(*buf) =~= before + regs_bytes(reg_views(regs@.take(i as int))));
    }
    assert(regs@.take(i as int) =~= regs@);
}

fn put_acks(buf: &mut BytesMut, entries: &Vec<ProxyAckEntry>)
    requires
        buffer::filled(*old(buf)).len() + acks_bytes(ack_views(entries@)).len() <= isize::MAX,
    ensures
        buffer::filled(*final(buf)) == buffer::filled(*old(buf)) + acks_bytes(ack_views(entries@)),
{
    let ghost before = buffer::filled(*buf);
    let mut i: usize = 0;
    assert(before =~= before + acks_bytes(ack_views(entries@.take(0))));
    while i < entries.len()
        invariant
            i <= entries@.len(),
            before.len() + acks_bytes(ack_views(entries@)).len() <= isize::MAX,
            buffer::filled(*buf) == before + acks_bytes(ack_views(entries@.take(i as int))),
        decreases entries@.len() - i,
    {
        proof {
            lemma_acks_step(entries@, i as int);
        }
        put_ack(buf, &entries[i]);
        i = i + 1;
        assert(buffer::filled(*buf) =~= before + acks_bytes(ack_views(entries@.take(i as int))));
    }
    assert(entries@.take(i as int) =~= entries@);
}

fn regs_fit(regs: &Vec<ProxyReg>) -> (r: bool)
    ensures
        r == (2 + regs_bytes(reg_views(regs@)).len() <= u16::MAX),
{
    let mut total: usize = 2;
    let mut i: usize = 0;
    assert(regs_bytes(reg_views(regs@.take(0))) =~= Seq::<u8>::empty());
    while i < regs.len()
        invariant
            i <= regs@.len(),
            total == 2 + regs_bytes(reg_views(regs@.take(i as int))).len(),
            total <= u16::MAX,
        decreases regs@.len() - i,
    {
        proof {
            lemma_regs_step(regs@, i as int);
        }
        let name_len: usize = regs[i].name.as_str().as_bytes().len();
        let host_len: usize = regs[i].local_host.as_str().as_bytes().len();
        if name_len > 65535 || host_len > 65535 {
            return false;
        }
        total = total + name_len + host_len + 6;
        if total > 65535 {
            return false;
        }
        i = i + 1;
    }
    assert(regs@.take(i as int) =~= regs@);
    true
}

fn acks_fit(entries: &Vec<ProxyAckEntry>) -> (r: bool)
    ensures
        r == (2 + acks_bytes(ack_views(entries@)).len() <= u16::MAX),
{
    let mut total: usize = 2;
    let mut i: usize = 0;
    assert(acks_bytes(ack_views(entries@.take(0))) =~= Seq::<u8>::empty());
    while i < entries.len()
        invariant
            i <= entries@.len(),
            total == 2 + acks_bytes(ack_views(entries@.take(i as int))).len(),
            total <= u16::MAX,
        decreases entries@.len() - i,
    {
        proof {
            lemma_acks_step(entries@, i as int);
        }
        let name_len: usize = entries[i].name.as_str().as_bytes().len();
        if name_len > 65535 {
            return false;
        }
        total = total + name_len + 2;
        if total > 65535 {
            return false;
        }
        i = i + 1;
    }
    assert(entries@.take(i as int) =~= entries@);
    true
}

impl Frame {
    /// Does the payload fit the 16-bit length field?
    pub fn fits(&self) -> (r: bool)
        ensures
            r == (payload_of(self@).len() <= u16::MAX),
    {
        match self {
            Frame::Proxies(regs) => regs_fit(regs),
            Frame::ProxyAck { entries, .. } => acks_fit(entries),
            Frame::New { local_host, .. } => local_host.as_str().as_bytes().len() <= 65530,
            Frame::Data(_, p) => p.len() <= MAX_PAYLOAD,
            _ => true,
        }
    }
}

/// Encode `frame` into `buf` (just the payload bytes, no header).
pub fn encode_payload(buf: &mut BytesMut, frame: &Frame)
    requires
        buffer::filled(*old(buf)).len() + payload_of(frame@).len() <= isize::MAX,
    ensures
        buffer::filled(*final(buf)) == buffer::filled(*old(buf)) + payload_of(frame@),
{
    match frame {
        Frame::Auth(h) => buffer::put_slice(buf, h.as_slice()),
        Frame::Okay | Frame::Fail => {},
        Frame::DCount(n) => buffer::put_u8(buf, *n),
        Frame::Proxies(regs) => {
            let count: usize = regs.len();
            assert(count as u16 == count % 65536) by (bit_vector);
            buffer::put_u16(buf, count as u16);
            put_regs(buf, regs);
        },
        Frame::ProxyAck { entries, data_port } => {
            put_acks(buf, entries);
            buffer::put_u16(buf, *data_port);
        },
        Frame::ChIdx(i) => buffer::put_u8(buf, *i),
        Frame::New { id, local_host, local_port } => {
            buffer::put_u16(buf, *id);
            put_short(buf, local_host.as_str().as_bytes());
            buffer::put_u16(buf, *local_port);
        },
        Frame::Close(id) => buffer::put_u16(buf, *id),
        Frame::Data(id, p) => {
            buffer::put_u16(buf, *id);
            buffer::put_slice(buf, buffer::held_slice(p));
        },
        Frame::Ping(n) | Frame::Pong(n) => buffer::put_u32(buf, *n),
    }
    assert(buffer::filled(*buf) =~= buffer::filled(*old(buf)) + payload_of(frame@));
}

/// Append the full frame (header + payload) to `buf`. The length field is
/// u16: an oversized payload would wrap it and desync the peer, so the payload
/// has to fit (see `Frame::fits`).
pub fn encode(buf: &mut BytesMut, frame: &Frame)
    requires
        payload_of(frame@).len() <= u16::MAX,
        buffer::filled(*old(buf)).len() + HDR + payload_of(frame@).len() <= isize::MAX,
    ensures
        buffer::filled(*final(buf)) == buffer::filled(*old(buf)) + wire(frame@),
{
    let mut payload = BytesMut::new();
    encode_payload(&mut payload, frame);
    assert(buffer::filled(payload) =~= payload_of(frame@));
    buffer::put_u8(buf, frame.kind());
    buffer::put_u16(buf, payload.len() as u16);
    buffer::put_slice(buf, buffer::filled_slice(&payload));
    assert(buffer::filled(*buf) =~= buffer::filled(*old(buf)) + wire(frame@));
}

/// Reads `[len:u8][bytes:len]` off the front of `p`.
pub open spec fn take_short(p: Seq<u8>) -> Option<(Seq<u8>, Seq<u8>)> {
    if p.len() > 0 && 1 + p[0] <= p.len() {
        Some((p.subrange(1, 1 + p[0]), p.skip(1 + p[0])))
    } else {
        None
    }
}

/// Reads a 16-bit number off the front of `p`.
pub open spec fn take_u16(p: Seq<u8>) -> Option<(u16, Seq<u8>)> {
    if p.len() >= 2 {
        Some((buffer::be16_at(p, 0), p.skip(2)))
    } else {
        None
    }
}

/// Reads a registration off the front of `p`.
pub open spec fn take_reg(p: Seq<u8>) -> Option<(ProxyRegView, Seq<u8>)> {
    match take_short(p) {
        Some((name, p1)) => match take_u16(p1) {
            Some((remote, p2)) => match take_short(p2) {
                Some((host, p3)) => match take_u16(p3) {
                    Some((local_port, p4)) => Some(
                        (
                            ProxyRegView {
                                name: text::text_of(name),
                                remote,
                                local_host: text::text_of(host),
                                local_port,
                            },
                            p4,
                        ),
                    ),
                    None => None,
                },
                None => None,
            },
            None => None,
        },
        None => None,
    }
}

/// Reads `n` registrations off the front of `p`.
pub open spec fn take_regs(p: Seq<u8>, n: nat) -> Option<(Seq<ProxyRegView>, Seq<u8>)>
    decreases n,
{
    if n == 0 {
        Some((Seq::empty(), p))
    } else {
        match take_reg(p) {
            Some((r, p1)) => match take_regs(p1, (n - 1) as nat) {
                Some((rs, rest)) => Some((seq![r] + rs, rest)),
                None => None,
            },
            None => None,
        }
    }
}

/// Reads a registration result off the front of `p`.
pub open spec fn take_ack(p: Seq<u8>) -> Option<(ProxyAckView, Seq<u8>)> {
    match take_short(p) {
        Some((name, rest)) => if rest.len() > 0 {
            Some((ProxyAckView { name: text::text_of(name), status: rest[0] }, rest.skip(1)))
        } else {
            None
        },
        None => None,
    }
}

/// Reads `p` as registration results, to its end.
pub open spec fn take_acks(p: Seq<u8>) -> Option<Seq<ProxyAckView>>
    decreases p.len(),
{
    if p.len() == 0 {
        Some(Seq::empty())
    } else {
        match take_ack(p) {
            Some((e, rest)) => if rest.len() < p.len() {
                match take_acks(rest) {
                    Some(es) => Some(seq![e] + es),
                    None => None,
                }
            } else {
                None
            },
            None => None,
        }
    }
}

/// A PROXYACK payload: results, then the data port in the last two bytes.
pub open spec fn proxyack_of(p: Seq<u8>) -> Option<(Seq<ProxyAckView>, u16)> {
    if p.len() < 2 {
        None
    } else {
        match take_acks(p.take(p.len() - 2)) {
            Some(entries) => Some((entries, buffer::be16_at(p, p.len() - 2))),
            None => None,
        }
    }
}

/// A NEW payload: `[id:u16][lh_len:u8][local_host][local_port:u16]`, with
/// nothing behind it.
pub open spec fn new_of(p: Seq<u8>) -> FrameView {
    match take_u16(p) {
        Some((id, p1)) => match take_short(p1) {
            Some((host, p2)) => match take_u16(p2) {
                Some((local_port, rest)) => if rest.len() == 0 {
                    FrameView::New { id, local_host: text::text_of(host), local_port }
                } else {
                    FrameView::Fail
                },
                None => FrameView::Fail,
            },
            None => FrameView::Fail,
        },
        None => FrameView::Fail,
    }
}

/// A PROXIES payload: `[count:u16]` and that many registrations, with nothing
/// behind them.
pub open spec fn proxies_of(p: Seq<u8>) -> FrameView {
    match take_u16(p) {
        Some((count, p1)) => match take_regs(p1, count as nat) {
            Some((regs, rest)) => if rest.len() == 0 {
                FrameView::Proxies(regs)
            } else {
                FrameView::Fail
            },
            None => FrameView::Fail,
        },
        None => FrameView::Fail,
    }
}

/// The frame with type byte `t` and payload `p`. A malformed one (unknown type
/// or wrong length) is `Fail`, as is FAIL itself.
pub open spec fn frame_of(t: u8, p: Seq<u8>) -> FrameView {
    if t == AUTH && p.len() == 32 {
        FrameView::Auth(p)
    } else if t == OK && p.len() == 0 {
        FrameView::Okay
    } else if t == DCOUNT && p.len() == 1 {
        FrameView::DCount(p[0])
    } else if t == PROXYACK {
        match proxyack_of(p) {
            Some((entries, data_port)) => FrameView::ProxyAck { entries, data_port },
            None => FrameView::Fail,
        }
    } else if t == CHIDX && p.len() == 1 {
        FrameView::ChIdx(p[0])
    } else if t == CLOSE && p.len() == 2 {
        FrameView::Close(buffer::be16_at(p, 0))
    } else if t == PING && p.len() == 4 {
        FrameView::Ping(buffer::be32_at(p, 0))
    } else if t == PONG && p.len() == 4 {
        FrameView::Pong(buffer::be32_at(p, 0))
    } else if t == NEW {
        new_of(p)
    } else if t == PROXIES {
        proxies_of(p)
    } else if t == DATA && p.len() >= 2 {
        FrameView::Data(buffer::be16_at(p, 0), p.skip(2))
    } else {
        FrameView::Fail
    }
}

/// The first frame in `b` and what follows it, once it is there in full.
pub open spec fn first_frame(b: Seq<u8>) -> Option<(FrameView, Seq<u8>)> {
    if b.len() < HDR {
        None
    } else {
        let end = HDR + buffer::be16_at(b, 1);
        if b.len() < end {
            None
        } else {
            Some((frame_of(b[0], b.subrange(HDR as int, end)), b.skip(end)))
        }
    }
}

/// All the frames in `b`, and the bytes behind the last of them.
pub open spec fn all_frames(b: Seq<u8>) -> (Seq<FrameView>, Seq<u8>)
    decreases b.len(),
{
    match first_frame(b) {
        Some((f, rest)) => if rest.len() < b.len() {
            (seq![f] + all_frames(rest).0, all_frames(rest).1)
        } else {
            (Seq::empty(), b)
        },
        None => (Seq::empty(), b),
    }
}

/// Reads `[len:u8][text:len]` at `i`; gives the text and where it ends.
fn decode_short(p: &[u8], i: usize) -> (r: Option<(String, usize)>)
    requires
        i <= p@.len(),
    ensures
        match r {
            Some((s, j)) => {
                &&& i < j <= p@.len()
                &&& take_short(p@.skip(i as int)) matches Some((b, rest))
                &&& s@ == text::text_of(b)
                &&& rest == p@.skip(j as int)
            },
            None => take_short(p@.skip(i as int)) is None,
        },
{
    if i >= p.len() {
        return None;
    }
    let len: usize = p[i] as usize;
    if p.len() - i - 1 < len {
        return None;
    }
    let j: usize = i + 1 + len;
    let s = text::read_text(&p[i + 1..j]);
    assert(p@.subrange(i + 1, j as int) =~= p@.skip(i as int).subrange(1, 1 + len));
    assert(p@.skip(i as int).skip(1 + len) =~= p@.skip(j as int));
    Some((s, j))
}

/// Reads the registration at `i`; gives it and where it ends.
fn decode_reg(p: &[u8], i: usize) -> (r: Option<(ProxyReg, usize)>)
    requires
        i <= p@.len(),
    ensures
        match r {
            Some((reg, j)) => i < j <= p@.len() && take_reg(p@.skip(i as int)) == Some(
                (reg@, p@.skip(j as int)),
            ),
            None => take_reg(p@.skip(i as int)) is None,
        },
{
    let (name, i1) = match decode_short(p, i) {
        Some(x) => x,
        None => return None,
    };
    if p.len() - i1 < 2 {
        return None;
    }
    let remote: u16 = buffer::read_u16(p, i1);
    let i2: usize = i1 + 2;
    assert(p@.skip(i1 as int).skip(2) =~= p@.skip(i2 as int));
    let (local_host, i3) = match decode_short(p, i2) {
        Some(x) => x,
        None => return None,
    };
    if p.len() - i3 < 2 {
        return None;
    }
    let local_port: u16 = buffer::read_u16(p, i3);
    let i4: usize = i3 + 2;
    assert(p@.skip(i3 as int).skip(2) =~= p@.skip(i4 as int));
    Some((ProxyReg { name, remote, local_host, local_port }, i4))
}

/// What was read so far in front of what is still to be read.
spec fn after<A>(head: Seq<A>, tail: Option<Seq<A>>) -> Option<Seq<A>> {
    match tail {
        Some(t) => Some(head + t),
        None => None,
    }
}

proof fn lemma_after<A>(head: Seq<A>, a: A, tail: Option<Seq<A>>)
    ensures
        after(head.push(a), tail) == after(head, after(seq![a], tail)),
{
    if let Some(t) = tail {
        assert(head.push(a) + t =~= head + (seq![a] + t));
    }
}

/// PROXYACK payload: repeated `[name_len:u8][name][status:u8]`, then a trailing
/// `[data_port:u16]` (the port the client dials for all data channels). Zero
/// proxies is valid (the payload is just the 2-byte data port). Gives None
/// if an entry is truncated.
pub fn decode_proxyack(p: &[u8]) -> (r: Option<(Vec<ProxyAckEntry>, u16)>)
    ensures
        match r {
            Some((entries, data_port)) => proxyack_of(p@) == Some(
                (ack_views(entries@), data_port),
            ),
            None => proxyack_of(p@) is None,
        },
{
    if p.len() < 2 {
        return None;
    }
    let end: usize = p.len() - 2;
    let data_port: u16 = buffer::read_u16(p, end);
    let body = &p[0..end];
    assert(body@ =~= p@.take(p@.len() - 2));
    let mut out: Vec<ProxyAckEntry> = Vec::new();
    let mut i: usize = 0;
    assert(body@.skip(0) =~= body@);
    proof {
        if let Some(t) = take_acks(body@) {
            assert(ack_views(out@) + t =~= t);
        }
    }
    while i < body.len()
        invariant
            body@ == p@.take(p@.len() - 2),
            p@.len() >= 2,
            i <= body@.len(),
            take_acks(body@) == after(ack_views(out@), take_acks(body@.skip(i as int))),
        decreases body@.len() - i,
    {
        let (name, j) = match decode_short(body, i) {
            Some(x) => x,
            None => return None,
        };
        if j >= body.len() {
            return None;
        }
        let status: u8 = body[j];
        let ghost before = out@;
        let entry = ProxyAckEntry { name, status };
        out.push(entry);
        proof {
            assert(body@.skip(j as int).skip(1) =~= body@.skip(j + 1));
            assert(ack_views(out@) =~= ack_views(before).push(entry@));
            lemma_after(ack_views(before), entry@, take_acks(body@.skip(j + 1)));
        }
        i = j + 1;
    }
    assert(ack_views(out@) + Seq::<ProxyAckView>::empty() =~= ack_views(out@));
    Some((out, data_port))
}

/// NEW payload: `[id:u16][lh_len:u8][local_host][local_port:u16]`.
pub fn decode_new(p: &[u8]) -> (r: Frame)
    ensures
        r@ == new_of(p@),
{
    if p.len() < 2 {
        return Frame::Fail;
    }
    let id: u16 = buffer::read_u16(p, 0);
    let (local_host, i) = match decode_short(p, 2) {
        Some(x) => x,
        None => return Frame::Fail,
    };
    if p.len() - i != 2 {
        return Frame::Fail;
    }
    let local_port: u16 = buffer::read_u16(p, i);
    Frame::New { id, local_host, local_port }
}

/// The registrations read so far in front of those still to be read.
spec fn regs_after(
    head: Seq<ProxyRegView>,
    tail: Option<(Seq<ProxyRegView>, Seq<u8>)>,
) -> Option<(Seq<ProxyRegView>, Seq<u8>)> {
    match tail {
        Some((t, rest)) => Some((head + t, rest)),
        None => None,
    }
}

/// PROXIES payload: `[count:u16]` and that many
/// `[name][remote:u16][local_host][local_port:u16]`.
pub fn decode_proxies(p: &[u8]) -> (r: Frame)
    ensures
        r@ == proxies_of(p@),
{
    if p.len() < 2 {
        return Frame::Fail;
    }
    let count: u16 = buffer::read_u16(p, 0);
    let mut regs: Vec<ProxyReg> = Vec::with_capacity(count as usize);
    let mut i: usize = 2;
    let mut k: u16 = 0;
    let ghost all = take_regs(p@.skip(2), count as nat);
    proof {
        if let Some((t, _)) = all {
            assert(reg_views(regs@) + t =~= t);
        }
    }
    while k < count
        invariant
            2 <= i <= p@.len(),
            k <= count,
            count == buffer::be16_at(p@, 0),
            all == take_regs(p@.skip(2), count as nat),
            all == regs_after(reg_views(regs@), take_regs(p@.skip(i as int), (count - k) as nat)),
        decreases count - k,
    {
        let (reg, j) = match decode_reg(p, i) {
            Some(x) => x,
            None => return Frame::Fail,
        };
        let ghost before = regs@;
        let ghost view = reg@;
        let ghost tail = take_regs(p@.skip(j as int), (count - k - 1) as nat);
        regs.push(reg);
        proof {
            assert(reg_views(regs@) =~= reg_views(before).push(view));
            if let Some((t, _)) = tail {
                assert(reg_views(before).push(view) + t =~= reg_views(before) + (seq![view] + t));
            }
        }
        i = j;
        k = k + 1;
    }
    assert(reg_views(regs@) + Seq::<ProxyRegView>::empty() =~= reg_views(regs@));
    if i < p.len() {
        return Frame::Fail;
    }
    Frame::Proxies(regs)
}

/// The 32 bytes of `p` as an array.
fn to_hash(p: &[u8]) -> (r: [u8; 32])
    requires
        p@.len() == 32,
    ensures
        r@ == p@,
{
    let mut h: [u8; 32] = [0u8; 32];
    let mut i: usize = 0;
    while i < 32
        invariant
            i <= 32,
            p@.len() == 32,
            forall|k: int| 0 <= k < i ==> h@[k] == p@[k],
        decreases 32 - i,
    {
        h[i] = p[i];
        i = i + 1;
    }
    assert(h@ =~= p@);
    h
}

/// Decode a payload into a Frame; DATA is left to `parse`. Malformed payloads
/// (wrong type or wrong length) yield `Frame::Fail`, so a desynced stream
/// degrades gracefully.
pub fn decode(t: u8, p: &[u8]) -> (r: Frame)
    ensures
        r@ == if t == DATA {
            FrameView::Fail
        } else {
            frame_of(t, p@)
        },
        r@ == FrameView::Fail || kind_of(r@) == t,
{
    if t == AUTH && p.len() == 32 {
        Frame::Auth(to_hash(p))
    } else if t == OK && p.len() == 0 {
        Frame::Okay
    } else if t == DCOUNT && p.len() == 1 {
        Frame::DCount(p[0])
    } else if t == PROXYACK {
        match decode_proxyack(p) {
            Some((entries, data_port)) => Frame::ProxyAck { entries, data_port },
            None => Frame::Fail,
        }
    } else if t == CHIDX && p.len() == 1 {
        Frame::ChIdx(p[0])
    } else if t == CLOSE && p.len() == 2 {
        Frame::Close(buffer::read_u16(p, 0))
    } else if t == PING && p.len() == 4 {
        Frame::Ping(buffer::read_u32(p, 0))
    } else if t == PONG && p.len() == 4 {
        Frame::Pong(buffer::read_u32(p, 0))
    } else if t == NEW {
        decode_new(p)
    } else if t == PROXIES {
        decode_proxies(p)
    } else {
        Frame::Fail
    }
}

/// Parse one frame from the front of `buf`, consuming it. Returns None, and
/// leaves `buf` alone, until a full frame is present.
///
/// DATA is a zero-copy fast path: the chunk shares the buffer's allocation
/// instead of copying every data byte.
pub fn parse(buf: &mut BytesMut) -> (r: Option<Frame>)
    ensures
        match first_frame(buffer::filled(*old(buf))) {
            Some((f, rest)) => r matches Some(frame) && frame@ == f && buffer::filled(*final(buf))
                == rest,
            None => r is None && *final(buf) == *old(buf),
        },
{
    let ghost all = buffer::filled(*buf);
    let total: usize = buf.len();
    if total < HDR {
        return None;
    }
    let head = buffer::filled_slice(buf);
    let t: u8 = head[0];
    let len: usize = buffer::read_u16(head, 1) as usize;
    if total < HDR + len {
        return None;
    }
    buffer::skip_bytes(buf, HDR);
    let payload = buf.split_to(len);
    let ghost end = HDR + len;
    assert(buffer::filled(payload) =~= all.subrange(HDR as int, end));
    assert(buffer::filled(*buf) =~= all.skip(end));
    if t == DATA && len >= 2 {
        let id: u16 = buffer::read_u16(buffer::filled_slice(&payload), 0);
        let chunk = buffer::slice_of(&payload.freeze(), 2, len);
        assert(buffer::held(chunk) =~= all.subrange(HDR as int, end).skip(2));
        return Some(Frame::Data(id, chunk));
    }
    Some(decode(t, buffer::filled_slice(&payload)))
}

/// What a list of frames stands for.
pub open spec fn frame_views(v: Seq<Frame>) -> Seq<FrameView> {
    v.map_values(|f: Frame| f@)
}

/// Parse every full frame from the front of `buf`, consuming them; what is left
/// is the beginning of a frame whose other bytes are still to come.
pub fn drain(buf: &mut BytesMut) -> (r: Vec<Frame>)
    ensures
        frame_views(r@) == all_frames(buffer::filled(*old(buf))).0,
        buffer::filled(*final(buf)) == all_frames(buffer::filled(*old(buf))).1,
{
    let ghost start = buffer::filled(*buf);
    let mut out: Vec<Frame> = Vec::new();
    assert(frame_views(out@) + all_frames(start).0 =~= all_frames(start).0);
    loop
        invariant
            start == buffer::filled(*old(buf)),
            all_frames(start) == (
                frame_views(out@) + all_frames(buffer::filled(*buf)).0,
                all_frames(buffer::filled(*buf)).1,
            ),
        decreases buffer::filled(*buf).len(),
    {
        match parse(buf) {
            Some(frame) => {
                let ghost prev = out@;
                let ghost f = frame@;
                let ghost rest = buffer::filled(*buf);
                out.push(frame);
                assert(frame_views(out@) =~= frame_views(prev).push(f));
                assert(frame_views(prev) + (seq![f] + all_frames(rest).0) =~= frame_views(out@)
                    + all_frames(rest).0);
            },
            None => {
                assert(frame_views(out@) + Seq::<FrameView>::empty() =~= frame_views(out@));
                return out;
            },
        }
    }
}

/// The SHA-256 digest.
pub uninterp spec fn sha256(data: Seq<u8>) -> Seq<u8>;

/// `Sha256::digest` of `data`: it depends on `data` alone.
#[verifier::external_body]
fn sha256_digest(data: &[u8]) -> (r: [u8; 32])
    ensures
        r@ == sha256(data@),
{
    Sha256::digest(data).into()
}

/// sha256 of the shared secret (the base secret material).
pub fn secret_hash(secret: &str) -> (r: [u8; 32])
    ensures
        r@ == sha256(encode_utf8(secret@)),
{
    sha256_digest(secret.as_bytes())
}

} // verus!
