//! Tunnel core: a control channel plus N parallel data channels.
//!
//! - The **control channel** carries AUTH/OK/FAIL, DCOUNT, PROXIES/PROXYACK,
//!   NEW, CLOSE, PING/PONG.
//! - **Data channels** (N TCP connections, all to the server's one shared
//!   data port, each identified by a CHIDX) carry DATA. Connection `id` rides
//!   data channel `id % N`, so data bandwidth scales with N and a slow consumer
//!   on one channel never stalls the others.
//! - Each connection has a **bounded** in-flight buffer (`BUFFER_FRAMES` frames),
//!   giving backpressure + bounded memory.
//!
//! Sockets, tasks and queues are the caller's. What stands here decides: which
//! connection a frame belongs to, what is answered, how bytes are cut into
//! frames and what is left of a write.
use crate::buffer;
use crate::protocol::{Frame, FrameView, MAX_PAYLOAD, PIPE_BATCH};
use crate::protocol;
use crate::text;
use bytes::{Bytes, BytesMut};
use std::collections::HashMap;
use vstd::prelude::*;

verus! {

broadcast use vstd::std_specs::hash::group_hash_axioms;

/// In-flight frames buffered per connection before backpressure kicks in.
/// 64 frames x 64KB ~= 4MB per connection worst case.
pub const BUFFER_FRAMES: usize = 64;

/// Upper bound on live connections per session: a connection flood is dropped
/// at capacity instead of spawning unbounded tasks.
pub const MAX_CONNS: usize = 16384;

/// How often the control-channel liveness deadline is evaluated, in
/// milliseconds.
pub const LIVENESS_CHECK: u64 = 5_000;

/// No control-channel activity for this many milliseconds -> drop the session
/// (3 heartbeat intervals; the heartbeat is 15s). Bounds how long a half-open
/// (no-RST) dead peer holds our resources and public ports.
pub const LIVENESS_DEADLINE: u64 = 45_000;

/// Writer batch high-water mark: a burst of frames already queued is gathered
/// up to this size and shared across one write/segment; a lone frame flushes
/// immediately instead of waiting on a timer.
pub const HIGH_WATER: usize = 256 * 1024;

/// Frames queued for the control channel.
pub const CONTROL_QUEUE: usize = 1024;

/// Frames queued for one data channel.
pub const CHANNEL_QUEUE: usize = 2048;

// ---- connections ----

/// Per-connection table: id -> the in-flight buffer `S` that the connection's
/// pipe drains into the local socket. A connection's NEW, DATA, and CLOSE all
/// ride the same data channel (pinned by `id % n`), so the NEW is always
/// processed before the first DATA.
#[verifier::reject_recursive_types(S)]
pub struct ConnTable<S> {
    pub conns: HashMap<u16, S>,
}

impl<S> View for ConnTable<S> {
    type V = Map<u16, S>;

    open spec fn view(&self) -> Map<u16, S> {
        self.conns@
    }
}

impl<S> ConnTable<S> {
    /// A table without connections.
    pub fn new() -> (r: Self)
        ensures
            r@ == Map::<u16, S>::empty(),
    {
        ConnTable { conns: HashMap::new() }
    }

    /// Registers `id`.
    pub fn register(&mut self, id: u16, buffer: S)
        ensures
            final(self)@ == old(self)@.insert(id, buffer),
    {
        self.conns.insert(id, buffer);
    }

    /// Forgets `id`; its buffer closes once what it holds is drained.
    pub fn remove(&mut self, id: u16)
        ensures
            final(self)@ == old(self)@.remove(id),
    {
        self.conns.remove(&id);
    }

    /// The buffer of `id`.
    pub fn get(&self, id: u16) -> (r: Option<&S>)
        ensures
            match r {
                Some(s) => self@.contains_key(id) && self@[id] == *s,
                None => !self@.contains_key(id),
            },
    {
        self.conns.get(&id)
    }

    /// How many connections are live.
    pub fn len(&self) -> (r: usize)
        ensures
            r == self@.len(),
    {
        self.conns.len()
    }

    /// Forgets every connection (their buffers close -> pipes end).
    pub fn clear(&mut self)
        ensures
            final(self)@ == Map::<u16, S>::empty(),
    {
        self.conns.clear();
    }
}

impl<S> Default for ConnTable<S> {
    fn default() -> (r: Self)
        ensures
            r@ == Map::<u16, S>::empty(),
    {
        ConnTable::new()
    }
}

/// The writer inputs of a session: one per data channel, and one for the
/// control channel.
pub struct Tunnel<C> {
    /// one writer input per data channel (DATA frames for that channel).
    pub chan_out: Vec<C>,
    /// control-channel writer input (NEW/CLOSE/...).
    pub control_out: C,
    /// number of data channels (id % n picks the channel).
    pub n: u8,
}

/// The data channel that connection `id` rides.
pub open spec fn channel_of(id: u16, n: u8) -> int {
    id as int % n as int
}

impl<C> Tunnel<C> {
    /// At least one channel, and an input for each.
    pub open spec fn wf(self) -> bool {
        self.n > 0 && self.chan_out@.len() == self.n
    }

    /// A session with these inputs, one channel for each.
    pub fn new(chan_out: Vec<C>, control_out: C) -> (r: Self)
        requires
            0 < chan_out@.len() <= u8::MAX,
        ensures
            r.wf(),
            r.chan_out == chan_out,
            r.control_out == control_out,
    {
        let n: u8 = chan_out.len() as u8;
        Tunnel { chan_out, control_out, n }
    }

    /// Sender for DATA frames destined to connection `id` (routed by id % n).
    pub fn data_sender(&self, id: u16) -> (r: &C)
        requires
            self.wf(),
        ensures
            *r == self.chan_out@[channel_of(id, self.n)],
            *r == self.chan_out@[id as int % self.n as int],
    {
        let c: usize = (id % self.n as u16) as usize;
        &self.chan_out[c]
    }
}

/// The id of a session's first connection.
pub const FIRST_ID: u16 = 1;

/// The id counter behind `id`; it wraps.
pub open spec fn id_after(id: u16) -> u16 {
    if id == u16::MAX {
        0
    } else {
        (id + 1) as u16
    }
}

/// What became of a connection that arrived on a public port.
#[derive(Debug, PartialEq)]
pub enum Accepted {
    /// the id counter wrapped: drop the connection
    Wrapped,
    /// `MAX_CONNS` connections are live: drop the connection
    AtCapacity,
    /// registered; send `frame` on the data channel of `id`
    Announce { id: u16, frame: Frame },
}

/// SERVER: a connection arrived on a bound public port. Allocate an id (the
/// counter moves on whatever happens), register it, and announce NEW, carrying
/// the local address to reach. NEW goes on the SAME data channel this id's
/// DATA/CLOSE ride, so the client's data reader sees NEW strictly before the
/// first DATA.
pub fn server_on_accept<S>(
    table: &mut ConnTable<S>,
    next_id: &mut u16,
    buffer: S,
    local_host: String,
    local_port: u16,
) -> (r: Accepted)
    ensures
        *final(next_id) == id_after(*old(next_id)),
        old(table)@.len() <= MAX_CONNS ==> final(table)@.len() <= MAX_CONNS,
        match r {
            Accepted::Wrapped => *old(next_id) == 0 && final(table)@ == old(table)@,
            Accepted::AtCapacity => *old(next_id) != 0 && old(table)@.len() >= MAX_CONNS
                && final(table)@ == old(table)@,
            Accepted::Announce { id, frame } => {
                &&& *old(next_id) != 0
                &&& old(table)@.len() < MAX_CONNS
                &&& id == *old(next_id)
                &&& final(table)@ == old(table)@.insert(id, buffer)
                &&& frame@ == (FrameView::New { id, local_host: local_host@, local_port })
            },
        },
{
    let id: u16 = *next_id;
    *next_id = if id == u16::MAX {
        0
    } else {
        id + 1
    };
    if id == 0 {
        return Accepted::Wrapped;
    }
    if table.len() >= MAX_CONNS {
        return Accepted::AtCapacity;
    }
    table.register(id, buffer);
    Accepted::Announce { id, frame: Frame::New { id, local_host, local_port } }
}

/// CLIENT: a NEW arrived and its local address was dialed. Where that failed,
/// the connection is forgotten and the frame to send on the control channel is
/// given.
pub fn client_on_new<S>(table: &mut ConnTable<S>, id: u16, connected: bool) -> (r: Option<Frame>)
    ensures
        connected ==> r is None && final(table)@ == old(table)@,
        !connected ==> {
            &&& r matches Some(f)
            &&& f@ == FrameView::Close(id)
            &&& final(table)@ == old(table)@.remove(id)
        },
{
    if connected {
        None
    } else {
        table.remove(id);
        Some(Frame::Close(id))
    }
}

/// The address to dial for a NEW.
pub fn dial_text(local_host: &str, local_port: u16) -> (r: String)
    ensures
        r@ == text::host_port(local_host@, local_port),
{
    text::host_port_text(local_host, local_port)
}

// ---- reading ----

/// What a frame on a data channel asks for, with `R` the reading end of a
/// connection's buffer.
pub enum DataStep<R> {
    /// client: the connection is registered; dial its local address
    Dial { id: u16, local_host: String, local_port: u16, inbox: R },
    /// hand `data` to the buffer of `id`
    Deliver { id: u16, data: Bytes },
    /// DATA for an id that was never registered here: drop it
    Unregistered { id: u16 },
    /// nothing to do outside the table
    Done,
}

/// The connections that are registered once `f` was read from a data channel;
/// only a side that dials registers on NEW.
pub open spec fn registered_after(ids: Set<u16>, f: FrameView, dials: bool) -> Set<u16> {
    match f {
        FrameView::New { id, .. } => if dials {
            ids.insert(id)
        } else {
            ids
        },
        FrameView::Close(id) => ids.remove(id),
        _ => ids,
    }
}

/// The connection that `f` has bytes for, and the bytes.
pub open spec fn delivery(ids: Set<u16>, f: FrameView) -> Option<(u16, Seq<u8>)> {
    match f {
        FrameView::Data(id, data) => if ids.contains(id) {
            Some((id, data))
        } else {
            None
        },
        _ => None,
    }
}

/// One frame on a data channel: DATA is matched to its connection, and on the
/// client (`dials`) NEW registers a connection, with a buffer that `open`
/// makes, before any of its DATA arrives. CLOSE is ordered after all of an
/// id's DATA, so dropping the buffer then loses no in-flight byte. Other
/// frames on a data channel are ignored.
pub fn on_data_frame<S, R, F: FnOnce() -> (S, R)>(
    table: &mut ConnTable<S>,
    frame: Frame,
    dials: bool,
    open: F,
) -> (r: DataStep<R>)
    requires
        open.requires(()),
    ensures
        match frame@ {
            FrameView::New { id, local_host, local_port } => if dials {
                &&& r matches DataStep::Dial { id: i, local_host: h, local_port: p, inbox }
                &&& i == id && h@ == local_host && p == local_port
                &&& final(table)@ == old(table)@.insert(id, final(table)@[id])
                &&& open.ensures((), (final(table)@[id], inbox))
            } else {
                r is Done && final(table)@ == old(table)@
            },
            FrameView::Data(id, data) => {
                &&& final(table)@ == old(table)@
                &&& if old(table)@.contains_key(id) {
                    r matches DataStep::Deliver { id: i, data: d } && i == id && buffer::held(d)
                        == data
                } else {
                    r matches DataStep::Unregistered { id: i } && i == id
                }
            },
            FrameView::Close(id) => r is Done && final(table)@ == old(table)@.remove(id),
            _ => r is Done && final(table)@ == old(table)@,
        },
        final(table)@.dom() == registered_after(old(table)@.dom(), frame@, dials),
        delivery(old(table)@.dom(), frame@) == match r {
            DataStep::Deliver { id, data } => Some((id, buffer::held(data))),
            _ => None,
        },
{
    match frame {
        Frame::New { id, local_host, local_port } => {
            if dials {
                let (outbox, inbox) = open();
                table.register(id, outbox);
                DataStep::Dial { id, local_host, local_port, inbox }
            } else {
                DataStep::Done
            }
        },
        Frame::Data(id, data) => {
            if table.get(id).is_some() {
                DataStep::Deliver { id, data }
            } else {
                DataStep::Unregistered { id }
            }
        },
        Frame::Close(id) => {
            table.remove(id);
            DataStep::Done
        },
        _ => DataStep::Done,
    }
}

/// One frame on the control channel: PING is answered with the PONG that is
/// given back, and a CLOSE (which normally rides the data channel) tears a
/// single connection down. Other frames are ignored.
pub fn on_control_frame<S>(table: &mut ConnTable<S>, frame: &Frame) -> (r: Option<Frame>)
    ensures
        match frame@ {
            FrameView::Close(id) => r is None && final(table)@ == old(table)@.remove(id),
            FrameView::Ping(nonce) => {
                &&& r matches Some(f)
                &&& f@ == FrameView::Pong(nonce)
                &&& final(table)@ == old(table)@
            },
            _ => r is None && final(table)@ == old(table)@,
        },
{
    match frame {
        Frame::Close(id) => {
            table.remove(*id);
            None
        },
        Frame::Ping(nonce) => Some(Frame::Pong(*nonce)),
        _ => None,
    }
}

/// How long the control channel has been idle, where that is more than
/// `deadline`: the session is to be dropped. The clock is in milliseconds and
/// may be behind `last_seen`.
pub fn liveness(now: u64, last_seen: u64, deadline: u64) -> (r: Option<u64>)
    ensures
        match r {
            Some(idle) => now >= last_seen && idle == now - last_seen && idle > deadline,
            None => now - last_seen <= deadline,
        },
{
    let idle: u64 = if now >= last_seen {
        now - last_seen
    } else {
        0
    };
    if idle > deadline {
        Some(idle)
    } else {
        None
    }
}

// ---- writing ----

/// What the writer of a channel does next.
#[derive(Debug, Clone, Copy, PartialEq, Eq, Structural)]
pub enum WriterStep {
    /// take no frame any more
    Stop,
    /// wait for the first frame of a batch
    Take,
    /// take another frame if one is queued already; write the batch otherwise
    Gather,
    /// write the batch
    Flush,
}

/// What the writer does next. `dead` is raised by the peer direction of the
/// channel dying, `batched` bytes are in hand, and `wrote` says how the write of
/// the batch went, once it is over. A writer that is told of the death between
/// batches takes no frame; one with a batch in hand completes it first (a
/// half-written frame would desync the peer). It stops where a write failed.
pub open spec fn writer_next(dead: bool, batched: nat, wrote: Option<bool>) -> WriterStep {
    match wrote {
        Some(ok) => if !ok || dead {
            WriterStep::Stop
        } else {
            WriterStep::Take
        },
        None => if batched == 0 {
            if dead {
                WriterStep::Stop
            } else {
                WriterStep::Take
            }
        } else if batched < HIGH_WATER {
            WriterStep::Gather
        } else {
            WriterStep::Flush
        },
    }
}

/// What the writer of a channel does next.
pub fn writer_step(dead: bool, batched: usize, wrote: Option<bool>) -> (r: WriterStep)
    ensures
        r == writer_next(dead, batched as nat, wrote),
        dead && batched == 0 ==> r is Stop,
        batched > 0 && wrote is None ==> r is Gather || r is Flush,
        wrote == Some(false) ==> r is Stop,
{
    match wrote {
        Some(ok) => if !ok || dead {
            WriterStep::Stop
        } else {
            WriterStep::Take
        },
        None => if batched == 0 {
            if dead {
                WriterStep::Stop
            } else {
                WriterStep::Take
            }
        } else if batched < HIGH_WATER {
            WriterStep::Gather
        } else {
            WriterStep::Flush
        },
    }
}

/// Adds `frame` to a batch, and says whether the batch takes another frame if
/// one is queued already (`WriterStep::Gather`). A lone frame is written immediately; a burst is
/// gathered up to `HIGH_WATER` and shared across one write.
pub fn batch_frame(buf: &mut BytesMut, frame: &Frame) -> (more: bool)
    requires
        buffer::filled(*old(buf)).len() < HIGH_WATER,
        protocol::payload_of(frame@).len() <= u16::MAX,
    ensures
        buffer::filled(*final(buf)) == buffer::filled(*old(buf)) + protocol::wire(frame@),
        more == (buffer::filled(*final(buf)).len() < HIGH_WATER),
{
    protocol::encode(buf, frame);
    buf.len() < HIGH_WATER
}

/// The parts from which bytes are still to be written: each with its index and
/// the offset of its first unwritten byte.
pub open spec fn unsent_parts(lens: Seq<usize>, consumed: Seq<usize>) -> Seq<(usize, usize)>
    decreases lens.len(),
{
    if lens.len() == 0 {
        Seq::empty()
    } else {
        let earlier = unsent_parts(lens.drop_last(), consumed.drop_last());
        if consumed.last() < lens.last() {
            earlier.push(((lens.len() - 1) as usize, consumed.last()))
        } else {
            earlier
        }
    }
}

/// The parts from which bytes are still to be written, in order; none of them
/// where all is written. `consumed` says how much of each part is written.
pub fn unsent(lens: &Vec<usize>, consumed: &Vec<usize>) -> (r: Vec<(usize, usize)>)
    requires
        consumed@.len() == lens@.len(),
    ensures
        r@ == unsent_parts(lens@, consumed@),
{
    let mut out: Vec<(usize, usize)> = Vec::new();
    let mut i: usize = 0;
    while i < lens.len()
        invariant
            consumed@.len() == lens@.len(),
            i <= lens@.len(),
            out@ == unsent_parts(lens@.take(i as int), consumed@.take(i as int)),
        decreases lens@.len() - i,
    {
        assert(lens@.take(i + 1).drop_last() =~= lens@.take(i as int));
        assert(consumed@.take(i + 1).drop_last() =~= consumed@.take(i as int));
        if consumed[i] < lens[i] {
            out.push((i, consumed[i]));
        }
        i = i + 1;
    }
    assert(lens@.take(i as int) =~= lens@);
    assert(consumed@.take(i as int) =~= consumed@);
    out
}

/// How much of each part is written once `n` bytes more are: they fill the
/// parts in order.
pub open spec fn after_write(lens: Seq<usize>, consumed: Seq<usize>, n: nat) -> Seq<usize>
    decreases lens.len(),
{
    if lens.len() == 0 {
        Seq::empty()
    } else {
        let avail = lens[0] - consumed[0];
        let here = if n < avail {
            n as int
        } else {
            avail
        };
        seq![(consumed[0] + here) as usize] + after_write(
            lens.skip(1),
            consumed.skip(1),
            (n - here) as nat,
        )
    }
}

/// No part is written further than its end.
pub open spec fn within(lens: Seq<usize>, consumed: Seq<usize>) -> bool {
    &&& consumed.len() == lens.len()
    &&& forall|i: int| 0 <= i < lens.len() ==> consumed[i] <= #[trigger] lens[i]
}

/// Notes that `n` bytes more were written.
pub fn mark_written(lens: &Vec<usize>, consumed: &mut Vec<usize>, n: usize)
    requires
        within(lens@, old(consumed)@),
    ensures
        final(consumed)@ == after_write(lens@, old(consumed)@, n as nat),
        within(lens@, final(consumed)@),
{
    let ghost start = consumed@;
    let mut rem: usize = n;
    let mut i: usize = 0;
    assert(lens@.skip(0) =~= lens@);
    assert(start.skip(0) =~= start);
    assert(Seq::<usize>::empty() + after_write(lens@, start, n as nat) =~= after_write(
        lens@,
        start,
        n as nat,
    ));
    assert(consumed@.take(0) =~= Seq::<usize>::empty());
    while i < lens.len()
        invariant
            within(lens@, start),
            within(lens@, consumed@),
            i <= lens@.len(),
            consumed@.skip(i as int) == start.skip(i as int),
            consumed@.take(i as int) + after_write(
                lens@.skip(i as int),
                start.skip(i as int),
                rem as nat,
            ) == after_write(lens@, start, n as nat),
        decreases lens@.len() - i,
    {
        let ghost prev = consumed@;
        let ghost rest = rem;
        let o: usize = consumed[i];
        assert(o == start.skip(i as int)[0]) by {
            assert(consumed@.skip(i as int)[0] == o);
        }
        let len: usize = lens[i];
        let avail: usize = len - o;
        let here: usize = if rem < avail {
            rem
        } else {
            avail
        };
        consumed.set(i, o + here);
        rem = rem - here;
        proof {
            assert(lens@.skip(i as int).skip(1) =~= lens@.skip(i + 1));
            assert(start.skip(i as int).skip(1) =~= start.skip(i + 1));
            assert(prev.skip(i as int).skip(1) =~= prev.skip(i + 1));
            assert(consumed@.skip(i + 1) =~= prev.skip(i + 1));
            let tail = after_write(lens@.skip(i + 1), start.skip(i + 1), rem as nat);
            assert(after_write(lens@.skip(i as int), start.skip(i as int), rest as nat)
                == seq![(o + here) as usize] + tail);
            assert(consumed@.take(i + 1) + tail =~= prev.take(i as int) + (seq![
                (o + here) as usize,
            ] + tail));
        }
        i = i + 1;
    }
    assert(consumed@.take(i as int) + Seq::<usize>::empty() =~= consumed@);
}

/// `data` cut into chunks of `MAX_PAYLOAD` bytes, the last one of what is left.
pub open spec fn chunks(data: Seq<u8>) -> Seq<Seq<u8>>
    decreases data.len(),
{
    if data.len() == 0 {
        Seq::empty()
    } else if data.len() <= MAX_PAYLOAD {
        seq![data]
    } else {
        seq![data.take(MAX_PAYLOAD as int)] + chunks(data.skip(MAX_PAYLOAD as int))
    }
}

/// The frames that carry `data` of connection `id`.
pub open spec fn data_frames_of(id: u16, data: Seq<u8>) -> Seq<FrameView> {
    chunks(data).map_values(|c: Seq<u8>| FrameView::Data(id, c))
}

/// The frames that carry `data` of connection `id`. A chunk shares the
/// allocation of `data`: nothing is copied.
pub fn data_frames(id: u16, data: &Bytes) -> (r: Vec<Frame>)
    ensures
        protocol::frame_views(r@) == data_frames_of(id, buffer::held(*data)),
{
    let ghost all = buffer::held(*data);
    let mut out: Vec<Frame> = Vec::new();
    let mut off: usize = 0;
    assert(all.skip(0) =~= all);
    assert(protocol::frame_views(out@) + data_frames_of(id, all) =~= data_frames_of(id, all));
    while off < data.len()
        invariant
            all == buffer::held(*data),
            off <= all.len(),
            protocol::frame_views(out@) + data_frames_of(id, all.skip(off as int)) == data_frames_of(
                id,
                all,
            ),
        decreases all.len() - off,
    {
        let left: usize = data.len() - off;
        let end: usize = if left > MAX_PAYLOAD {
            off + MAX_PAYLOAD
        } else {
            data.len()
        };
        let chunk = buffer::slice_of(data, off, end);
        let ghost c = all.subrange(off as int, end as int);
        let ghost prev = out@;
        let frame = Frame::Data(id, chunk);
        proof {
            let rest = all.skip(off as int);
            assert(rest.skip(end - off) =~= all.skip(end as int));
            if left > MAX_PAYLOAD {
                assert(rest.take(MAX_PAYLOAD as int) =~= c);
            } else {
                assert(rest =~= c);
                assert(chunks(all.skip(end as int)) =~= Seq::empty());
            }
            assert(chunks(rest) =~= seq![c] + chunks(all.skip(end as int)));
            assert(data_frames_of(id, rest) =~= seq![frame@] + data_frames_of(
                id,
                all.skip(end as int),
            ));
        }
        out.push(frame);
        assert(protocol::frame_views(out@) =~= protocol::frame_views(prev).push(frame@));
        off = end;
        assert(protocol::frame_views(out@) + data_frames_of(id, all.skip(off as int)) =~= protocol::frame_views(prev)
            + data_frames_of(id, all.skip(off - c.len())));
    }
    assert(chunks(all.skip(off as int)) =~= Seq::empty());
    assert(protocol::frame_views(out@) + data_frames_of(id, all.skip(off as int)) =~= protocol::frame_views(out@));
    out
}

/// A burst of payloads to be shared across one write to a socket.
pub struct WriteBatch {
    pub parts: Vec<Bytes>,
    pub size: usize,
}

/// What the parts of a batch hold.
pub open spec fn part_bytes(parts: Seq<Bytes>) -> Seq<Seq<u8>> {
    parts.map_values(|b: Bytes| buffer::held(b))
}

impl WriteBatch {
    /// The size is that of the parts together.
    pub open spec fn wf(self) -> bool {
        self.size == buffer::concat(part_bytes(self.parts@)).len()
    }

    /// A batch without payloads.
    pub fn new() -> (r: Self)
        ensures
            r.wf(),
            r.parts@ == Seq::<Bytes>::empty(),
    {
        let r = WriteBatch { parts: Vec::new(), size: 0 };
        assert(part_bytes(r.parts@) =~= Seq::empty());
        r
    }

    /// Adds a payload, and says whether the batch takes another one if it is
    /// queued already.
    pub fn push(&mut self, part: Bytes) -> (more: bool)
        requires
            old(self).wf(),
            old(self).size + buffer::held(part).len() <= usize::MAX,
        ensures
            final(self).wf(),
            final(self).parts@ == old(self).parts@.push(part),
            more == (buffer::concat(part_bytes(final(self).parts@)).len() < PIPE_BATCH),
    {
        proof {
            assert(part_bytes(self.parts@.push(part)) =~= part_bytes(self.parts@).push(
                buffer::held(part),
            ));
            buffer::lemma_concat_push(part_bytes(self.parts@), buffer::held(part));
        }
        self.size = self.size + part.len();
        self.parts.push(part);
        self.size < PIPE_BATCH
    }

    /// The length of each payload.
    pub fn lens(&self) -> (r: Vec<usize>)
        ensures
            r@.len() == self.parts@.len(),
            forall|i: int|
                0 <= i < r@.len() ==> #[trigger] r@[i] == buffer::held(self.parts@[i]).len(),
    {
        let mut out: Vec<usize> = Vec::new();
        let mut i: usize = 0;
        while i < self.parts.len()
            invariant
                i <= self.parts@.len(),
                out@.len() == i,
                forall|k: int|
                    0 <= k < i ==> #[trigger] out@[k] == buffer::held(self.parts@[k]).len(),
            decreases self.parts@.len() - i,
        {
            out.push(self.parts[i].len());
            i = i + 1;
        }
        out
    }
}

/// The local->tunnel direction of a connection: whether it is still open.
/// CLOSE goes out once, behind all DATA, when the local side has no more bytes
/// or the channel takes none; the other direction goes on until the peer's
/// CLOSE.
pub struct Outbound {
    pub id: u16,
    pub open: bool,
}

impl Outbound {
    /// The direction at its start.
    pub fn new(id: u16) -> (r: Self)
        ensures
            r.id == id,
            r.open,
    {
        Outbound { id, open: true }
    }

    /// The frames to send for one read of the local socket: `None` where it
    /// failed. A read of no bytes is the end of the local side.
    pub fn on_read(&mut self, read: Option<Bytes>) -> (r: Vec<Frame>)
        requires
            old(self).open,
        ensures
            final(self).id == old(self).id,
            match read {
                Some(data) => if buffer::held(data).len() > 0 {
                    final(self).open && protocol::frame_views(r@) == data_frames_of(
                        old(self).id,
                        buffer::held(data),
                    )
                } else {
                    !final(self).open && protocol::frame_views(r@) == seq![FrameView::Close(old(self).id)]
                },
                None => !final(self).open && protocol::frame_views(r@) == seq![FrameView::Close(old(self).id)],
            },
    {
        if let Some(data) = read {
            if data.len() > 0 {
                return data_frames(self.id, &data);
            }
        }
        self.on_send_failed()
    }

    /// The frames to send when the channel did not take one.
    pub fn on_send_failed(&mut self) -> (r: Vec<Frame>)
        requires
            old(self).open,
        ensures
            final(self).id == old(self).id,
            !final(self).open,
            protocol::frame_views(r@) == seq![FrameView::Close(old(self).id)],
    {
        self.open = false;
        let mut out: Vec<Frame> = Vec::new();
        out.push(Frame::Close(self.id));
        assert(protocol::frame_views(out@) =~= seq![FrameView::Close(self.id)]);
        out
    }
}

} // verus!
