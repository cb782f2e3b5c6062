//! What holds of the tunnel as a whole: the bytes that go in at one end come
//! out at the other, in order, each once.
use crate::buffer;
use crate::protocol::{FrameView, MAX_PAYLOAD};
use crate::protocol;
use crate::tunnel::WriterStep;
use crate::tunnel;
use crate::wire_laws;
use vstd::prelude::*;

verus! {

/// Every connection rides a channel that the session has, and always the same
/// one: NEW, DATA and CLOSE of an id keep their order.
pub proof fn law_channel_in_range(id: u16, n: u8)
    requires
        n > 0,
    ensures
        0 <= tunnel::channel_of(id, n) < n,
{
}

/// `data` is its chunks, one after the other; none of them is empty or too
/// long for a DATA frame.
pub proof fn law_chunks(data: Seq<u8>)
    ensures
        buffer::concat(tunnel::chunks(data)) == data,
        forall|i: int|
            0 <= i < tunnel::chunks(data).len() ==> 0 < (#[trigger] tunnel::chunks(data)[i]).len()
                <= MAX_PAYLOAD,
    decreases data.len(),
{
    if data.len() == 0 {
        assert(buffer::concat(tunnel::chunks(data)) =~= data);
    } else if data.len() <= MAX_PAYLOAD {
        buffer::lemma_concat_one(data);
    } else {
        let head = data.take(MAX_PAYLOAD as int);
        let tail = data.skip(MAX_PAYLOAD as int);
        law_chunks(tail);
        buffer::lemma_concat_first(tunnel::chunks(data));
        assert(tunnel::chunks(data).skip(1) =~= tunnel::chunks(tail));
        assert(head + tail =~= data);
    }
}

/// The frames that a connection sends for these reads of its local socket, to
/// its end.
pub open spec fn sent_frames(id: u16, reads: Seq<Seq<u8>>) -> Seq<FrameView>
    decreases reads.len(),
{
    if reads.len() == 0 {
        seq![FrameView::Close(id)]
    } else {
        tunnel::data_frames_of(id, reads[0]) + sent_frames(id, reads.skip(1))
    }
}

/// The bytes that connection `id` gets out of `frames`, read from a data
/// channel by a side on which `ids` are registered.
pub open spec fn bytes_for(id: u16, ids: Set<u16>, frames: Seq<FrameView>, dials: bool) -> Seq<u8>
    decreases frames.len(),
{
    if frames.len() == 0 {
        Seq::empty()
    } else {
        let here = match tunnel::delivery(ids, frames[0]) {
            Some((i, data)) => if i == id {
                data
            } else {
                Seq::empty()
            },
            None => Seq::empty(),
        };
        here + bytes_for(
            id,
            tunnel::registered_after(ids, frames[0], dials),
            frames.skip(1),
            dials,
        )
    }
}

/// Is `f` about connection `id`?
pub open spec fn concerns(id: u16, f: FrameView) -> bool {
    match f {
        FrameView::New { id: i, .. } => i == id,
        FrameView::Close(i) => i == id,
        FrameView::Data(i, _) => i == id,
        _ => false,
    }
}

/// The frames about connection `id`, in order.
pub open spec fn own(id: u16, frames: Seq<FrameView>) -> Seq<FrameView>
    decreases frames.len(),
{
    if frames.len() == 0 {
        Seq::empty()
    } else if concerns(id, frames[0]) {
        seq![frames[0]] + own(id, frames.skip(1))
    } else {
        own(id, frames.skip(1))
    }
}

proof fn lemma_own_bytes(
    id: u16,
    ids: Set<u16>,
    others: Set<u16>,
    frames: Seq<FrameView>,
    dials: bool,
)
    requires
        ids.contains(id) == others.contains(id),
    ensures
        bytes_for(id, ids, frames, dials) == bytes_for(id, others, own(id, frames), dials),
    decreases frames.len(),
{
    if frames.len() > 0 {
        let f = frames[0];
        let rest = frames.skip(1);
        let next = tunnel::registered_after(ids, f, dials);
        if concerns(id, f) {
            let next2 = tunnel::registered_after(others, f, dials);
            lemma_own_bytes(id, next, next2, rest, dials);
            assert((seq![f] + own(id, rest)).skip(1) =~= own(id, rest));
        } else {
            lemma_own_bytes(id, next, others, rest, dials);
            assert(Seq::<u8>::empty() + bytes_for(id, next, rest, dials) =~= bytes_for(
                id,
                next,
                rest,
                dials,
            ));
        }
    }
}

/// What other connections send on the same channel does not change what a
/// connection gets.
pub proof fn law_connections_apart(id: u16, ids: Set<u16>, frames: Seq<FrameView>, dials: bool)
    ensures
        bytes_for(id, ids, frames, dials) == bytes_for(id, ids, own(id, frames), dials),
{
    lemma_own_bytes(id, ids, ids, frames, dials);
}

proof fn lemma_data_bytes(
    id: u16,
    ids: Set<u16>,
    parts: Seq<Seq<u8>>,
    rest: Seq<FrameView>,
    dials: bool,
)
    requires
        ids.contains(id),
    ensures
        bytes_for(
            id,
            ids,
            parts.map_values(|c: Seq<u8>| FrameView::Data(id, c)) + rest,
            dials,
        ) == buffer::concat(parts) + bytes_for(id, ids, rest, dials),
    decreases parts.len(),
{
    let g = |c: Seq<u8>| FrameView::Data(id, c);
    let frames = parts.map_values(g) + rest;
    if parts.len() == 0 {
        assert(frames =~= rest);
        assert(buffer::concat(parts) =~= Seq::<u8>::empty());
        assert(Seq::<u8>::empty() + bytes_for(id, ids, rest, dials) =~= bytes_for(
            id,
            ids,
            rest,
            dials,
        ));
    } else {
        let tail = parts.skip(1);
        assert(frames.skip(1) =~= tail.map_values(g) + rest);
        lemma_data_bytes(id, ids, tail, rest, dials);
        buffer::lemma_concat_first(parts);
        assert(parts[0] + (buffer::concat(tail) + bytes_for(id, ids, rest, dials)) =~= (parts[0]
            + buffer::concat(tail)) + bytes_for(id, ids, rest, dials));
    }
}

/// A registered connection gets all the bytes that its peer read, in order.
pub proof fn law_bytes_delivered(id: u16, ids: Set<u16>, reads: Seq<Seq<u8>>, dials: bool)
    requires
        ids.contains(id),
    ensures
        bytes_for(id, ids, sent_frames(id, reads), dials) == buffer::concat(reads),
    decreases reads.len(),
{
    if reads.len() == 0 {
        let frames = sent_frames(id, reads);
        assert(frames.skip(1) =~= Seq::empty());
        assert(bytes_for(id, ids.remove(id), frames.skip(1), dials) =~= Seq::<u8>::empty());
        assert(bytes_for(id, ids, frames, dials) =~= Seq::<u8>::empty());
    } else {
        let rest = sent_frames(id, reads.skip(1));
        lemma_data_bytes(id, ids, tunnel::chunks(reads[0]), rest, dials);
        law_chunks(reads[0]);
        law_bytes_delivered(id, ids, reads.skip(1), dials);
        buffer::lemma_concat_first(reads);
    }
}

/// On the side that dials, NEW registers a connection before its first byte, so
/// that it gets all of them.
pub proof fn law_new_before_data(
    id: u16,
    local_host: Seq<char>,
    local_port: u16,
    ids: Set<u16>,
    reads: Seq<Seq<u8>>,
)
    ensures
        bytes_for(
            id,
            ids,
            seq![FrameView::New { id, local_host, local_port }] + sent_frames(id, reads),
            true,
        ) == buffer::concat(reads),
{
    let frames = seq![FrameView::New { id, local_host, local_port }] + sent_frames(id, reads);
    assert(frames.skip(1) =~= sent_frames(id, reads));
    law_bytes_delivered(id, ids.insert(id), reads, true);
    assert(Seq::<u8>::empty() + buffer::concat(reads) =~= buffer::concat(reads));
}

/// All that a connection sends can be carried by the wire.
pub proof fn law_sent_frames_encodable(id: u16, reads: Seq<Seq<u8>>)
    ensures
        forall|i: int|
            0 <= i < sent_frames(id, reads).len() ==> wire_laws::encodable(
                #[trigger] sent_frames(id, reads)[i],
            ),
    decreases reads.len(),
{
    if reads.len() > 0 {
        law_chunks(reads[0]);
        law_sent_frames_encodable(id, reads.skip(1));
        let head = tunnel::data_frames_of(id, reads[0]);
        let tail = sent_frames(id, reads.skip(1));
        assert forall|i: int| 0 <= i < sent_frames(id, reads).len() implies wire_laws::encodable(
            #[trigger] sent_frames(id, reads)[i],
        ) by {
            if i < head.len() {
                assert(0 < tunnel::chunks(reads[0])[i].len() <= MAX_PAYLOAD);
                assert(sent_frames(id, reads)[i] == FrameView::Data(
                    id,
                    tunnel::chunks(reads[0])[i],
                ));
            } else {
                assert(sent_frames(id, reads)[i] == tail[i - head.len()]);
            }
        }
    }
}

/// The tunnel from end to end: whatever else is on the channel, a registered
/// connection gets exactly the bytes that were read at the other end, in
/// order.
pub proof fn law_end_to_end(
    id: u16,
    ids: Set<u16>,
    reads: Seq<Seq<u8>>,
    channel: Seq<FrameView>,
    dials: bool,
)
    requires
        ids.contains(id),
        forall|i: int| 0 <= i < channel.len() ==> wire_laws::encodable(#[trigger] channel[i]),
        own(id, channel) == sent_frames(id, reads),
    ensures
        bytes_for(
            id,
            ids,
            protocol::all_frames(wire_laws::stream(channel)).0,
            dials,
        ) == buffer::concat(reads),
{
    wire_laws::law_stream(channel);
    law_connections_apart(id, ids, channel, dials);
    law_bytes_delivered(id, ids, reads, dials);
}

/// The same from the NEW of a connection on, on the side that dials: there a
/// connection need not be registered before.
pub proof fn law_end_to_end_from_new(
    id: u16,
    local_host: Seq<char>,
    local_port: u16,
    ids: Set<u16>,
    reads: Seq<Seq<u8>>,
    channel: Seq<FrameView>,
)
    requires
        forall|i: int| 0 <= i < channel.len() ==> wire_laws::encodable(#[trigger] channel[i]),
        own(id, channel) == seq![FrameView::New { id, local_host, local_port }] + sent_frames(
            id,
            reads,
        ),
    ensures
        bytes_for(
            id,
            ids,
            protocol::all_frames(wire_laws::stream(channel)).0,
            true,
        ) == buffer::concat(reads),
{
    wire_laws::law_stream(channel);
    law_connections_apart(id, ids, channel, true);
    law_new_before_data(id, local_host, local_port, ids, reads);
}

/// The writer of a channel on one attach.
#[verifier::ext_equal]
pub struct Writer {
    /// the frames that are or will be queued for the channel, in order
    pub queue: Seq<FrameView>,
    /// the frames in hand
    pub batch: Seq<FrameView>,
    /// the frames that were written in full
    pub out: Seq<FrameView>,
    /// it takes no frame any more
    pub stopped: bool,
    /// a write failed: the batch in hand is on the wire in part at most
    pub failed: bool,
}

/// What a writer meets at one of its steps.
pub struct WriterEvent {
    /// the other direction of the channel is dead
    pub dead: bool,
    /// a frame is queued
    pub ready: bool,
    /// a write gets through
    pub wrote: bool,
}

/// The writer at the start of an attach.
pub open spec fn attached_to(queue: Seq<FrameView>) -> Writer {
    Writer { queue, batch: Seq::empty(), out: Seq::empty(), stopped: false, failed: false }
}

/// The writer with the next frame in hand.
pub open spec fn with_next(w: Writer) -> Writer {
    Writer { queue: w.queue.skip(1), batch: w.batch.push(w.queue[0]), ..w }
}

/// The writer once the write of its batch is over.
pub open spec fn with_written(w: Writer, e: WriterEvent) -> Writer {
    let stopped = tunnel::writer_next(
        e.dead,
        wire_laws::stream(w.batch).len(),
        Some(e.wrote),
    ) is Stop;
    if e.wrote {
        Writer { batch: Seq::empty(), out: w.out + w.batch, stopped, ..w }
    } else {
        Writer { stopped, failed: true, ..w }
    }
}

/// One step of the writer.
pub open spec fn writer_after(w: Writer, e: WriterEvent) -> Writer {
    let ready = e.ready && w.queue.len() > 0;
    if w.stopped {
        w
    } else {
        match tunnel::writer_next(e.dead, wire_laws::stream(w.batch).len(), None) {
            WriterStep::Stop => Writer { stopped: true, ..w },
            WriterStep::Take => if ready {
                with_next(w)
            } else {
                w
            },
            WriterStep::Gather => if ready {
                with_next(w)
            } else {
                with_written(w, e)
            },
            WriterStep::Flush => with_written(w, e),
        }
    }
}

/// The writer after these steps.
pub open spec fn writer_run(w: Writer, events: Seq<WriterEvent>) -> Writer
    decreases events.len(),
{
    if events.len() == 0 {
        w
    } else {
        writer_run(writer_after(w, events[0]), events.skip(1))
    }
}

/// All frames that a writer has seen or will see.
spec fn all_of(w: Writer) -> Seq<FrameView> {
    w.out + w.batch + w.queue
}

/// A writer that stopped has nothing in hand, unless a write failed.
spec fn settled(w: Writer) -> bool {
    &&& w.stopped && !w.failed ==> w.batch.len() == 0
    &&& w.failed ==> w.stopped
}

proof fn lemma_empty_stream(frames: Seq<FrameView>)
    requires
        wire_laws::stream(frames).len() == 0,
    ensures
        frames.len() == 0,
{
    if frames.len() > 0 {
        assert(frames =~= frames.drop_last().push(frames.last()));
        wire_laws::lemma_stream_push(frames.drop_last(), frames.last());
    }
}

proof fn lemma_writer_step(w: Writer, e: WriterEvent)
    requires
        settled(w),
    ensures
        settled(writer_after(w, e)),
        all_of(writer_after(w, e)) == all_of(w),
{
    let next = writer_after(w, e);
    if wire_laws::stream(w.batch).len() == 0 {
        lemma_empty_stream(w.batch);
    }
    assert(all_of(next) =~= all_of(w));
}

proof fn lemma_writer_run(w: Writer, events: Seq<WriterEvent>)
    requires
        settled(w),
    ensures
        settled(writer_run(w, events)),
        all_of(writer_run(w, events)) == all_of(w),
    decreases events.len(),
{
    if events.len() > 0 {
        lemma_writer_step(w, events[0]);
        lemma_writer_run(writer_after(w, events[0]), events.skip(1));
    }
}

/// Whatever a writer meets, it keeps the frames in order, each once: those that
/// it wrote in full, those in hand, and those still queued. Where it stopped
/// and no write failed, it has none in hand.
pub proof fn law_writer_keeps_frames(queue: Seq<FrameView>, events: Seq<WriterEvent>)
    ensures
        ({
            let w = writer_run(attached_to(queue), events);
            &&& w.out + w.batch + w.queue == queue
            &&& w.stopped && !w.failed ==> w.batch.len() == 0
        }),
{
    lemma_writer_run(attached_to(queue), events);
    assert(all_of(attached_to(queue)) =~= queue);
}

/// A writer that is told of the death of its channel stops: at once between two
/// batches, and with its batch written in full otherwise.
pub proof fn law_writer_finishes_batch(w: Writer, e: WriterEvent)
    requires
        !w.stopped,
        e.dead,
        !e.ready,
        e.wrote,
    ensures
        ({
            let next = writer_after(w, e);
            &&& next.stopped && next.failed == w.failed
            &&& next.out == w.out + w.batch
            &&& next.batch.len() == 0
            &&& next.queue == w.queue
        }),
{
    if wire_laws::stream(w.batch).len() == 0 {
        lemma_empty_stream(w.batch);
        assert(w.out + w.batch =~= w.out);
    }
}

/// The frames that come out of several attaches of a channel, each with a
/// connection of its own, and those that are still queued behind them.
pub open spec fn flapped(queue: Seq<FrameView>, attaches: Seq<Seq<WriterEvent>>) -> (
    Seq<FrameView>,
    Seq<FrameView>,
)
    decreases attaches.len(),
{
    if attaches.len() == 0 {
        (Seq::empty(), queue)
    } else {
        let (read, left) = flapped(queue, attaches.drop_last());
        let w = writer_run(attached_to(left), attaches.last());
        (read + protocol::all_frames(wire_laws::stream(w.out)).0, w.queue)
    }
}

/// Did the writer of each attach stop by itself, with no write failed?
pub open spec fn no_write_failed(queue: Seq<FrameView>, attaches: Seq<Seq<WriterEvent>>) -> bool
    decreases attaches.len(),
{
    attaches.len() > 0 ==> {
        let w = writer_run(
            attached_to(flapped(queue, attaches.drop_last()).1),
            attaches.last(),
        );
        &&& no_write_failed(queue, attaches.drop_last())
        &&& w.stopped && !w.failed
    }
}

proof fn lemma_middle_encodable(
    a: Seq<FrameView>,
    b: Seq<FrameView>,
    c: Seq<FrameView>,
    all: Seq<FrameView>,
)
    requires
        all == a + (b + c),
        forall|i: int| 0 <= i < all.len() ==> wire_laws::encodable(#[trigger] all[i]),
    ensures
        forall|i: int| 0 <= i < b.len() ==> wire_laws::encodable(#[trigger] b[i]),
{
    assert forall|i: int| 0 <= i < b.len() implies wire_laws::encodable(#[trigger] b[i]) by {
        assert(all[a.len() + i] == b[i]);
    }
}

/// A flap costs latency, not data: where no write fails, the frames that are
/// queued for a channel come out all, in order, each once, over however many
/// attaches; what did not come out yet is still queued.
pub proof fn law_flap_lossless(queue: Seq<FrameView>, attaches: Seq<Seq<WriterEvent>>)
    requires
        forall|i: int| 0 <= i < queue.len() ==> wire_laws::encodable(#[trigger] queue[i]),
        no_write_failed(queue, attaches),
    ensures
        flapped(queue, attaches).0 + flapped(queue, attaches).1 == queue,
    decreases attaches.len(),
{
    if attaches.len() == 0 {
        assert(Seq::<FrameView>::empty() + queue =~= queue);
    } else {
        let (read, left) = flapped(queue, attaches.drop_last());
        let w = writer_run(attached_to(left), attaches.last());
        law_flap_lossless(queue, attaches.drop_last());
        law_writer_keeps_frames(left, attaches.last());
        assert(w.out + w.batch + w.queue =~= w.out + w.queue);
        lemma_middle_encodable(read, w.out, w.queue, queue);
        wire_laws::law_stream(w.out);
        assert(read + w.out + w.queue =~= read + (w.out + w.queue));
    }
}

/// Where no write fails and nothing is left queued, a registered connection gets
/// exactly the bytes that were read at the other end, in order, over however
/// many attaches of its channel.
pub proof fn law_bytes_survive_flaps(
    id: u16,
    ids: Set<u16>,
    reads: Seq<Seq<u8>>,
    queue: Seq<FrameView>,
    attaches: Seq<Seq<WriterEvent>>,
    dials: bool,
)
    requires
        ids.contains(id),
        forall|i: int| 0 <= i < queue.len() ==> wire_laws::encodable(#[trigger] queue[i]),
        no_write_failed(queue, attaches),
        flapped(queue, attaches).1.len() == 0,
        own(id, queue) == sent_frames(id, reads),
    ensures
        bytes_for(id, ids, flapped(queue, attaches).0, dials) == buffer::concat(reads),
{
    law_flap_lossless(queue, attaches);
    assert(flapped(queue, attaches).0 =~= queue);
    law_connections_apart(id, ids, queue, dials);
    law_bytes_delivered(id, ids, reads, dials);
}

/// A write that fails costs the batch in hand at most: the reader gets all that
/// was written in full, then some first frames of that batch and nothing else,
/// and what was not taken yet is still queued.
pub proof fn law_write_failure(
    queue: Seq<FrameView>,
    events: Seq<WriterEvent>,
    k: int,
) -> (j: int)
    requires
        forall|i: int| 0 <= i < queue.len() ==> wire_laws::encodable(#[trigger] queue[i]),
        0 <= k <= wire_laws::stream(writer_run(attached_to(queue), events).batch).len(),
    ensures
        ({
            let w = writer_run(attached_to(queue), events);
            let sent = wire_laws::stream(w.out) + wire_laws::stream(w.batch).take(k);
            &&& 0 <= j <= w.batch.len()
            &&& protocol::all_frames(sent).0 == w.out + w.batch.take(j)
            &&& w.out + w.batch + w.queue == queue
        }),
{
    let w = writer_run(attached_to(queue), events);
    law_writer_keeps_frames(queue, events);
    assert forall|i: int| 0 <= i < w.out.len() implies wire_laws::encodable(
        #[trigger] w.out[i],
    ) by {
        assert(queue[i] == w.out[i]);
    }
    assert forall|i: int| 0 <= i < w.batch.len() implies wire_laws::encodable(
        #[trigger] w.batch[i],
    ) by {
        assert(queue[w.out.len() + i] == w.batch[i]);
    }
    let cut = wire_laws::stream(w.batch).take(k);
    wire_laws::law_stream(w.out);
    wire_laws::law_reassembly(wire_laws::stream(w.out), cut);
    assert(Seq::<u8>::empty() + cut =~= cut);
    wire_laws::law_cut_stream(w.batch, k)
}

/// A batch never holds more than the high-water mark and one frame.
pub proof fn law_batch_bounded(batch: Seq<u8>, f: FrameView)
    requires
        batch.len() < tunnel::HIGH_WATER,
        protocol::payload_of(f).len() <= u16::MAX,
    ensures
        (batch + protocol::wire(f)).len() < tunnel::HIGH_WATER + protocol::HDR + 65536,
{
}

/// The bytes of `parts` that are still to be written.
pub open spec fn left(parts: Seq<Seq<u8>>, consumed: Seq<usize>) -> Seq<u8> {
    buffer::concat(Seq::new(parts.len(), |i: int| parts[i].skip(consumed[i] as int)))
}

/// `lens` are the lengths of `parts`.
pub open spec fn lens_of(parts: Seq<Seq<u8>>, lens: Seq<usize>) -> bool {
    &&& lens.len() == parts.len()
    &&& forall|i: int| 0 <= i < parts.len() ==> #[trigger] lens[i] == parts[i].len()
}

proof fn lemma_left_first(parts: Seq<Seq<u8>>, consumed: Seq<usize>)
    requires
        parts.len() > 0,
        consumed.len() == parts.len(),
    ensures
        left(parts, consumed) == parts[0].skip(consumed[0] as int) + left(
            parts.skip(1),
            consumed.skip(1),
        ),
{
    let all = Seq::new(parts.len(), |i: int| parts[i].skip(consumed[i] as int));
    let tail = parts.skip(1);
    let ctail = consumed.skip(1);
    buffer::lemma_concat_first(all);
    assert(all.skip(1) =~= Seq::new(tail.len(), |i: int| tail[i].skip(ctail[i] as int)));
}

/// A partial write loses no byte and repeats none: what is left after `n` bytes
/// is what was left before, without its first `n` bytes.
pub proof fn law_write_progress(
    parts: Seq<Seq<u8>>,
    lens: Seq<usize>,
    consumed: Seq<usize>,
    n: nat,
)
    requires
        lens_of(parts, lens),
        tunnel::within(lens, consumed),
        n <= left(parts, consumed).len(),
    ensures
        left(parts, tunnel::after_write(lens, consumed, n)) == left(parts, consumed).skip(n as int),
        tunnel::within(lens, tunnel::after_write(lens, consumed, n)),
    decreases parts.len(),
{
    let done = tunnel::after_write(lens, consumed, n);
    if parts.len() == 0 {
        assert(left(parts, done) =~= left(parts, consumed).skip(n as int));
    } else {
        let avail = lens[0] - consumed[0];
        let here: int = if n < avail {
            n as int
        } else {
            avail
        };
        let rest = (n - here) as nat;
        assert(lens[0] == parts[0].len());
        assert forall|i: int| 0 <= i < parts.skip(1).len() implies #[trigger] lens.skip(1)[i]
            == parts.skip(1)[i].len() by {
            assert(lens[i + 1] == parts[i + 1].len());
        }
        assert forall|i: int| 0 <= i < lens.skip(1).len() implies consumed.skip(1)[i]
            <= #[trigger] lens.skip(1)[i] by {
            assert(consumed[i + 1] <= lens[i + 1]);
        }
        lemma_left_first(parts, consumed);
        law_write_progress(parts.skip(1), lens.skip(1), consumed.skip(1), rest);
        let tail = tunnel::after_write(lens.skip(1), consumed.skip(1), rest);
        assert(done.skip(1) =~= tail);
        assert(done[0] == consumed[0] + here);
        assert forall|i: int| 0 <= i < lens.len() implies done[i] <= #[trigger] lens[i] by {
            if i > 0 {
                assert(tail[i - 1] <= lens.skip(1)[i - 1]);
            }
        }
        lemma_left_first(parts, done);
        assert(left(parts, done) =~= left(parts, consumed).skip(n as int));
    }
}

/// What a write is handed is all that is left.
pub open spec fn handed(parts: Seq<Seq<u8>>, unsent: Seq<(usize, usize)>) -> Seq<u8> {
    buffer::concat(unsent.map_values(|u: (usize, usize)| parts[u.0 as int].skip(u.1 as int)))
}

proof fn lemma_unsent_index(lens: Seq<usize>, consumed: Seq<usize>)
    requires
        lens.len() == consumed.len(),
        lens.len() <= usize::MAX,
    ensures
        forall|i: int|
            0 <= i < tunnel::unsent_parts(lens, consumed).len() ==> (
            #[trigger] tunnel::unsent_parts(lens, consumed)[i]).0 < lens.len(),
    decreases lens.len(),
{
    if lens.len() > 0 {
        let earlier = tunnel::unsent_parts(lens.drop_last(), consumed.drop_last());
        lemma_unsent_index(lens.drop_last(), consumed.drop_last());
        assert forall|i: int| 0 <= i < tunnel::unsent_parts(lens, consumed).len() implies (
        #[trigger] tunnel::unsent_parts(lens, consumed)[i]).0 < lens.len() by {
            if i < earlier.len() {
                assert(earlier[i].0 < lens.len() - 1);
            }
        }
    }
}

/// The parts handed to a write hold exactly the bytes that are left; there is
/// none where all is written.
pub proof fn law_unsent_is_left(parts: Seq<Seq<u8>>, lens: Seq<usize>, consumed: Seq<usize>)
    requires
        lens_of(parts, lens),
        tunnel::within(lens, consumed),
        lens.len() <= usize::MAX,
    ensures
        handed(parts, tunnel::unsent_parts(lens, consumed)) == left(parts, consumed),
        tunnel::unsent_parts(lens, consumed).len() == 0 <==> left(parts, consumed).len() == 0,
    decreases parts.len(),
{
    let unsent = tunnel::unsent_parts(lens, consumed);
    if parts.len() == 0 {
        assert(handed(parts, unsent) =~= left(parts, consumed));
    } else {
        let k = parts.len() - 1;
        let p2 = parts.drop_last();
        let l2 = lens.drop_last();
        let c2 = consumed.drop_last();
        assert forall|i: int| 0 <= i < p2.len() implies #[trigger] l2[i] == p2[i].len() by {
            assert(lens[i] == parts[i].len());
        }
        assert forall|i: int| 0 <= i < l2.len() implies c2[i] <= #[trigger] l2[i] by {
            assert(consumed[i] <= lens[i]);
        }
        law_unsent_is_left(p2, l2, c2);
        lemma_unsent_index(l2, c2);
        let earlier = tunnel::unsent_parts(l2, c2);
        let g = |u: (usize, usize)| parts[u.0 as int].skip(u.1 as int);
        let g2 = |u: (usize, usize)| p2[u.0 as int].skip(u.1 as int);
        assert(earlier.map_values(g) =~= earlier.map_values(g2));
        let rest = Seq::new(parts.len(), |i: int| parts[i].skip(consumed[i] as int));
        assert(rest.drop_last() =~= Seq::new(p2.len(), |i: int| p2[i].skip(c2[i] as int)));
        assert(lens[k] == parts[k].len());
        assert(consumed[k] <= lens[k]);
        if consumed[k] < lens[k] {
            let u = (k as usize, consumed[k]);
            assert(earlier.push(u).map_values(g) =~= earlier.map_values(g).push(g(u)));
            buffer::lemma_concat_push(earlier.map_values(g), g(u));
        } else {
            assert(rest.last() =~= Seq::<u8>::empty());
            assert(left(parts, consumed) =~= left(p2, c2));
        }
    }
}

/// A connection sends its DATA, and behind it CLOSE, once.
pub proof fn law_close_once(id: u16, reads: Seq<Seq<u8>>)
    ensures
        sent_frames(id, reads).len() > 0,
        sent_frames(id, reads).last() == FrameView::Close(id),
        forall|i: int|
            0 <= i < sent_frames(id, reads).len() - 1 ==> {
                &&& (#[trigger] sent_frames(id, reads)[i]) matches FrameView::Data(j, _)
                &&& j == id
            },
    decreases reads.len(),
{
    if reads.len() > 0 {
        law_close_once(id, reads.skip(1));
        let head = tunnel::data_frames_of(id, reads[0]);
        let tail = sent_frames(id, reads.skip(1));
        let all = sent_frames(id, reads);
        assert forall|i: int| 0 <= i < all.len() - 1 implies {
            &&& (#[trigger] all[i]) matches FrameView::Data(j, _)
            &&& j == id
        } by {
            if i < head.len() {
                assert(all[i] == FrameView::Data(id, tunnel::chunks(reads[0])[i]));
            } else {
                assert(all[i] == tail[i - head.len()]);
            }
        }
    }
}

/// The id counter `k` connections after `id`.
pub open spec fn nth_id(id: u16, k: nat) -> u16
    decreases k,
{
    if k == 0 {
        id
    } else {
        tunnel::id_after(nth_id(id, (k - 1) as nat))
    }
}

proof fn lemma_nth_id(id: u16, k: nat)
    ensures
        nth_id(id, k) == (id + k) % 65536,
    decreases k,
{
    if k > 0 {
        lemma_nth_id(id, (k - 1) as nat);
    }
}

/// An id is not given to a second connection before the counter went all the
/// way round.
pub proof fn law_ids_distinct(id: u16, i: nat, j: nat)
    requires
        i < j < i + 65536,
    ensures
        nth_id(id, i) != nth_id(id, j),
{
    lemma_nth_id(id, i);
    lemma_nth_id(id, j);
}

/// A session's connections get the ids 1, 2, 3 and so on, up to 65535; behind
/// that comes 0, which is dropped, and 1 again.
pub proof fn law_ids_from_first(k: nat)
    ensures
        nth_id(tunnel::FIRST_ID, 0) == 1,
        nth_id(tunnel::FIRST_ID, 1) == 2,
        k < 65535 ==> nth_id(tunnel::FIRST_ID, k) == k + 1,
        nth_id(tunnel::FIRST_ID, 65535) == 0,
        nth_id(tunnel::FIRST_ID, 65536) == tunnel::FIRST_ID,
{
    lemma_nth_id(tunnel::FIRST_ID, 0);
    lemma_nth_id(tunnel::FIRST_ID, 1);
    lemma_nth_id(tunnel::FIRST_ID, k);
    lemma_nth_id(tunnel::FIRST_ID, 65535);
    lemma_nth_id(tunnel::FIRST_ID, 65536);
}

/// How much of each part is written after writes of these sizes.
pub open spec fn after_writes(lens: Seq<usize>, consumed: Seq<usize>, sizes: Seq<nat>) -> Seq<usize>
    decreases sizes.len(),
{
    if sizes.len() == 0 {
        consumed
    } else {
        after_writes(lens, tunnel::after_write(lens, consumed, sizes[0]), sizes.skip(1))
    }
}

/// Does each write take no more than it is handed?
pub open spec fn writes_fit(
    parts: Seq<Seq<u8>>,
    lens: Seq<usize>,
    consumed: Seq<usize>,
    sizes: Seq<nat>,
) -> bool
    decreases sizes.len(),
{
    sizes.len() > 0 ==> {
        &&& sizes[0] <= left(parts, consumed).len()
        &&& writes_fit(
            parts,
            lens,
            tunnel::after_write(lens, consumed, sizes[0]),
            sizes.skip(1),
        )
    }
}

/// What writes of these sizes put out, joined: each takes the first bytes of what
/// is left.
pub open spec fn put_out(
    parts: Seq<Seq<u8>>,
    lens: Seq<usize>,
    consumed: Seq<usize>,
    sizes: Seq<nat>,
) -> Seq<u8>
    decreases sizes.len(),
{
    if sizes.len() == 0 {
        Seq::empty()
    } else {
        left(parts, consumed).take(sizes[0] as int) + put_out(
            parts,
            lens,
            tunnel::after_write(lens, consumed, sizes[0]),
            sizes.skip(1),
        )
    }
}

/// However a batch is written, piece by piece, what was put out, followed by what
/// is left, is what was left at the start; once nothing is unsent, all of it
/// was put out.
pub proof fn law_writes_lose_nothing(
    parts: Seq<Seq<u8>>,
    lens: Seq<usize>,
    consumed: Seq<usize>,
    sizes: Seq<nat>,
)
    requires
        lens_of(parts, lens),
        lens.len() <= usize::MAX,
        tunnel::within(lens, consumed),
        writes_fit(parts, lens, consumed, sizes),
    ensures
        ({
            let done = after_writes(lens, consumed, sizes);
            &&& tunnel::within(lens, done)
            &&& put_out(parts, lens, consumed, sizes) + left(parts, done) == left(parts, consumed)
            &&& tunnel::unsent_parts(lens, done).len() == 0 ==> put_out(
                parts,
                lens,
                consumed,
                sizes,
            ) == left(parts, consumed)
        }),
    decreases sizes.len(),
{
    let done = after_writes(lens, consumed, sizes);
    let out = put_out(parts, lens, consumed, sizes);
    let start = left(parts, consumed);
    if sizes.len() == 0 {
        assert(out + left(parts, done) =~= start);
    } else {
        let n = sizes[0];
        let next = tunnel::after_write(lens, consumed, n);
        law_write_progress(parts, lens, consumed, n);
        law_writes_lose_nothing(parts, lens, next, sizes.skip(1));
        assert(out + left(parts, done) =~= start.take(n as int) + left(parts, next));
        assert(start.take(n as int) + start.skip(n as int) =~= start);
    }
    law_unsent_is_left(parts, lens, done);
    if tunnel::unsent_parts(lens, done).len() == 0 {
        assert(out + left(parts, done) =~= out);
    }
}

proof fn lemma_nothing_written(parts: Seq<Seq<u8>>)
    ensures
        left(parts, Seq::new(parts.len(), |i: int| 0usize)) == buffer::concat(parts),
{
    let none = Seq::new(parts.len(), |i: int| 0usize);
    let all = Seq::new(parts.len(), |i: int| parts[i].skip(none[i] as int));
    assert forall|i: int| 0 <= i < parts.len() implies #[trigger] all[i] == parts[i] by {
        assert(parts[i].skip(0) =~= parts[i]);
    }
    assert(all =~= parts);
}

/// A batch that is written from its start until nothing is unsent is put out
/// whole: all of its payloads, in order, each byte once.
pub proof fn law_batch_written_whole(parts: Seq<Seq<u8>>, lens: Seq<usize>, sizes: Seq<nat>)
    requires
        lens_of(parts, lens),
        lens.len() <= usize::MAX,
        writes_fit(parts, lens, Seq::new(parts.len(), |i: int| 0usize), sizes),
        tunnel::unsent_parts(
            lens,
            after_writes(lens, Seq::new(parts.len(), |i: int| 0usize), sizes),
        ).len() == 0,
    ensures
        put_out(parts, lens, Seq::new(parts.len(), |i: int| 0usize), sizes) == buffer::concat(
            parts,
        ),
{
    lemma_nothing_written(parts);
    law_writes_lose_nothing(parts, lens, Seq::new(parts.len(), |i: int| 0usize), sizes);
}

} // verus!
