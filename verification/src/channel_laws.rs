//! What the pieces of the tunnel do: which channel a connection rides, how its
//! bytes are cut, and how they are written.
use crate::buffer;
use crate::protocol::{FrameView, MAX_PAYLOAD};
use crate::protocol;
use crate::server;
use crate::tunnel;
use crate::tunnel_laws;
use vstd::prelude::*;

verus! {

// ---- channels ----

proof fn lemma_channel_is(id: u16, n: u8, q: int, c: int)
    requires
        n > 0,
        0 <= c < n,
        id == q * n + c,
    ensures
        tunnel::channel_of(id, n) == c,
{
    vstd::arithmetic::div_mod::lemma_fundamental_div_mod_converse(id as int, n as int, q, c);
}

/// The channel of a connection is one of the session's, and differs from the id
/// by a whole number of rounds over all channels.
pub proof fn law_channel(id: u16, n: u8) -> (rounds: int)
    requires
        n > 0,
    ensures
        0 <= tunnel::channel_of(id, n) < n,
        rounds >= 0,
        id == rounds * n + tunnel::channel_of(id, n),
{
    vstd::arithmetic::div_mod::lemma_fundamental_div_mod(id as int, n as int);
    vstd::arithmetic::div_mod::lemma_div_pos_is_pos(id as int, n as int);
    vstd::arithmetic::mul::lemma_mul_is_commutative(n as int, id as int / n as int);
    id as int / n as int
}

/// The channels are taken in turn: id 0 rides the first one, and each id the
/// channel after that of the id before it, with the first one after the last.
pub proof fn law_channels_in_turn(id: u16, n: u8)
    requires
        n > 0,
    ensures
        tunnel::channel_of(0, n) == 0,
        id < 65535 ==> tunnel::channel_of((id + 1) as u16, n) == if tunnel::channel_of(id, n) + 1
            < n {
            tunnel::channel_of(id, n) + 1
        } else {
            0
        },
{
    lemma_channel_is(0, n, 0, 0);
    let q = law_channel(id, n);
    let c = tunnel::channel_of(id, n);
    if id < 65535 {
        let next = (id + 1) as u16;
        if c + 1 < n {
            lemma_channel_is(next, n, q, c + 1);
        } else {
            assert((q + 1) * n == q * n + n) by (nonlinear_arith);
            lemma_channel_is(next, n, q + 1, 0);
        }
    }
}

/// Of as many consecutive ids as there are channels, no two ride the same one.
pub proof fn law_channels_differ(id: u16, n: u8, i: int, j: int)
    requires
        n > 0,
        0 <= i < j < n,
        id + j <= 65535,
    ensures
        tunnel::channel_of((id + i) as u16, n) != tunnel::channel_of((id + j) as u16, n),
{
    let a = (id + i) as u16;
    let b = (id + j) as u16;
    let p = law_channel(a, n);
    let q = law_channel(b, n);
    if tunnel::channel_of(a, n) == tunnel::channel_of(b, n) {
        assert(q * n - p * n == j - i);
        assert((q - p) * n == q * n - p * n) by (nonlinear_arith);
        let d = q - p;
        assert(0 < d * n < n);
        assert(d <= 0 ==> d * n <= 0) by (nonlinear_arith)
            requires
                n > 0,
        ;
        assert(d >= 1 ==> d * n >= n) by (nonlinear_arith)
            requires
                n > 0,
        ;
    }
}

/// Of as many consecutive ids as there are channels, one rides each channel.
pub proof fn law_channels_all_used(id: u16, n: u8, c: int) -> (i: int)
    requires
        0 <= c < n,
        id + n <= 65536,
    ensures
        0 <= i < n,
        tunnel::channel_of((id + i) as u16, n) == c,
{
    let q = law_channel(id, n);
    let first = tunnel::channel_of(id, n);
    if c >= first {
        let i = c - first;
        lemma_channel_is((id + i) as u16, n, q, c);
        i
    } else {
        let i = c - first + n;
        assert((q + 1) * n == q * n + n) by (nonlinear_arith);
        lemma_channel_is((id + i) as u16, n, q + 1, c);
        i
    }
}

/// Two connections share a channel where their ids are a multiple of the number of
/// channels apart.
pub proof fn law_channel_shared(a: u16, b: u16, n: u8, k: int)
    requires
        n > 0,
        a - b == k * n,
    ensures
        tunnel::channel_of(a, n) == tunnel::channel_of(b, n),
{
    let q = law_channel(b, n);
    assert((q + k) * n == q * n + k * n) by (nonlinear_arith);
    lemma_channel_is(a, n, q + k, tunnel::channel_of(b, n));
}

// ---- chunks ----

/// Every chunk but the last is as long as a DATA frame can carry, 65533 bytes:
/// there are no more chunks than are needed.
pub proof fn law_chunks_full(data: Seq<u8>, i: int)
    requires
        0 <= i < tunnel::chunks(data).len() - 1,
    ensures
        tunnel::chunks(data)[i].len() == 65533,
        tunnel::chunks(data)[i] == data.subrange(i * 65533, i * 65533 + 65533),
    decreases data.len(),
{
    if data.len() > MAX_PAYLOAD {
        let tail = data.skip(MAX_PAYLOAD as int);
        if i > 0 {
            law_chunks_full(tail, i - 1);
            assert(tunnel::chunks(data)[i] == tunnel::chunks(tail)[i - 1]);
            lemma_chunks_cover(tail, i);
            assert(tail.subrange((i - 1) * 65533, (i - 1) * 65533 + 65533) =~= data.subrange(
                i * 65533,
                i * 65533 + 65533,
            ));
        } else {
            assert(data.take(65533) =~= data.subrange(0, 65533));
        }
    }
}

proof fn lemma_chunks_cover(data: Seq<u8>, k: int)
    requires
        0 <= k < tunnel::chunks(data).len(),
    ensures
        k * 65533 <= data.len(),
    decreases data.len(),
{
    if data.len() > MAX_PAYLOAD && k > 0 {
        lemma_chunks_cover(data.skip(MAX_PAYLOAD as int), k - 1);
    }
}

/// The frames of a read: DATA frames of that connection and no other, whose
/// payloads joined are what was read; none where nothing was.
pub proof fn law_data_frames(id: u16, data: Seq<u8>)
    ensures
        data.len() == 0 ==> tunnel::data_frames_of(id, data).len() == 0,
        0 < data.len() <= 65533 ==> tunnel::data_frames_of(id, data) == seq![
            FrameView::Data(id, data),
        ],
        forall|i: int|
            0 <= i < tunnel::data_frames_of(id, data).len() ==> (
            #[trigger] tunnel::data_frames_of(id, data)[i] matches FrameView::Data(k, c) && k == id
                && 0 < c.len() <= 65533),
        buffer::concat(
            tunnel::data_frames_of(id, data).map_values(
                |f: FrameView|
                    match f {
                        FrameView::Data(_, c) => c,
                        _ => Seq::empty(),
                    },
            ),
        ) == data,
{
    tunnel_laws::law_chunks(data);
    let fs = tunnel::data_frames_of(id, data);
    let g = |f: FrameView|
        match f {
            FrameView::Data(_, c) => c,
            _ => Seq::empty(),
        };
    assert(fs.map_values(g) =~= tunnel::chunks(data));
    if 0 < data.len() <= 65533 {
        assert(fs =~= seq![FrameView::Data(id, data)]);
    }
}

// ---- writing ----

/// The writer stops exactly where a write failed, or the channel is dead and no
/// batch is in hand; it takes a first frame exactly where no batch is in hand
/// and it does not stop; a batch in hand grows while it is below 262144 bytes
/// and is written from there on.
pub proof fn law_writer_next(dead: bool, batched: nat, wrote: Option<bool>)
    ensures
        tunnel::writer_next(dead, batched, wrote) is Stop <==> wrote == Some(false) || dead && (
        wrote is Some || batched == 0),
        tunnel::writer_next(dead, batched, wrote) is Take <==> !dead && (wrote == Some(true)
            || wrote is None && batched == 0),
        tunnel::writer_next(dead, batched, wrote) is Gather <==> wrote is None && 0 < batched
            < 262144,
        tunnel::writer_next(dead, batched, wrote) is Flush <==> wrote is None && batched
            >= 262144,
{
}

/// A part is handed to the next write exactly where it has bytes that are not
/// written, from its first such byte on, and the parts are in order.
pub proof fn law_unsent_parts(lens: Seq<usize>, consumed: Seq<usize>)
    requires
        lens.len() == consumed.len(),
        lens.len() <= usize::MAX,
    ensures
        ({
            let out = tunnel::unsent_parts(lens, consumed);
            &&& forall|i: int|
                0 <= i < out.len() ==> (#[trigger] out[i]).0 < lens.len() && out[i].1
                    == consumed[out[i].0 as int] && out[i].1 < lens[out[i].0 as int]
            &&& forall|i: int, j: int|
                0 <= i < j < out.len() ==> (#[trigger] out[i]).0 < (#[trigger] out[j]).0
            &&& forall|k: int|
                0 <= k < lens.len() && consumed[k] < #[trigger] lens[k] ==> out.contains(
                    (k as usize, consumed[k]),
                )
        }),
    decreases lens.len(),
{
    let out = tunnel::unsent_parts(lens, consumed);
    if lens.len() > 0 {
        let l2 = lens.drop_last();
        let c2 = consumed.drop_last();
        let earlier = tunnel::unsent_parts(l2, c2);
        law_unsent_parts(l2, c2);
        assert forall|i: int| 0 <= i < out.len() implies (#[trigger] out[i]).0 < lens.len()
            && out[i].1 == consumed[out[i].0 as int] && out[i].1 < lens[out[i].0 as int] by {
            if i < earlier.len() {
                assert(out[i] == earlier[i]);
                assert(l2[earlier[i].0 as int] == lens[earlier[i].0 as int]);
            }
        }
        assert forall|i: int, j: int| 0 <= i < j < out.len() implies (#[trigger] out[i]).0 < (
        #[trigger] out[j]).0 by {
            assert(out[i] == earlier[i]);
            if j < earlier.len() {
                assert(out[j] == earlier[j]);
            }
        }
        assert forall|k: int| 0 <= k < lens.len() && consumed[k] < #[trigger] lens[k] implies
            out.contains((k as usize, consumed[k])) by {
            if k < l2.len() {
                assert(c2[k] < l2[k]);
                let i = choose|i: int| 0 <= i < earlier.len() && earlier[i] == (k as usize, c2[k]);
                assert(out[i] == (k as usize, consumed[k]));
            } else {
                assert(out.last() == (k as usize, consumed[k]));
            }
        }
    }
}

proof fn lemma_nothing_more(lens: Seq<usize>, consumed: Seq<usize>)
    requires
        tunnel::within(lens, consumed),
    ensures
        tunnel::after_write(lens, consumed, 0) == consumed,
    decreases lens.len(),
{
    if lens.len() > 0 {
        assert(tunnel::within(lens.skip(1), consumed.skip(1))) by {
            assert forall|i: int| 0 <= i < lens.skip(1).len() implies consumed.skip(1)[i]
                <= #[trigger] lens.skip(1)[i] by {
                assert(consumed[i + 1] <= lens[i + 1]);
            }
        }
        assert(consumed[0] <= lens[0]);
        lemma_nothing_more(lens.skip(1), consumed.skip(1));
        assert(seq![consumed[0]] + consumed.skip(1) =~= consumed);
    } else {
        assert(tunnel::after_write(lens, consumed, 0) =~= consumed);
    }
}

/// A write moves on through the parts in order: no part is taken back or written
/// beyond its end, and a part behind one that is not finished is not touched.
pub proof fn law_write_in_order(lens: Seq<usize>, consumed: Seq<usize>, n: nat, j: int, k: int)
    requires
        tunnel::within(lens, consumed),
        0 <= j < k < lens.len(),
    ensures
        ({
            let done = tunnel::after_write(lens, consumed, n);
            &&& done.len() == lens.len()
            &&& consumed[k] <= done[k] <= lens[k]
            &&& consumed[j] <= done[j] <= lens[j]
            &&& done[j] < lens[j] ==> done[k] == consumed[k]
        }),
    decreases lens.len(),
{
    let l2 = lens.skip(1);
    let c2 = consumed.skip(1);
    assert(tunnel::within(l2, c2)) by {
        assert forall|i: int| 0 <= i < l2.len() implies c2[i] <= #[trigger] l2[i] by {
            assert(consumed[i + 1] <= lens[i + 1]);
        }
    }
    assert(consumed[0] <= lens[0]);
    let avail = lens[0] - consumed[0];
    let here: int = if n < avail {
        n as int
    } else {
        avail
    };
    let rest = (n - here) as nat;
    let done = tunnel::after_write(lens, consumed, n);
    let tail = tunnel::after_write(l2, c2, rest);
    assert(done == seq![(consumed[0] + here) as usize] + tail);
    lemma_write_bounds(l2, c2, rest);
    if j > 0 {
        law_write_in_order(l2, c2, rest, j - 1, k - 1);
        assert(l2[j - 1] == lens[j]);
    } else if done[0] < lens[0] {
        lemma_nothing_more(l2, c2);
    }
    assert(l2[k - 1] == lens[k]);
    assert(done[k] == tail[k - 1]);
}

proof fn lemma_write_bounds(lens: Seq<usize>, consumed: Seq<usize>, n: nat)
    requires
        tunnel::within(lens, consumed),
    ensures
        tunnel::after_write(lens, consumed, n).len() == lens.len(),
        forall|i: int|
            0 <= i < lens.len() ==> consumed[i] <= #[trigger] tunnel::after_write(
                lens,
                consumed,
                n,
            )[i] <= lens[i],
    decreases lens.len(),
{
    if lens.len() > 0 {
        let l2 = lens.skip(1);
        let c2 = consumed.skip(1);
        assert(tunnel::within(l2, c2)) by {
            assert forall|i: int| 0 <= i < l2.len() implies c2[i] <= #[trigger] l2[i] by {
                assert(consumed[i + 1] <= lens[i + 1]);
            }
        }
        assert(consumed[0] <= lens[0]);
        let avail = lens[0] - consumed[0];
        let here: int = if n < avail {
            n as int
        } else {
            avail
        };
        let rest = (n - here) as nat;
        lemma_write_bounds(l2, c2, rest);
        let tail = tunnel::after_write(l2, c2, rest);
        let done = tunnel::after_write(lens, consumed, n);
        assert forall|i: int| 0 <= i < lens.len() implies consumed[i] <= #[trigger] done[i]
            <= lens[i] by {
            if i > 0 {
                assert(done[i] == tail[i - 1]);
                assert(c2[i - 1] <= tail[i - 1]);
            }
        }
    }
}

/// How many bytes of the parts are not written yet.
pub open spec fn unwritten(lens: Seq<usize>, consumed: Seq<usize>) -> int
    decreases lens.len(),
{
    if lens.len() == 0 {
        0
    } else {
        lens[0] - consumed[0] + unwritten(lens.skip(1), consumed.skip(1))
    }
}

/// A write of `n` bytes leaves `n` bytes less to be written, and none where there
/// were no more than that.
pub proof fn law_write_counts(lens: Seq<usize>, consumed: Seq<usize>, n: nat)
    requires
        tunnel::within(lens, consumed),
    ensures
        unwritten(lens, consumed) >= 0,
        unwritten(lens, tunnel::after_write(lens, consumed, n)) == if n < unwritten(
            lens,
            consumed,
        ) {
            unwritten(lens, consumed) - n
        } else {
            0
        },
    decreases lens.len(),
{
    if lens.len() > 0 {
        let l2 = lens.skip(1);
        let c2 = consumed.skip(1);
        assert(tunnel::within(l2, c2)) by {
            assert forall|i: int| 0 <= i < l2.len() implies c2[i] <= #[trigger] l2[i] by {
                assert(consumed[i + 1] <= lens[i + 1]);
            }
        }
        assert(consumed[0] <= lens[0]);
        let avail = lens[0] - consumed[0];
        let here: int = if n < avail {
            n as int
        } else {
            avail
        };
        let rest = (n - here) as nat;
        law_write_counts(l2, c2, rest);
        let done = tunnel::after_write(lens, consumed, n);
        let tail = tunnel::after_write(l2, c2, rest);
        assert(done.skip(1) =~= tail);
    }
}

// ---- limits ----

/// A DATA frame with a chunk of the greatest length fills the length field exactly,
/// a batch has room for four of them, a silent peer is dropped after three
/// heartbeats and looked for three times in each, and the queues hold a multiple
/// of what one connection has in flight.
pub proof fn law_limits()
    ensures
        MAX_PAYLOAD + 2 == 65535,
        tunnel::MAX_CONNS == 16384,
        tunnel::LIVENESS_DEADLINE == 3 * server::HEARTBEAT,
        server::HEARTBEAT == 15_000,
        3 * tunnel::LIVENESS_CHECK == server::HEARTBEAT,
        tunnel::HIGH_WATER == 4 * 65536,
        protocol::PIPE_BATCH == tunnel::HIGH_WATER,
        tunnel::BUFFER_FRAMES == 64,
        tunnel::CONTROL_QUEUE == 16 * tunnel::BUFFER_FRAMES,
        tunnel::CHANNEL_QUEUE == 2 * tunnel::CONTROL_QUEUE,
{
}

// ---- registrations ----

/// A connection is registered behind a frame exactly where it was before and the
/// frame does not close it, or the frame announces it to a side that dials.
pub proof fn law_registered(ids: Set<u16>, f: FrameView, dials: bool, id: u16)
    ensures
        tunnel::registered_after(ids, f, dials).contains(id) <==> {
            ||| ids.contains(id) && f != FrameView::Close(id)
            ||| dials && (f matches FrameView::New { id: k, .. } && k == id)
        },
{
}

/// Bytes are delivered exactly for DATA of a connection that is registered: its
/// payload, to that connection.
pub proof fn law_delivery(ids: Set<u16>, f: FrameView, id: u16, data: Seq<u8>)
    ensures
        tunnel::delivery(ids, f) == Some((id, data)) <==> f == FrameView::Data(id, data)
            && ids.contains(id),
{
}

} // verus!
