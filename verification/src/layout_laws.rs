//! The wire format, byte by byte: what stands where in a frame, and what is made
//! of any bytes that come in.
use crate::buffer;
use crate::protocol::{FrameView, ProxyAckView, ProxyRegView};
use crate::protocol;
use crate::text;
use vstd::prelude::*;
use vstd::utf8::*;

verus! {

// ---- numbers ----

/// A 16-bit number is two bytes, the high one first, and is read back from where
/// it stands.
pub proof fn law_be16(n: u16, before: Seq<u8>, behind: Seq<u8>)
    ensures
        buffer::be16(n).len() == 2,
        buffer::be16(n)[0] * 256 + buffer::be16(n)[1] == n,
        buffer::be16_at(before + buffer::be16(n) + behind, before.len() as int) == n,
{
    let p = before + buffer::be16(n) + behind;
    let k = before.len() as int;
    assert(p[k] == buffer::be16(n)[0]);
    assert(p[k + 1] == buffer::be16(n)[1]);
}

/// What is read as a 16-bit number is two bytes, the high one first.
pub proof fn law_be16_at(p: Seq<u8>, i: int)
    ensures
        buffer::be16_at(p, i) == p[i] * 256 + p[i + 1],
{
}

proof fn lemma_be32_arith(n: u32)
    ensures
        (n / 0x100_0000) * 0x100_0000 + (n / 0x1_0000 % 256) * 0x1_0000 + (n / 256 % 256) * 256 + n
            % 256 == n,
        n / 0x100_0000 < 256,
{
    assert((n / 0x100_0000) * 0x100_0000 + (n / 0x1_0000 % 256) * 0x1_0000 + (n / 256 % 256) * 256
        + n % 256 == n) by (bit_vector);
}

/// A 32-bit number is four bytes, the highest first, and is read back from them.
pub proof fn law_be32(n: u32)
    ensures
        buffer::be32(n).len() == 4,
        buffer::be32(n)[0] * 0x100_0000 + buffer::be32(n)[1] * 0x1_0000 + buffer::be32(n)[2] * 256
            + buffer::be32(n)[3] == n,
        buffer::be32_at(buffer::be32(n), 0) == n,
{
    lemma_be32_arith(n);
}

/// What is read as a 32-bit number is four bytes, the highest first.
pub proof fn law_be32_at(p: Seq<u8>, i: int)
    ensures
        buffer::be32_at(p, i) == p[i] * 0x100_0000 + p[i + 1] * 0x1_0000 + p[i + 2] * 256 + p[i
            + 3],
{
}

// ---- frames as they are sent ----

/// A frame is its type in one byte, the length of its payload in two, the high
/// one first, and its payload.
pub proof fn law_header(f: FrameView)
    requires
        protocol::payload_of(f).len() <= 65535,
    ensures
        ({
            let b = protocol::wire(f);
            let p = protocol::payload_of(f);
            &&& b.len() == 3 + p.len()
            &&& b[0] == protocol::kind_of(f)
            &&& b[1] * 256 + b[2] == p.len()
            &&& b.skip(3) == p
        }),
{
    let b = protocol::wire(f);
    let p = protocol::payload_of(f);
    let n = p.len() as u16;
    assert(b[1] == buffer::be16(n)[0]);
    assert(b[2] == buffer::be16(n)[1]);
    assert(b.skip(3) =~= p);
}

/// The type bytes.
pub proof fn law_kinds(f: FrameView)
    ensures
        protocol::kind_of(f) == 1 <==> f is Auth,
        protocol::kind_of(f) == 2 <==> f is Okay,
        protocol::kind_of(f) == 3 <==> f is Fail,
        protocol::kind_of(f) == 4 <==> f is DCount,
        protocol::kind_of(f) == 5 <==> f is New,
        protocol::kind_of(f) == 6 <==> f is Close,
        protocol::kind_of(f) == 7 <==> f is Data,
        protocol::kind_of(f) == 8 <==> f is Proxies,
        protocol::kind_of(f) == 9 <==> f is Ping,
        protocol::kind_of(f) == 10 <==> f is Pong,
        protocol::kind_of(f) == 11 <==> f is ChIdx,
        protocol::kind_of(f) == 12 <==> f is ProxyAck,
{
}

/// The frames without texts, to the last byte.
pub proof fn law_plain_layout(h: Seq<u8>, n: u8, id: u16, data: Seq<u8>)
    requires
        h.len() == 32,
        data.len() <= 65533,
    ensures
        protocol::wire(FrameView::Auth(h)) == seq![1u8, 0, 32] + h,
        protocol::wire(FrameView::Okay) == seq![2u8, 0, 0],
        protocol::wire(FrameView::Fail) == seq![3u8, 0, 0],
        protocol::wire(FrameView::DCount(n)) == seq![4u8, 0, 1, n],
        protocol::wire(FrameView::ChIdx(n)) == seq![11u8, 0, 1, n],
        protocol::wire(FrameView::Close(id)) == seq![6u8, 0, 2] + buffer::be16(id),
        protocol::wire(FrameView::Data(id, data)) == seq![7u8] + buffer::be16(
            (data.len() + 2) as u16,
        ) + buffer::be16(id) + data,
{
    assert(protocol::wire(FrameView::Auth(h)) =~= seq![1u8, 0, 32] + h);
    assert(protocol::wire(FrameView::Okay) =~= seq![2u8, 0, 0]);
    assert(protocol::wire(FrameView::Fail) =~= seq![3u8, 0, 0]);
    assert(protocol::wire(FrameView::DCount(n)) =~= seq![4u8, 0, 1, n]);
    assert(protocol::wire(FrameView::ChIdx(n)) =~= seq![11u8, 0, 1, n]);
    assert(protocol::wire(FrameView::Close(id)) =~= seq![6u8, 0, 2] + buffer::be16(id));
    assert(protocol::payload_of(FrameView::Data(id, data)).len() == data.len() + 2);
    assert(protocol::wire(FrameView::Data(id, data)) =~= seq![7u8] + buffer::be16(
        (data.len() + 2) as u16,
    ) + buffer::be16(id) + data);
}

/// PING and PONG carry their number in four bytes, the highest first.
pub proof fn law_ping_layout(n: u32)
    ensures
        protocol::wire(FrameView::Ping(n)) == seq![9u8, 0, 4] + buffer::be32(n),
        protocol::wire(FrameView::Pong(n)) == seq![10u8, 0, 4] + buffer::be32(n),
{
    assert(protocol::wire(FrameView::Ping(n)) =~= seq![9u8, 0, 4] + buffer::be32(n));
    assert(protocol::wire(FrameView::Pong(n)) =~= seq![10u8, 0, 4] + buffer::be32(n));
}

/// The payload of NEW: the id in two bytes, the length of the host in one, the
/// host, and the port in two.
pub proof fn law_new_layout(id: u16, local_host: Seq<char>, local_port: u16)
    requires
        encode_utf8(local_host).len() <= 255,
    ensures
        ({
            let p = protocol::payload_of(FrameView::New { id, local_host, local_port });
            let host = encode_utf8(local_host);
            let k = host.len() as int;
            &&& p.len() == 5 + k
            &&& p[0] * 256 + p[1] == id
            &&& p[2] == k
            &&& p.subrange(3, 3 + k) == host
            &&& p[3 + k] * 256 + p[4 + k] == local_port
        }),
{
    let p = protocol::payload_of(FrameView::New { id, local_host, local_port });
    let host = encode_utf8(local_host);
    let k = host.len() as int;
    assert(p[0] == buffer::be16(id)[0] && p[1] == buffer::be16(id)[1]);
    assert(p[2] == k);
    assert(p.subrange(3, 3 + k) =~= host);
    assert(p[3 + k] == buffer::be16(local_port)[0] && p[4 + k] == buffer::be16(local_port)[1]);
}

/// Are these the bytes of a registration with these fields: the name behind its
/// length, the public port, the local host behind its length, the local port?
pub open spec fn registers(
    b: Seq<u8>,
    name: Seq<u8>,
    remote: u16,
    host: Seq<u8>,
    local_port: u16,
) -> bool {
    let n = name.len() as int;
    let h = host.len() as int;
    &&& b.len() == 6 + n + h
    &&& b[0] == n
    &&& b.subrange(1, 1 + n) == name
    &&& b[1 + n] * 256 + b[2 + n] == remote
    &&& b[3 + n] == h
    &&& b.subrange(4 + n, 4 + n + h) == host
    &&& b[4 + n + h] * 256 + b[5 + n + h] == local_port
}

/// A registration is sent as its fields, in order.
pub proof fn law_reg_layout(r: ProxyRegView)
    requires
        encode_utf8(r.name).len() <= 255,
        encode_utf8(r.local_host).len() <= 255,
    ensures
        registers(
            protocol::reg_bytes(r),
            encode_utf8(r.name),
            r.remote,
            encode_utf8(r.local_host),
            r.local_port,
        ),
{
    let b = protocol::reg_bytes(r);
    let name = encode_utf8(r.name);
    let host = encode_utf8(r.local_host);
    let n = name.len() as int;
    let h = host.len() as int;
    let remote = buffer::be16(r.remote);
    let port = buffer::be16(r.local_port);
    assert(b.subrange(1, 1 + n) =~= name);
    assert(b[1 + n] == remote[0] && b[2 + n] == remote[1]);
    assert(b.subrange(4 + n, 4 + n + h) =~= host);
    assert(b[4 + n + h] == port[0] && b[5 + n + h] == port[1]);
}

/// The payload of PROXIES: how many registrations there are, in two bytes, and
/// the registrations. One more makes the count one higher and stands at the
/// end.
pub proof fn law_proxies_layout(regs: Seq<ProxyRegView>, r: ProxyRegView)
    requires
        regs.len() < 65535,
    ensures
        protocol::payload_of(FrameView::Proxies(Seq::empty())) == seq![0u8, 0],
        ({
            let p = protocol::payload_of(FrameView::Proxies(regs));
            let q = protocol::payload_of(FrameView::Proxies(regs.push(r)));
            &&& p.len() >= 2
            &&& p[0] * 256 + p[1] == regs.len()
            &&& q[0] * 256 + q[1] == regs.len() + 1
            &&& q.skip(2) == p.skip(2) + protocol::reg_bytes(r)
        }),
{
    let g = |r: ProxyRegView| protocol::reg_bytes(r);
    let none = Seq::<ProxyRegView>::empty();
    assert(none.map_values(g) =~= Seq::empty());
    assert(protocol::regs_bytes(none) =~= Seq::<u8>::empty());
    assert(protocol::payload_of(FrameView::Proxies(none)) =~= seq![0u8, 0]);
    let p = protocol::payload_of(FrameView::Proxies(regs));
    let q = protocol::payload_of(FrameView::Proxies(regs.push(r)));
    let n = regs.len() as u16;
    let m = (regs.len() + 1) as u16;
    assert(regs.push(r).map_values(g) =~= regs.map_values(g).push(g(r)));
    buffer::lemma_concat_push(regs.map_values(g), g(r));
    assert(p[0] == buffer::be16(n)[0] && p[1] == buffer::be16(n)[1]);
    assert(q[0] == buffer::be16(m)[0] && q[1] == buffer::be16(m)[1]);
    assert(p.skip(2) =~= protocol::regs_bytes(regs));
    assert(q.skip(2) =~= protocol::regs_bytes(regs.push(r)));
}

/// A registration result is sent as the name behind its length, and the status.
pub proof fn law_ack_layout(e: ProxyAckView)
    requires
        encode_utf8(e.name).len() <= 255,
    ensures
        ({
            let b = protocol::ack_bytes(e);
            let name = encode_utf8(e.name);
            &&& b.len() == name.len() + 2
            &&& b[0] == name.len()
            &&& b.subrange(1, 1 + name.len() as int) == name
            &&& b.last() == e.status
        }),
{
    let b = protocol::ack_bytes(e);
    let name = encode_utf8(e.name);
    assert(b.subrange(1, 1 + name.len() as int) =~= name);
}

/// The payload of PROXYACK: the results, one after the other, and the data port in
/// the last two bytes.
pub proof fn law_proxyack_layout(entries: Seq<ProxyAckView>, e: ProxyAckView, data_port: u16)
    ensures
        protocol::payload_of(FrameView::ProxyAck { entries: Seq::empty(), data_port })
            == buffer::be16(data_port),
        ({
            let p = protocol::payload_of(FrameView::ProxyAck { entries, data_port });
            let q = protocol::payload_of(
                FrameView::ProxyAck { entries: entries.push(e), data_port },
            );
            &&& p.len() >= 2
            &&& p[p.len() - 2] * 256 + p[p.len() - 1] == data_port
            &&& q[q.len() - 2] * 256 + q[q.len() - 1] == data_port
            &&& q.take(q.len() - 2) == p.take(p.len() - 2) + protocol::ack_bytes(e)
        }),
{
    let g = |e: ProxyAckView| protocol::ack_bytes(e);
    let none = Seq::<ProxyAckView>::empty();
    assert(none.map_values(g) =~= Seq::empty());
    assert(protocol::acks_bytes(none) =~= Seq::<u8>::empty());
    assert(protocol::payload_of(FrameView::ProxyAck { entries: none, data_port })
        =~= buffer::be16(data_port));
    let p = protocol::payload_of(FrameView::ProxyAck { entries, data_port });
    let q = protocol::payload_of(FrameView::ProxyAck { entries: entries.push(e), data_port });
    let d = buffer::be16(data_port);
    assert(entries.push(e).map_values(g) =~= entries.map_values(g).push(g(e)));
    buffer::lemma_concat_push(entries.map_values(g), g(e));
    assert(p[p.len() - 2] == d[0] && p[p.len() - 1] == d[1]);
    assert(q[q.len() - 2] == d[0] && q[q.len() - 1] == d[1]);
    assert(p.take(p.len() - 2) =~= protocol::acks_bytes(entries));
    assert(q.take(q.len() - 2) =~= protocol::acks_bytes(entries.push(e)));
}

// ---- bytes as they come in ----

/// There is a frame in front of `b` exactly where the three bytes of its header
/// are there and as many more as the last two of them say, the high one first;
/// what follows is left over.
pub proof fn law_first_frame(b: Seq<u8>)
    ensures
        protocol::first_frame(b) is Some <==> b.len() >= 3 && b.len() >= 3 + b[1] * 256 + b[2],
        protocol::first_frame(b) matches Some((f, rest)) ==> {
            let end = 3 + b[1] * 256 + b[2];
            &&& f == protocol::frame_of(b[0], b.subrange(3, end))
            &&& rest == b.skip(end)
        },
{
}

/// The frames in front of some bytes are the first frame and then those in what
/// follows it; where there is no first frame, there is none, and all is left
/// over.
pub proof fn law_all_frames(b: Seq<u8>)
    ensures
        protocol::first_frame(b) is None ==> protocol::all_frames(b) == (
            Seq::<FrameView>::empty(),
            b,
        ),
        protocol::first_frame(b) matches Some((f, rest)) ==> protocol::all_frames(b) == (
            seq![f] + protocol::all_frames(rest).0,
            protocol::all_frames(rest).1,
        ),
{
    law_first_frame(b);
}

/// A frame without texts is what its type and its payload say, and `Fail` where
/// the payload does not have the length that the type asks for.
pub proof fn law_plain_read(p: Seq<u8>)
    ensures
        protocol::frame_of(1, p) == (if p.len() == 32 {
            FrameView::Auth(p)
        } else {
            FrameView::Fail
        }),
        protocol::frame_of(2, p) == (if p.len() == 0 {
            FrameView::Okay
        } else {
            FrameView::Fail
        }),
        protocol::frame_of(3, p) == FrameView::Fail,
        protocol::frame_of(4, p) == (if p.len() == 1 {
            FrameView::DCount(p[0])
        } else {
            FrameView::Fail
        }),
        protocol::frame_of(6, p) == (if p.len() == 2 {
            FrameView::Close((p[0] * 256 + p[1]) as u16)
        } else {
            FrameView::Fail
        }),
        protocol::frame_of(7, p) == (if p.len() >= 2 {
            FrameView::Data((p[0] * 256 + p[1]) as u16, p.skip(2))
        } else {
            FrameView::Fail
        }),
        protocol::frame_of(11, p) == (if p.len() == 1 {
            FrameView::ChIdx(p[0])
        } else {
            FrameView::Fail
        }),
{
}

/// A PING or PONG is its number in four bytes, the highest first, and `Fail` with
/// a payload of another length.
pub proof fn law_ping_read(p: Seq<u8>)
    ensures
        p.len() != 4 ==> protocol::frame_of(9, p) == FrameView::Fail && protocol::frame_of(10, p)
            == FrameView::Fail,
        p.len() == 4 ==> {
            &&& protocol::frame_of(9, p) matches FrameView::Ping(n)
            &&& protocol::frame_of(10, p) == FrameView::Pong(n)
            &&& n == p[0] * 0x100_0000 + p[1] * 0x1_0000 + p[2] * 256 + p[3]
        },
{
}

/// A NEW is read where its payload is exactly as long as the length of its host
/// asks for; it is `Fail` otherwise. A host that is not UTF-8 is repaired.
pub proof fn law_new_read(p: Seq<u8>)
    ensures
        p.len() < 5 || p.len() != 5 + p[2] ==> protocol::frame_of(5, p) == FrameView::Fail,
        p.len() >= 5 && p.len() == 5 + p[2] ==> {
            &&& protocol::frame_of(5, p) matches FrameView::New { id, local_host, local_port }
            &&& id == p[0] * 256 + p[1]
            &&& local_host == text::text_of(p.subrange(3, 3 + p[2]))
            &&& local_port == p[p.len() - 2] * 256 + p[p.len() - 1]
        },
{
    if p.len() >= 3 {
        let p1 = p.skip(2);
        assert(p1[0] == p[2]);
        if p1.len() >= 1 + p1[0] {
            let p2 = p1.skip(1 + p1[0]);
            assert(p1.subrange(1, 1 + p1[0]) =~= p.subrange(3, 3 + p[2]));
            assert(p2 =~= p.skip(3 + p[2]));
            if p2.len() == 2 {
                assert(p2[0] == p[p.len() - 2]);
                assert(p2[1] == p[p.len() - 1]);
            }
        }
    }
}

/// A registration is read back from its fields, whatever bytes its texts are and
/// whatever follows. A text that is not UTF-8 is repaired.
pub proof fn law_reg_read(
    b: Seq<u8>,
    name: Seq<u8>,
    remote: u16,
    host: Seq<u8>,
    local_port: u16,
    rest: Seq<u8>,
)
    requires
        registers(b, name, remote, host, local_port),
    ensures
        protocol::take_reg(b + rest) == Some(
            (
                ProxyRegView {
                    name: text::text_of(name),
                    remote,
                    local_host: text::text_of(host),
                    local_port,
                },
                rest,
            ),
        ),
{
    let n = name.len() as int;
    let h = host.len() as int;
    let p = b + rest;
    assert(p[0] == n);
    assert(p.subrange(1, 1 + n) =~= b.subrange(1, 1 + n));
    let p1 = p.skip(1 + n);
    assert(p1[0] == b[1 + n] && p1[1] == b[2 + n]);
    let p2 = p1.skip(2);
    assert(p2 =~= p.skip(3 + n));
    assert(p2[0] == b[3 + n]);
    assert(p2.subrange(1, 1 + h) =~= b.subrange(4 + n, 4 + n + h));
    let p3 = p2.skip(1 + h);
    assert(p3 =~= p.skip(4 + n + h));
    assert(p3[0] == b[4 + n + h] && p3[1] == b[5 + n + h]);
    assert(p3.skip(2) =~= rest);
    assert(protocol::take_short(p) == Some((name, p1)));
    assert(protocol::take_u16(p1) == Some((remote, p2)));
    assert(protocol::take_short(p2) == Some((host, p3)));
    assert(protocol::take_u16(p3) == Some((local_port, rest)));
}

/// A PROXIES is read registration by registration: with one more in front, and a
/// count that is one higher, it is the same list behind that one. Without any,
/// nothing may follow the count.
pub proof fn law_proxies_read(
    b: Seq<u8>,
    name: Seq<u8>,
    remote: u16,
    host: Seq<u8>,
    local_port: u16,
    count: u16,
    rest: Seq<u8>,
)
    requires
        registers(b, name, remote, host, local_port),
        count < 65535,
    ensures
        protocol::frame_of(8, buffer::be16(0)) == FrameView::Proxies(Seq::empty()),
        rest.len() > 0 ==> protocol::frame_of(8, buffer::be16(0) + rest) == FrameView::Fail,
        ({
            let one = ProxyRegView {
                name: text::text_of(name),
                remote,
                local_host: text::text_of(host),
                local_port,
            };
            let more = protocol::frame_of(8, buffer::be16((count + 1) as u16) + (b + rest));
            match protocol::frame_of(8, buffer::be16(count) + rest) {
                FrameView::Proxies(regs) => more == FrameView::Proxies(seq![one] + regs),
                _ => more == FrameView::Fail,
            }
        }),
{
    reveal_with_fuel(protocol::take_regs, 2);
    let zero = buffer::be16(0);
    assert(zero.skip(2) =~= Seq::<u8>::empty());
    assert((zero + rest).skip(2) =~= rest);
    let p = buffer::be16(count) + rest;
    let q = buffer::be16((count + 1) as u16) + (b + rest);
    assert(p.skip(2) =~= rest);
    assert(q.skip(2) =~= b + rest);
    law_be16(count, Seq::empty(), rest);
    law_be16((count + 1) as u16, Seq::empty(), b + rest);
    assert(Seq::<u8>::empty() + buffer::be16(count) + rest =~= p);
    assert(Seq::<u8>::empty() + buffer::be16((count + 1) as u16) + (b + rest) =~= q);
    law_reg_read(b, name, remote, host, local_port, rest);
    assert(protocol::take_u16(p) == Some((count, rest)));
    assert(protocol::take_u16(q) == Some(((count + 1) as u16, b + rest)));
    assert(protocol::take_u16(zero) == Some((0u16, Seq::<u8>::empty())));
    assert(protocol::take_u16(zero + rest) == Some((0u16, rest)));
}

/// A PROXIES whose payload is too short for its count is `Fail`.
pub proof fn law_proxies_short(p: Seq<u8>)
    ensures
        p.len() < 2 ==> protocol::frame_of(8, p) == FrameView::Fail,
        p.len() == 2 && p[0] * 256 + p[1] > 0 ==> protocol::frame_of(8, p) == FrameView::Fail,
{
    if p.len() == 2 {
        assert(p.skip(2) =~= Seq::<u8>::empty());
        let n = buffer::be16_at(p, 0);
        if n > 0 {
            assert(protocol::take_reg(p.skip(2)) is None);
            assert(protocol::take_regs(p.skip(2), n as nat) is None);
        }
    }
}

/// A PROXYACK is read result by result: with one more in front it is the same
/// list behind that one, with the same data port. Without any it is the data
/// port alone, and without that it is `Fail`.
pub proof fn law_proxyack_read(name: Seq<u8>, status: u8, rest: Seq<u8>, data_port: u16)
    requires
        name.len() <= 255,
    ensures
        rest.len() < 2 ==> protocol::frame_of(12, rest) == FrameView::Fail,
        protocol::frame_of(12, buffer::be16(data_port)) == (FrameView::ProxyAck {
            entries: Seq::empty(),
            data_port,
        }),
        ({
            let one = ProxyAckView { name: text::text_of(name), status };
            let b = seq![name.len() as u8] + name + seq![status];
            let more = protocol::frame_of(12, b + rest + buffer::be16(data_port));
            match protocol::frame_of(12, rest + buffer::be16(data_port)) {
                FrameView::ProxyAck { entries, data_port: port } => more == (FrameView::ProxyAck {
                    entries: seq![one] + entries,
                    data_port: port,
                }) && port == data_port,
                _ => more == FrameView::Fail,
            }
        }),
{
    let d = buffer::be16(data_port);
    assert(d.take(0) =~= Seq::<u8>::empty());
    let one = ProxyAckView { name: text::text_of(name), status };
    let b = seq![name.len() as u8] + name + seq![status];
    let p = rest + d;
    let q = b + rest + d;
    law_be16(data_port, rest, Seq::empty());
    law_be16(data_port, b + rest, Seq::empty());
    law_be16(data_port, Seq::empty(), Seq::empty());
    assert(rest + d + Seq::<u8>::empty() =~= p);
    assert(b + rest + d + Seq::<u8>::empty() =~= q);
    assert(Seq::<u8>::empty() + d + Seq::<u8>::empty() =~= d);
    assert(p.take(p.len() - 2) =~= rest);
    assert(q.take(q.len() - 2) =~= b + rest);
    let body = b + rest;
    let k = name.len() as int;
    assert(body[0] == k);
    assert(body.subrange(1, 1 + k) =~= name);
    assert(body.skip(1 + k) =~= seq![status] + rest);
    assert((seq![status] + rest).skip(1) =~= rest);
    assert(protocol::take_ack(body) == Some((one, rest)));
}

/// A registration can be read exactly where all of its fields are there.
pub proof fn law_reg_cut_off(p: Seq<u8>)
    ensures
        protocol::take_reg(p) is Some <==> {
            &&& p.len() > 0
            &&& p.len() >= 4 + p[0]
            &&& p.len() >= 6 + p[0] + p[3 + p[0]]
        },
{
    if p.len() > 0 && p.len() >= 1 + p[0] {
        let p1 = p.skip(1 + p[0]);
        if p1.len() >= 2 {
            let p2 = p1.skip(2);
            assert(p2 =~= p.skip(3 + p[0]));
            if p2.len() > 0 {
                assert(p2[0] == p[3 + p[0]]);
            }
        }
    }
}

/// A PROXIES with a first registration that is cut off is `Fail`.
pub proof fn law_proxies_cut_off(count: u16, p: Seq<u8>)
    requires
        count > 0,
        p.len() == 0 || p.len() < 4 + p[0] || p.len() < 6 + p[0] + p[3 + p[0]],
    ensures
        protocol::frame_of(8, buffer::be16(count) + p) == FrameView::Fail,
{
    let q = buffer::be16(count) + p;
    law_be16(count, Seq::empty(), p);
    assert(Seq::<u8>::empty() + buffer::be16(count) + p =~= q);
    assert(q.skip(2) =~= p);
    law_reg_cut_off(p);
    assert(protocol::take_u16(q) == Some((count, p)));
    assert(protocol::take_regs(p, count as nat) is None);
}

/// A PROXYACK with a first result that is cut off is `Fail`.
pub proof fn law_proxyack_cut_off(p: Seq<u8>, data_port: u16)
    requires
        p.len() > 0,
        p.len() < 2 + p[0],
    ensures
        protocol::frame_of(12, p + buffer::be16(data_port)) == FrameView::Fail,
{
    let q = p + buffer::be16(data_port);
    assert(q.take(q.len() - 2) =~= p);
    assert(protocol::take_ack(p) is None);
    assert(protocol::take_acks(p) is None);
}

/// A text is sent behind its length, of which there are the low eight bits.
pub proof fn law_short(b: Seq<u8>)
    ensures
        protocol::short(b).len() == b.len() + 1,
        protocol::short(b)[0] == b.len() % 256,
        protocol::short(b).skip(1) == b,
{
    assert(protocol::short(b).skip(1) =~= b);
}

/// A frame with any other type is `Fail`.
pub proof fn law_other_types(t: u8, p: Seq<u8>)
    requires
        t == 0 || t > 12,
    ensures
        protocol::frame_of(t, p) == FrameView::Fail,
{
}

} // verus!
