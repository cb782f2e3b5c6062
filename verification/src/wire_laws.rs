//! What holds of the wire protocol as a whole: what was encoded is parsed back,
//! at whatever read boundaries it arrives.
use crate::buffer;
use crate::protocol::{FrameView, ProxyAckView, ProxyRegView, HDR, MAX_PAYLOAD};
use crate::protocol;
use crate::text;
use vstd::prelude::*;
use vstd::utf8::*;

verus! {

/// A text whose length fits the length byte in front of it.
pub open spec fn short_text(s: Seq<char>) -> bool {
    encode_utf8(s).len() <= 255
}

/// The frames that the wire format can carry: the payload fits the 16-bit
/// length field and each text fits its length byte.
pub open spec fn encodable(f: FrameView) -> bool {
    &&& protocol::payload_of(f).len() <= u16::MAX
    &&& match f {
        FrameView::Auth(h) => h.len() == 32,
        FrameView::Proxies(regs) => forall|i: int|
            0 <= i < regs.len() ==> short_text((#[trigger] regs[i]).name) && short_text(
                regs[i].local_host,
            ),
        FrameView::ProxyAck { entries, .. } => forall|i: int|
            0 <= i < entries.len() ==> short_text((#[trigger] entries[i]).name),
        FrameView::New { local_host, .. } => short_text(local_host),
        _ => true,
    }
}

proof fn lemma_short(b: Seq<u8>, rest: Seq<u8>)
    requires
        b.len() <= 255,
    ensures
        protocol::take_short(protocol::short(b) + rest) == Some((b, rest)),
{
    let p = protocol::short(b) + rest;
    assert(p[0] == b.len());
    assert(p.subrange(1, 1int + b.len()) =~= b);
    assert(p.skip(1int + b.len()) =~= rest);
}

proof fn lemma_be16(n: u16, rest: Seq<u8>)
    ensures
        protocol::take_u16(buffer::be16(n) + rest) == Some((n, rest)),
        buffer::be16_at(buffer::be16(n) + rest, 0) == n,
{
    let p = buffer::be16(n) + rest;
    assert(p.skip(2) =~= rest);
}

proof fn lemma_reg(r: ProxyRegView, rest: Seq<u8>)
    requires
        short_text(r.name),
        short_text(r.local_host),
    ensures
        protocol::take_reg(protocol::reg_bytes(r) + rest) == Some((r, rest)),
{
    let name = encode_utf8(r.name);
    let host = encode_utf8(r.local_host);
    let p3 = buffer::be16(r.local_port) + rest;
    let p2 = protocol::short(host) + p3;
    let p1 = buffer::be16(r.remote) + p2;
    assert(protocol::reg_bytes(r) + rest =~= protocol::short(name) + p1);
    lemma_short(name, p1);
    lemma_be16(r.remote, p2);
    lemma_short(host, p3);
    lemma_be16(r.local_port, rest);
    text::law_text_roundtrip(r.name);
    text::law_text_roundtrip(r.local_host);
}

/// The first registration stands in front of the others.
proof fn lemma_regs_first(regs: Seq<ProxyRegView>)
    requires
        regs.len() > 0,
    ensures
        protocol::regs_bytes(regs) == protocol::reg_bytes(regs[0]) + protocol::regs_bytes(
            regs.skip(1),
        ),
        protocol::reg_bytes(regs[0]).len() > 0,
{
    let f = |r: ProxyRegView| protocol::reg_bytes(r);
    assert(regs.map_values(f).skip(1) =~= regs.skip(1).map_values(f));
    buffer::lemma_concat_first(regs.map_values(f));
}

/// One registration, then the others.
proof fn lemma_take_regs_first(
    p: Seq<u8>,
    r: ProxyRegView,
    p1: Seq<u8>,
    n: nat,
)
    requires
        n > 0,
        protocol::take_reg(p) == Some((r, p1)),
    ensures
        protocol::take_regs(p, n) == match protocol::take_regs(p1, (n - 1) as nat) {
            Some((rs, rest)) => Some((seq![r] + rs, rest)),
            None => None,
        },
{
}

proof fn lemma_regs(regs: Seq<ProxyRegView>, rest: Seq<u8>)
    requires
        forall|i: int|
            0 <= i < regs.len() ==> short_text((#[trigger] regs[i]).name) && short_text(
                regs[i].local_host,
            ),
    ensures
        protocol::take_regs(protocol::regs_bytes(regs) + rest, regs.len()) == Some((regs, rest)),
        regs.len() <= protocol::regs_bytes(regs).len(),
    decreases regs.len(),
{
    if regs.len() > 0 {
        let tail = regs.skip(1);
        lemma_regs_first(regs);
        let first = protocol::reg_bytes(regs[0]);
        let after = protocol::regs_bytes(tail) + rest;
        let p = protocol::regs_bytes(regs) + rest;
        assert(p =~= first + after);
        lemma_reg(regs[0], after);
        lemma_regs(tail, rest);
        lemma_take_regs_first(p, regs[0], after, regs.len());
        assert(seq![regs[0]] + tail =~= regs);
    } else {
        assert(regs =~= Seq::empty());
        assert(protocol::regs_bytes(regs) + rest =~= rest);
    }
}

proof fn lemma_ack(e: ProxyAckView, rest: Seq<u8>)
    requires
        short_text(e.name),
    ensures
        protocol::take_ack(protocol::ack_bytes(e) + rest) == Some((e, rest)),
{
    let name = encode_utf8(e.name);
    let p1 = seq![e.status] + rest;
    assert(protocol::ack_bytes(e) + rest =~= protocol::short(name) + p1);
    lemma_short(name, p1);
    assert(p1.skip(1) =~= rest);
    text::law_text_roundtrip(e.name);
}

proof fn lemma_acks(entries: Seq<ProxyAckView>)
    requires
        forall|i: int| 0 <= i < entries.len() ==> short_text((#[trigger] entries[i]).name),
    ensures
        protocol::take_acks(protocol::acks_bytes(entries)) == Some(entries),
    decreases entries.len(),
{
    let f = |e: ProxyAckView| protocol::ack_bytes(e);
    if entries.len() > 0 {
        let tail = entries.skip(1);
        assert(entries.map_values(f).skip(1) =~= tail.map_values(f));
        buffer::lemma_concat_first(entries.map_values(f));
        lemma_ack(entries[0], protocol::acks_bytes(tail));
        lemma_acks(tail);
        assert(seq![entries[0]] + tail =~= entries);
    } else {
        assert(entries =~= Seq::empty());
    }
}

proof fn lemma_be32(n: u32)
    ensures
        buffer::be32_at(buffer::be32(n), 0) == n,
{
    let p = buffer::be32(n);
    assert(p[0] == n / 0x100_0000);
    assert(p[1] == n / 0x1_0000 % 256);
    assert(p[2] == n / 256 % 256);
    assert(p[3] == n % 256);
}

/// Registrations whose texts fit their length bytes, and no more of them than
/// the count can say.
pub open spec fn countable(regs: Seq<ProxyRegView>) -> bool {
    &&& regs.len() <= u16::MAX
    &&& forall|i: int|
        0 <= i < regs.len() ==> short_text((#[trigger] regs[i]).name) && short_text(
            regs[i].local_host,
        )
}

/// The payload of PROXIES decodes to the registrations that it was made of.
pub proof fn law_proxies_roundtrip(regs: Seq<ProxyRegView>)
    requires
        countable(regs),
    ensures
        protocol::proxies_of(protocol::payload_of(FrameView::Proxies(regs))) == FrameView::Proxies(
            regs,
        ),
{
    let p = protocol::payload_of(FrameView::Proxies(regs));
    let rest = protocol::regs_bytes(regs);
    let n = (regs.len() % 65536) as u16;
    lemma_regs(regs, Seq::empty());
    assert(rest + Seq::<u8>::empty() =~= rest);
    assert(p == buffer::be16(n) + rest);
    assert(n == regs.len());
    lemma_be16(n, rest);
    assert(protocol::take_u16(p) == Some((n, rest)));
    assert(protocol::take_regs(rest, n as nat) == Some((regs, Seq::<u8>::empty())));
}

proof fn lemma_short_cut(b: Seq<u8>, m: int)
    requires
        b.len() <= 255,
        0 <= m < protocol::short(b).len(),
    ensures
        protocol::take_short(protocol::short(b).take(m)) is None,
{
    if m > 0 {
        assert(protocol::short(b).take(m)[0] == b.len());
    }
}

/// A registration that is cut off is none.
proof fn lemma_reg_cut(r: ProxyRegView, m: int)
    requires
        short_text(r.name),
        short_text(r.local_host),
        0 <= m < protocol::reg_bytes(r).len(),
    ensures
        protocol::take_reg(protocol::reg_bytes(r).take(m)) is None,
{
    let name = protocol::short(encode_utf8(r.name));
    let host = protocol::short(encode_utf8(r.local_host));
    let remote = buffer::be16(r.remote);
    let port = buffer::be16(r.local_port);
    let all = protocol::reg_bytes(r);
    let p = all.take(m);
    let m1 = m - name.len();
    let m2 = m1 - 2;
    let m3 = m2 - host.len();
    if m1 < 0 {
        assert(p =~= name.take(m));
        lemma_short_cut(encode_utf8(r.name), m);
    } else {
        let p1 = (remote + host + port).take(m1);
        assert(p =~= name + p1);
        lemma_short(encode_utf8(r.name), p1);
        if m2 >= 0 {
            let p2 = (host + port).take(m2);
            assert(p1 =~= remote + p2);
            lemma_be16(r.remote, p2);
            if m3 < 0 {
                assert(p2 =~= host.take(m2));
                lemma_short_cut(encode_utf8(r.local_host), m2);
            } else {
                let p3 = port.take(m3);
                assert(p2 =~= host + p3);
                lemma_short(encode_utf8(r.local_host), p3);
            }
        }
    }
}

proof fn lemma_regs_cut(regs: Seq<ProxyRegView>, m: int)
    requires
        countable(regs),
        0 <= m < protocol::regs_bytes(regs).len(),
    ensures
        protocol::take_regs(protocol::regs_bytes(regs).take(m), regs.len()) is None,
    decreases regs.len(),
{
    let all = protocol::regs_bytes(regs);
    if regs.len() == 0 {
        assert(all =~= Seq::<u8>::empty());
    } else {
        let tail = regs.skip(1);
        let first = protocol::reg_bytes(regs[0]);
        let rest = protocol::regs_bytes(tail);
        lemma_regs_first(regs);
        if m < first.len() {
            assert(all.take(m) =~= first.take(m));
            lemma_reg_cut(regs[0], m);
        } else {
            let k = m - first.len();
            assert(all.take(m) =~= first + rest.take(k));
            lemma_reg(regs[0], rest.take(k));
            lemma_regs_cut(tail, k);
            lemma_take_regs_first(all.take(m), regs[0], rest.take(k), regs.len());
        }
    }
}

/// A PROXIES payload that is cut off is `Fail`: it is never taken for a shorter
/// list.
pub proof fn law_proxies_cut(regs: Seq<ProxyRegView>, k: int)
    requires
        countable(regs),
        0 <= k < protocol::payload_of(FrameView::Proxies(regs)).len(),
    ensures
        protocol::proxies_of(protocol::payload_of(FrameView::Proxies(regs)).take(k))
            == FrameView::Fail,
{
    let p = protocol::payload_of(FrameView::Proxies(regs));
    let rest = protocol::regs_bytes(regs);
    let n = regs.len() as u16;
    assert(p == buffer::be16(n) + rest);
    if k >= 2 {
        assert(p.take(k) =~= buffer::be16(n) + rest.take(k - 2));
        lemma_be16(n, rest.take(k - 2));
        lemma_regs_cut(regs, k - 2);
    }
}

proof fn lemma_proxyack_payload(entries: Seq<ProxyAckView>, data_port: u16)
    requires
        encodable(FrameView::ProxyAck { entries, data_port }),
    ensures
        protocol::proxyack_of(protocol::payload_of(FrameView::ProxyAck { entries, data_port }))
            == Some((entries, data_port)),
{
    let p = protocol::payload_of(FrameView::ProxyAck { entries, data_port });
    lemma_acks(entries);
    assert(p.take(p.len() - 2) =~= protocol::acks_bytes(entries));
    assert(p[p.len() - 2] == buffer::be16(data_port)[0]);
    assert(p[p.len() - 1] == buffer::be16(data_port)[1]);
}

proof fn lemma_new_payload(id: u16, local_host: Seq<char>, local_port: u16)
    requires
        short_text(local_host),
    ensures
        protocol::new_of(protocol::payload_of(FrameView::New { id, local_host, local_port }))
            == (FrameView::New { id, local_host, local_port }),
{
    let p = protocol::payload_of(FrameView::New { id, local_host, local_port });
    let host = encode_utf8(local_host);
    let p2 = buffer::be16(local_port);
    let p1 = protocol::short(host) + p2;
    assert(p =~= buffer::be16(id) + p1);
    lemma_be16(id, p1);
    lemma_short(host, p2);
    assert(p2 + Seq::<u8>::empty() =~= p2);
    lemma_be16(local_port, Seq::empty());
    text::law_text_roundtrip(local_host);
}

/// The payload of an encodable frame decodes to that frame.
pub proof fn law_payload_roundtrip(f: FrameView)
    requires
        encodable(f),
    ensures
        protocol::frame_of(protocol::kind_of(f), protocol::payload_of(f)) == f,
{
    match f {
        FrameView::Proxies(regs) => {
            lemma_regs(regs, Seq::empty());
            law_proxies_roundtrip(regs);
        },
        FrameView::ProxyAck { entries, data_port } => lemma_proxyack_payload(entries, data_port),
        FrameView::New { id, local_host, local_port } => lemma_new_payload(
            id,
            local_host,
            local_port,
        ),
        FrameView::Close(id) => {
            assert(buffer::be16(id) + Seq::<u8>::empty() =~= buffer::be16(id));
            lemma_be16(id, Seq::empty());
        },
        FrameView::Data(id, chunk) => lemma_be16(id, chunk),
        FrameView::Ping(n) => lemma_be32(n),
        FrameView::Pong(n) => lemma_be32(n),
        _ => {},
    }
}

// ---- every byte of a payload is accounted for ----

/// Is the text in front of `p` UTF-8?
pub open spec fn text_valid(p: Seq<u8>) -> bool {
    protocol::take_short(p) matches Some((b, _)) ==> valid_utf8(b)
}

/// Are the names in these registration results UTF-8?
pub open spec fn ack_texts_valid(p: Seq<u8>) -> bool
    decreases p.len(),
{
    &&& text_valid(p)
    &&& match protocol::take_ack(p) {
        Some((_, rest)) => rest.len() < p.len() ==> ack_texts_valid(rest),
        None => true,
    }
}

/// Are the texts in the registration in front of `p` UTF-8?
pub open spec fn reg_text_valid(p: Seq<u8>) -> bool {
    &&& text_valid(p)
    &&& match protocol::take_short(p) {
        Some((_, p1)) => text_valid(p1.skip(2)),
        None => true,
    }
}

/// Are the texts in these `n` registrations UTF-8?
pub open spec fn reg_texts_valid(p: Seq<u8>, n: nat) -> bool
    decreases n,
{
    n > 0 ==> {
        &&& reg_text_valid(p)
        &&& match protocol::take_reg(p) {
            Some((_, rest)) => reg_texts_valid(rest, (n - 1) as nat),
            None => true,
        }
    }
}

/// Are the texts in the payload `p` of a frame with type byte `t` UTF-8?
pub open spec fn texts_valid(t: u8, p: Seq<u8>) -> bool {
    &&& t == protocol::PROXYACK ==> ack_texts_valid(p.take(p.len() - 2))
    &&& t == protocol::PROXIES ==> reg_texts_valid(
        p.skip(2),
        buffer::be16_at(p, 0) as nat,
    )
    &&& t == protocol::NEW ==> text_valid(p.skip(2))
}

proof fn lemma_short_back(p: Seq<u8>)
    requires
        protocol::take_short(p) is Some,
        text_valid(p),
    ensures
        ({
            let (b, rest) = protocol::take_short(p)->Some_0;
            protocol::short(encode_utf8(text::text_of(b))) + rest == p
        }),
{
    let (b, rest) = protocol::take_short(p)->Some_0;
    decode_utf8_encode_utf8(b);
    assert(protocol::short(b) + rest =~= p);
}

proof fn lemma_be16_back(p: Seq<u8>)
    requires
        p.len() >= 2,
    ensures
        buffer::be16(buffer::be16_at(p, 0)) + p.skip(2) == p,
{
    let n = buffer::be16_at(p, 0);
    assert(n == p[0] * 256 + p[1]);
    assert(buffer::be16(n) + p.skip(2) =~= p);
}

proof fn lemma_acks_back(p: Seq<u8>)
    requires
        protocol::take_acks(p) is Some,
        ack_texts_valid(p),
    ensures
        protocol::acks_bytes(protocol::take_acks(p)->Some_0) == p,
    decreases p.len(),
{
    let f = |e: ProxyAckView| protocol::ack_bytes(e);
    let es = protocol::take_acks(p)->Some_0;
    if p.len() == 0 {
        assert(es.map_values(f) =~= Seq::empty());
        assert(protocol::acks_bytes(es) =~= p);
    } else {
        let (e, rest) = protocol::take_ack(p)->Some_0;
        let (_, p1) = protocol::take_short(p)->Some_0;
        lemma_short_back(p);
        lemma_acks_back(rest);
        let tail = protocol::take_acks(rest)->Some_0;
        assert(es.skip(1) =~= tail);
        assert(es.map_values(f).skip(1) =~= tail.map_values(f));
        buffer::lemma_concat_first(es.map_values(f));
        assert(p1 =~= seq![e.status] + rest);
        assert(protocol::ack_bytes(e) + rest =~= p);
    }
}

/// A PROXYACK payload that decodes is the payload of what it decodes to: every
/// byte of it is accounted for.
pub proof fn law_proxyack_exact(p: Seq<u8>)
    requires
        protocol::proxyack_of(p) is Some,
        ack_texts_valid(p.take(p.len() - 2)),
    ensures
        ({
            let (entries, data_port) = protocol::proxyack_of(p)->Some_0;
            protocol::payload_of(FrameView::ProxyAck { entries, data_port }) == p
        }),
{
    let (entries, data_port) = protocol::proxyack_of(p)->Some_0;
    let body = p.take(p.len() - 2);
    let end = p.skip(p.len() - 2);
    lemma_acks_back(body);
    lemma_be16_back(end);
    assert(buffer::be16(data_port) =~= end);
    assert(body + end =~= p);
}

proof fn lemma_reg_back(p: Seq<u8>, r: ProxyRegView, rest: Seq<u8>)
    requires
        protocol::take_reg(p) == Some((r, rest)),
        reg_text_valid(p),
    ensures
        protocol::reg_bytes(r) + rest == p,
{
    let (_, p1) = protocol::take_short(p)->Some_0;
    let p2 = p1.skip(2);
    let (_, p3) = protocol::take_short(p2)->Some_0;
    lemma_short_back(p);
    lemma_be16_back(p1);
    lemma_short_back(p2);
    lemma_be16_back(p3);
    assert(protocol::reg_bytes(r) + rest =~= protocol::short(encode_utf8(r.name)) + (buffer::be16(
        r.remote,
    ) + (protocol::short(encode_utf8(r.local_host)) + (buffer::be16(r.local_port) + rest))));
}

proof fn lemma_regs_back_first(r: ProxyRegView, tail: Seq<ProxyRegView>, rest: Seq<u8>)
    ensures
        protocol::regs_bytes(seq![r] + tail) + rest == protocol::reg_bytes(r) + (
        protocol::regs_bytes(tail) + rest),
{
    let regs = seq![r] + tail;
    assert(regs.skip(1) =~= tail);
    lemma_regs_first(regs);
    assert(protocol::regs_bytes(regs) + rest =~= protocol::reg_bytes(r) + (protocol::regs_bytes(
        tail,
    ) + rest));
}

/// What is read as registrations holds at least one where one is asked for.
proof fn lemma_take_regs_some(p: Seq<u8>, n: nat)
    requires
        n > 0,
        protocol::take_regs(p, n) is Some,
    ensures
        protocol::take_reg(p) is Some,
        protocol::take_regs(protocol::take_reg(p)->Some_0.1, (n - 1) as nat) is Some,
{
}

proof fn lemma_regs_back(p: Seq<u8>, n: nat, regs: Seq<ProxyRegView>, rest: Seq<u8>)
    requires
        protocol::take_regs(p, n) == Some((regs, rest)),
        reg_texts_valid(p, n),
    ensures
        regs.len() == n,
        protocol::regs_bytes(regs) + rest == p,
    decreases n,
{
    if n == 0 {
        assert(regs =~= Seq::empty());
        assert(protocol::regs_bytes(regs) + rest =~= p);
    } else {
        lemma_take_regs_some(p, n);
        let (r, p1) = protocol::take_reg(p)->Some_0;
        let (tail, rest1) = protocol::take_regs(p1, (n - 1) as nat)->Some_0;
        lemma_take_regs_first(p, r, p1, n);
        lemma_regs_back(p1, (n - 1) as nat, tail, rest1);
        lemma_reg_back(p, r, p1);
        lemma_regs_back_first(r, tail, rest1);
    }
}

/// A PROXIES payload that decodes is the payload of what it decodes to.
pub proof fn law_proxies_exact(p: Seq<u8>)
    requires
        protocol::proxies_of(p) != FrameView::Fail,
        reg_texts_valid(p.skip(2), buffer::be16_at(p, 0) as nat),
    ensures
        protocol::payload_of(protocol::proxies_of(p)) == p,
{
    let n = buffer::be16_at(p, 0);
    let body = p.skip(2);
    assert(protocol::take_u16(p) == Some((n, body)));
    assert(protocol::take_regs(body, n as nat) is Some);
    let (regs, rest) = protocol::take_regs(body, n as nat)->Some_0;
    lemma_be16_back(p);
    lemma_regs_back(body, n as nat, regs, rest);
    assert(protocol::proxies_of(p) == FrameView::Proxies(regs));
    assert(rest =~= Seq::<u8>::empty());
    assert(protocol::regs_bytes(regs) + rest =~= protocol::regs_bytes(regs));
    assert((regs.len() % 65536) as u16 == n);
}

/// A NEW payload that decodes is the payload of what it decodes to.
pub proof fn law_new_exact(p: Seq<u8>)
    requires
        protocol::new_of(p) != FrameView::Fail,
        text_valid(p.skip(2)),
    ensures
        protocol::payload_of(protocol::new_of(p)) == p,
{
    let p1 = p.skip(2);
    let (_, p2) = protocol::take_short(p1)->Some_0;
    lemma_be16_back(p);
    lemma_short_back(p1);
    lemma_be16_back(p2);
    assert(protocol::payload_of(protocol::new_of(p)) =~= p);
}

proof fn lemma_be32_back(p: Seq<u8>)
    requires
        p.len() == 4,
    ensures
        buffer::be32(buffer::be32_at(p, 0)) == p,
{
    let n = buffer::be32_at(p, 0);
    let (a, b, c, d) = (p[0], p[1], p[2], p[3]);
    assert(n == a * 0x100_0000 + b * 0x1_0000 + c * 256 + d);
    assert(n / 0x100_0000 == a && n / 0x1_0000 % 256 == b && n / 256 % 256 == c && n % 256 == d)
        by (bit_vector)
        requires
            n == a * 0x100_0000 + b * 0x1_0000 + c * 256 + d,
    ;
    assert(buffer::be32(n) =~= p);
}

/// The frames whose payload has a length of its own, and DATA.
proof fn lemma_plain_exact(t: u8, p: Seq<u8>)
    requires
        protocol::frame_of(t, p) != FrameView::Fail,
        t != protocol::PROXYACK,
        t != protocol::PROXIES,
        t != protocol::NEW,
    ensures
        protocol::payload_of(protocol::frame_of(t, p)) == p,
{
    if t == protocol::CLOSE || t == protocol::DATA {
        lemma_be16_back(p);
    }
    if t == protocol::PING || t == protocol::PONG {
        lemma_be32_back(p);
    }
    assert(protocol::payload_of(protocol::frame_of(t, p)) =~= p);
}

/// A payload that decodes to a frame other than `Fail`, with its texts in UTF-8,
/// is the payload of that frame: no byte of it is ignored.
pub proof fn law_payload_exact(t: u8, p: Seq<u8>)
    requires
        protocol::frame_of(t, p) != FrameView::Fail,
        texts_valid(t, p),
    ensures
        protocol::payload_of(protocol::frame_of(t, p)) == p,
{
    if t == protocol::PROXYACK {
        assert(protocol::proxyack_of(p) is Some);
        law_proxyack_exact(p);
    } else if t == protocol::PROXIES {
        assert(protocol::frame_of(t, p) == protocol::proxies_of(p));
        law_proxies_exact(p);
    } else if t == protocol::NEW {
        assert(protocol::frame_of(t, p) == protocol::new_of(p));
        law_new_exact(p);
    } else {
        lemma_plain_exact(t, p);
    }
}

/// What was encoded is parsed back, and exactly that is consumed.
pub proof fn law_roundtrip(f: FrameView, rest: Seq<u8>)
    requires
        encodable(f),
    ensures
        protocol::first_frame(protocol::wire(f) + rest) == Some((f, rest)),
{
    let p = protocol::payload_of(f);
    let b = protocol::wire(f) + rest;
    law_payload_roundtrip(f);
    let len = p.len() as u16;
    assert(b[1] == buffer::be16(len)[0]);
    assert(b[2] == buffer::be16(len)[1]);
    assert(b.subrange(HDR as int, HDR + len) =~= p);
    assert(b.skip(HDR + len) =~= rest);
}

/// A frame that is not there in full yet gives nothing.
pub proof fn law_partial_frame(f: FrameView, k: int)
    requires
        protocol::payload_of(f).len() <= u16::MAX,
        0 <= k < protocol::wire(f).len(),
    ensures
        protocol::first_frame(protocol::wire(f).take(k)) is None,
{
    let len = protocol::payload_of(f).len() as u16;
    if k >= HDR {
        let b = protocol::wire(f).take(k);
        assert(b[1] == buffer::be16(len)[0]);
        assert(b[2] == buffer::be16(len)[1]);
    }
}

/// More bytes behind a frame do not change it.
pub proof fn law_more_bytes(a: Seq<u8>, b: Seq<u8>)
    requires
        protocol::first_frame(a) is Some,
    ensures
        protocol::first_frame(a + b) == Some(
            (protocol::first_frame(a)->Some_0.0, protocol::first_frame(a)->Some_0.1 + b),
        ),
{
    let end = HDR + buffer::be16_at(a, 1);
    assert((a + b).subrange(HDR as int, end) =~= a.subrange(HDR as int, end));
    assert((a + b).skip(end) =~= a.skip(end) + b);
}

/// A parsed frame takes its header off the buffer at least, so that parsing
/// comes to an end.
pub proof fn law_progress(b: Seq<u8>)
    ensures
        protocol::first_frame(b) matches Some((_, rest)) ==> rest.len() + HDR <= b.len(),
{
}

/// Bytes that arrive in two reads give the frames that they give in one.
pub proof fn law_reassembly(a: Seq<u8>, b: Seq<u8>)
    ensures
        protocol::all_frames(a + b).0 == protocol::all_frames(a).0 + protocol::all_frames(protocol::all_frames(a).1 + b).0,
        protocol::all_frames(a + b).1 == protocol::all_frames(protocol::all_frames(a).1 + b).1,
    decreases a.len(),
{
    law_progress(a);
    match protocol::first_frame(a) {
        Some((f, rest)) => {
            law_more_bytes(a, b);
            law_reassembly(rest, b);
            assert(protocol::all_frames(a + b).0 =~= protocol::all_frames(a).0 + protocol::all_frames(
                protocol::all_frames(a).1 + b,
            ).0);
        },
        None => {
            assert(Seq::<FrameView>::empty() + protocol::all_frames(a + b).0 =~= protocol::all_frames(a + b).0);
        },
    }
}

/// The wire bytes of frames, one after the other.
pub open spec fn stream(frames: Seq<FrameView>) -> Seq<u8> {
    buffer::concat(frames.map_values(|f: FrameView| protocol::wire(f)))
}

/// One frame more on the stream.
pub proof fn lemma_stream_push(frames: Seq<FrameView>, f: FrameView)
    ensures
        stream(frames.push(f)) == stream(frames) + protocol::wire(f),
{
    let g = |f: FrameView| protocol::wire(f);
    assert(frames.push(f).map_values(g) =~= frames.map_values(g).push(protocol::wire(f)));
    buffer::lemma_concat_push(frames.map_values(g), protocol::wire(f));
}

/// Frames that are written in two batches are on the stream as if they had been
/// written in one.
pub proof fn law_stream_add(a: Seq<FrameView>, b: Seq<FrameView>)
    ensures
        stream(a + b) == stream(a) + stream(b),
{
    let g = |f: FrameView| protocol::wire(f);
    assert((a + b).map_values(g) =~= a.map_values(g) + b.map_values(g));
    buffer::lemma_concat_add(a.map_values(g), b.map_values(g));
}

/// Frames that were written one after the other are read in the same order,
/// each once, with nothing left over.
pub proof fn law_stream(frames: Seq<FrameView>)
    requires
        forall|i: int| 0 <= i < frames.len() ==> encodable(#[trigger] frames[i]),
    ensures
        protocol::all_frames(stream(frames)) == (frames, Seq::<u8>::empty()),
    decreases frames.len(),
{
    let g = |f: FrameView| protocol::wire(f);
    if frames.len() > 0 {
        let tail = frames.skip(1);
        assert(frames.map_values(g).skip(1) =~= tail.map_values(g));
        buffer::lemma_concat_first(frames.map_values(g));
        law_roundtrip(frames[0], stream(tail));
        law_progress(stream(frames));
        law_stream(tail);
        assert(seq![frames[0]] + tail =~= frames);
    } else {
        assert(frames =~= Seq::empty());
        assert(stream(frames) =~= Seq::<u8>::empty());
    }
}

/// A stream that is cut off gives the first of its frames, and nothing that was
/// not sent.
pub proof fn law_cut_stream(frames: Seq<FrameView>, k: int) -> (j: int)
    requires
        forall|i: int| 0 <= i < frames.len() ==> encodable(#[trigger] frames[i]),
        0 <= k <= stream(frames).len(),
    ensures
        0 <= j <= frames.len(),
        protocol::all_frames(stream(frames).take(k)).0 == frames.take(j),
    decreases frames.len(),
{
    let g = |f: FrameView| protocol::wire(f);
    let all = stream(frames);
    if frames.len() == 0 {
        assert(all =~= Seq::<u8>::empty());
        assert(protocol::all_frames(all.take(k)).0 =~= frames.take(0));
        0
    } else {
        let tail = frames.skip(1);
        let first = protocol::wire(frames[0]);
        assert(frames.map_values(g).skip(1) =~= tail.map_values(g));
        buffer::lemma_concat_first(frames.map_values(g));
        assert(all == first + stream(tail));
        if k < first.len() {
            assert(all.take(k) =~= first.take(k));
            law_partial_frame(frames[0], k);
            assert(protocol::all_frames(all.take(k)).0 =~= frames.take(0));
            0
        } else {
            let m = k - first.len();
            let rest = stream(tail).take(m);
            assert(all.take(k) =~= first + rest);
            law_roundtrip(frames[0], rest);
            law_progress(first + rest);
            let j = law_cut_stream(tail, m);
            assert(seq![frames[0]] + tail.take(j) =~= frames.take(j + 1));
            j + 1
        }
    }
}

/// Two encodable frames with the same bytes are the same frame.
pub proof fn law_wire_injective(f: FrameView, g: FrameView)
    requires
        encodable(f),
        encodable(g),
        protocol::wire(f) == protocol::wire(g),
    ensures
        f == g,
{
    law_roundtrip(f, Seq::empty());
    law_roundtrip(g, Seq::empty());
}

/// A DATA frame fits the wire exactly where its chunk is no longer than
/// `MAX_PAYLOAD`.
pub proof fn law_max_payload(id: u16, chunk: Seq<u8>)
    ensures
        encodable(FrameView::Data(id, chunk)) <==> chunk.len() <= MAX_PAYLOAD,
{
}

/// A frame of unknown type is `Fail`, whatever it holds.
pub proof fn law_unknown_type(t: u8, p: Seq<u8>)
    requires
        t == 0 || t > protocol::PROXYACK,
    ensures
        protocol::frame_of(t, p) == FrameView::Fail,
{
}

/// A parsed frame has the type byte that it was sent with, or is `Fail`.
pub proof fn law_type_kept(t: u8, p: Seq<u8>)
    ensures
        protocol::kind_of(protocol::frame_of(t, p)) == t || protocol::frame_of(t, p)
            == FrameView::Fail,
{
}

} // verus!
