//! What values stand for in contracts: field by field, element by element.
use crate::buffer;
use crate::client::{Answer, Received, ReceivedView, Reply};
use crate::client;
use crate::config::{ControlAddr, PortMapping};
use crate::config;
use crate::protocol::{Frame, FrameView, ProxyAckEntry, ProxyReg};
use crate::protocol;
use crate::server::{ControlState, ControlStep, ControlStepView};
use crate::server;
use crate::text;
use crate::tunnel;
use bytes::Bytes;
use vstd::prelude::*;

verus! {

/// Registrations, results and mappings stand for their fields.
pub proof fn law_records(r: ProxyReg, e: ProxyAckEntry, m: PortMapping)
    ensures
        r@.name == r.name@,
        r@.remote == r.remote,
        r@.local_host == r.local_host@,
        r@.local_port == r.local_port,
        e@.name == e.name@,
        e@.status == e.status,
        m@.remote == m.remote,
        m@.local_host == m.local_host@,
        m@.local_port == m.local_port,
{
}

/// A list stands for what its elements stand for, in order.
pub proof fn law_lists(
    regs: Seq<ProxyReg>,
    entries: Seq<ProxyAckEntry>,
    frames: Seq<Frame>,
    maps: Seq<PortMapping>,
    texts: Seq<String>,
    addrs: Seq<(String, u16)>,
    parts: Seq<Bytes>,
    i: int,
)
    ensures
        protocol::reg_views(regs).len() == regs.len(),
        0 <= i < regs.len() ==> protocol::reg_views(regs)[i] == regs[i]@,
        protocol::ack_views(entries).len() == entries.len(),
        0 <= i < entries.len() ==> protocol::ack_views(entries)[i] == entries[i]@,
        protocol::frame_views(frames).len() == frames.len(),
        0 <= i < frames.len() ==> protocol::frame_views(frames)[i] == frames[i]@,
        config::mapping_views(maps).len() == maps.len(),
        0 <= i < maps.len() ==> config::mapping_views(maps)[i] == maps[i]@,
        config::texts(texts).len() == texts.len(),
        0 <= i < texts.len() ==> config::texts(texts)[i] == texts[i]@,
        config::addrs(addrs).len() == addrs.len(),
        0 <= i < addrs.len() ==> config::addrs(addrs)[i] == (addrs[i].0@, addrs[i].1),
        tunnel::part_bytes(parts).len() == parts.len(),
        0 <= i < parts.len() ==> tunnel::part_bytes(parts)[i] == buffer::held(parts[i]),
{
}

/// A frame stands for its kind and its fields.
pub proof fn law_frame_view(f: Frame)
    ensures
        f matches Frame::Auth(h) ==> f@ == FrameView::Auth(h@),
        f is Okay ==> f@ is Okay,
        f is Fail ==> f@ is Fail,
        f matches Frame::DCount(n) ==> f@ == FrameView::DCount(n),
        f matches Frame::ChIdx(n) ==> f@ == FrameView::ChIdx(n),
        f matches Frame::Close(id) ==> f@ == FrameView::Close(id),
        f matches Frame::Ping(n) ==> f@ == FrameView::Ping(n),
        f matches Frame::Pong(n) ==> f@ == FrameView::Pong(n),
        f matches Frame::Data(id, b) ==> f@ == FrameView::Data(id, buffer::held(b)),
        f matches Frame::New { id, local_host, local_port } ==> f@ == (FrameView::New {
            id,
            local_host: local_host@,
            local_port,
        }),
        f matches Frame::Proxies(regs) ==> (f@ matches FrameView::Proxies(v) && v
            == protocol::reg_views(regs@)),
        f matches Frame::ProxyAck { entries, data_port } ==> (f@ matches FrameView::ProxyAck {
            entries: v,
            data_port: p,
        } && v == protocol::ack_views(entries@) && p == data_port),
{
}

/// What was read or resolved stands for itself, and a complaint for its text.
pub proof fn law_results(
    ports: Vec<u16>,
    port: u16,
    host: String,
    list: Vec<(String, u16)>,
    maps: Vec<PortMapping>,
    ctrl: ControlAddr,
    n: u8,
    e: String,
)
    ensures
        config::ports_view(Ok(ports)) == Ok::<Seq<u16>, Seq<char>>(ports@),
        config::ports_view(Err(e)) == Err::<Seq<u16>, Seq<char>>(e@),
        config::port_view(Ok(port)) == Ok::<u16, Seq<char>>(port),
        config::port_view(Err(e)) == Err::<u16, Seq<char>>(e@),
        config::addr_view(Ok((host, port))) == Ok::<(Seq<char>, u16), Seq<char>>((host@, port)),
        config::addr_view(Err(e)) == Err::<(Seq<char>, u16), Seq<char>>(e@),
        config::addrs_view(Ok(list)) == Ok::<Seq<(Seq<char>, u16)>, Seq<char>>(
            config::addrs(list@),
        ),
        config::addrs_view(Err(e)) == Err::<Seq<(Seq<char>, u16)>, Seq<char>>(e@),
        config::mappings_view(Ok(maps)) == Ok::<Seq<config::MappingView>, Seq<char>>(
            config::mapping_views(maps@),
        ),
        config::mappings_view(Err(e)) == Err::<Seq<config::MappingView>, Seq<char>>(e@),
        config::server_view(Ok((ctrl, port))) == Ok::<(ControlAddr, u16), Seq<char>>(
            (ctrl, port),
        ),
        config::server_view(Err(e)) == Err::<(ControlAddr, u16), Seq<char>>(e@),
        config::client_view(Ok((host, port, n))) == Ok::<(Seq<char>, u16, u8), Seq<char>>(
            (host@, port, n),
        ),
        config::client_view(Err(e)) == Err::<(Seq<char>, u16, u8), Seq<char>>(e@),
{
}

/// A read and a reply stand for what they are.
pub proof fn law_replies(f: Frame, entries: Vec<ProxyAckEntry>, data_port: u16, e: String)
    ensures
        Received::Closed@ == ReceivedView::Closed,
        Received::Partial@ == ReceivedView::Partial,
        Received::Frame(f)@ == ReceivedView::Frame(f@),
        client::plain_answer(Reply::Wait) == Answer::<()>::Wait,
        client::plain_answer(Reply::Got(())) == Answer::Got(()),
        client::plain_answer(Reply::Failed(e)) == Answer::<()>::Failed(e@),
        client::ack_answer(Reply::Wait) is Wait,
        client::ack_answer(Reply::Got((entries, data_port))) == Answer::Got(
            (protocol::ack_views(entries@), data_port),
        ),
        client::ack_answer(Reply::Failed(e)) matches Answer::Failed(t) && t == e@,
{
}

/// The halves of a text stand for what is in them.
pub proof fn law_halves(a: &str, b: &str)
    ensures
        text::pair_view(Some((a, b))) == Some((a@, b@)),
        text::pair_view(None) is None,
{
}

/// A step of the server stands for what it does, with what it sends.
pub proof fn law_steps(
    state: ControlState,
    reply: Option<Frame>,
    n: u8,
    regs: Vec<ProxyReg>,
    f: Frame,
)
    ensures
        server::opt_frame(None) is None,
        server::opt_frame(Some(f)) == Some(f@),
        (ControlStep::Continue { state, reply })@ == (ControlStepView::Continue {
            state,
            reply: server::opt_frame(reply),
        }),
        (ControlStep::Serve { n, regs })@ == (ControlStepView::Serve {
            n,
            regs: protocol::reg_views(regs@),
        }),
        (ControlStep::AuthFailed { reply: f })@ == (ControlStepView::AuthFailed { reply: f@ }),
        (ControlStep::BadCount { count: n })@ == (ControlStepView::BadCount { count: n }),
        ControlStep::Close@ == ControlStepView::Close,
{
}

} // verus!
