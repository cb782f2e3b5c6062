//! What holds of the server as a whole: who gets a session, which public ports
//! are bound, and which data connections get a channel.
use crate::config::{ServerConfig, MAX_DATA_CHANNELS};
use crate::config;
use crate::config_laws;
use crate::protocol::{FrameView, ProxyRegView};
use crate::server::{Attach, ControlState, ControlStepView, DataHello, DataState, Plan};
use crate::server;
use vstd::prelude::*;

verus! {

/// The handshake on a control connection over which `frames` come in before it
/// ends: what it comes to.
pub open spec fn control_run(
    expected: Seq<u8>,
    state: ControlState,
    frames: Seq<FrameView>,
) -> ControlStepView
    decreases frames.len(),
{
    if frames.len() == 0 {
        server::control_next(expected, state, None)
    } else {
        match server::control_next(expected, state, Some(frames[0])) {
            ControlStepView::Continue { state: next, .. } => control_run(
                expected,
                next,
                frames.skip(1),
            ),
            step => step,
        }
    }
}

/// A session starts exactly where the client proves the secret, then asks for a
/// number of channels in range, then declares its proxies, in this order.
pub proof fn law_session_needs_secret(expected: Seq<u8>, frames: Seq<FrameView>)
    ensures
        control_run(expected, ControlState::Auth, frames) is Serve <==> {
            &&& frames.len() >= 3
            &&& frames[0] == FrameView::Auth(expected)
            &&& frames[1] matches FrameView::DCount(n)
            &&& 1 <= n <= MAX_DATA_CHANNELS
            &&& frames[2] is Proxies
        },
        control_run(expected, ControlState::Auth, frames) matches ControlStepView::Serve { n, regs }
            ==> frames[1] == FrameView::DCount(n) && frames[2] == FrameView::Proxies(regs),
{
    reveal_with_fuel(control_run, 4);
    if frames.len() >= 2 {
        assert(frames.skip(1)[0] == frames[1]);
        if frames.len() >= 3 {
            assert(frames.skip(1).skip(1)[0] == frames[2]);
        }
    }
}

/// A wrong secret is answered FAIL, and the connection is over.
pub proof fn law_wrong_secret_refused(expected: Seq<u8>, h: Seq<u8>, more: Seq<FrameView>)
    requires
        h != expected,
    ensures
        control_run(expected, ControlState::Auth, seq![FrameView::Auth(h)] + more) == (
        ControlStepView::AuthFailed { reply: FrameView::Fail }),
{
}

/// The handshake on a data connection over which `frames` come in before it
/// ends: what it comes to.
pub open spec fn data_run(expected: Seq<u8>, state: DataState, frames: Seq<FrameView>) -> DataHello
    decreases frames.len(),
{
    if frames.len() == 0 {
        server::data_next(expected, state, None)
    } else {
        match server::data_next(expected, state, Some(frames[0])) {
            DataHello::Continue { state: next } => data_run(expected, next, frames.skip(1)),
            step => step,
        }
    }
}

/// A data connection gets to a channel exactly where it proves the secret and
/// then names the channel.
pub proof fn law_channel_needs_secret(expected: Seq<u8>, frames: Seq<FrameView>, i: u8)
    ensures
        data_run(expected, DataState::Auth, frames) == (DataHello::Attach { i }) <==> {
            &&& frames.len() >= 2
            &&& frames[0] == FrameView::Auth(expected)
            &&& frames[1] == FrameView::ChIdx(i)
        },
{
    reveal_with_fuel(data_run, 3);
    if frames.len() >= 2 {
        assert(frames.skip(1)[0] == frames[1]);
    }
}

/// With a policy that the server runs with, a port may be exposed exactly where
/// it is not on `forbid_ports` and, if `allow_ports` is set, is on that.
pub proof fn law_running_policy(cfg: ServerConfig, port: u16)
    requires
        server::policies_complaint(cfg) is None,
    ensures
        config::permits(cfg, port) <==> !config::listed(cfg.forbid_ports, port) && (
        cfg.allow_ports is None || config::listed(cfg.allow_ports, port)),
{
    if let Some(f) = cfg.forbid_ports {
        config_laws::law_forbidden_is_listed(f, port);
    }
}

/// No public port is bound twice in a session.
pub proof fn law_one_bind_per_port(cfg: ServerConfig, regs: Seq<ProxyRegView>, i: int, j: int)
    requires
        0 <= i < j < regs.len(),
        server::plan_of(cfg, regs, i) == Plan::Bind,
        server::plan_of(cfg, regs, j) == Plan::Bind,
    ensures
        regs[i].remote != regs[j].remote,
{
    assert(!server::named_before(regs, j));
}

/// A public port that is reported bound was asked for by this registration
/// first, is permitted by the policy, and was bound.
pub proof fn law_bound_is_permitted(
    cfg: ServerConfig,
    regs: Seq<ProxyRegView>,
    plans: Seq<Plan>,
    bound: Seq<bool>,
    i: int,
)
    requires
        0 <= i < regs.len(),
        plans == Seq::new(regs.len(), |k: int| server::plan_of(cfg, regs, k)),
        bound.len() == regs.len(),
    ensures
        server::ack_of(regs, plans, bound)[i].status == 0 <==> config::permits(
            cfg,
            regs[i].remote,
        ) && !server::named_before(regs, i) && bound[i],
        server::ack_of(regs, plans, bound)[i].status == 1 <==> !config::permits(
            cfg,
            regs[i].remote,
        ) && !server::named_before(regs, i),
{
}

/// The results echo the registrations: as many, in the same order, under the
/// same names.
pub proof fn law_ack_echoes_order(regs: Seq<ProxyRegView>, plans: Seq<Plan>, bound: Seq<bool>)
    ensures
        server::ack_of(regs, plans, bound).len() == regs.len(),
        forall|i: int|
            0 <= i < regs.len() ==> (#[trigger] server::ack_of(regs, plans, bound)[i]).name
                == regs[i].name,
{
}

/// A channel that is attached cannot be attached again.
pub proof fn law_attached_is_busy<R>(slots: Seq<Option<R>>, i: u8)
    requires
        server::attached(slots, i).0 is Taken,
    ensures
        server::attached(server::attached(slots, i).1, i).0 is Busy,
{
}

/// A channel that was given back can be attached again, and its receiver is the
/// one that was given back: queued frames survive a flap.
pub proof fn law_reattach<R>(slots: Seq<Option<R>>, i: u8, rx: R)
    requires
        i < slots.len(),
    ensures
        server::attached(server::released(slots, i, rx), i).0 == Attach::Taken(rx),
{
}

/// Attaching one channel and giving it back leaves all slots as they were.
pub proof fn law_attach_release<R>(slots: Seq<Option<R>>, i: u8, rx: R)
    requires
        server::attached(slots, i).0 == Attach::Taken(rx),
    ensures
        server::released(server::attached(slots, i).1, i, rx) == slots,
{
    assert(server::released(server::attached(slots, i).1, i, rx) =~= slots);
}

/// Attaching one channel leaves the others alone.
pub proof fn law_slots_apart<R>(slots: Seq<Option<R>>, i: u8, j: u8)
    requires
        i != j,
        j < slots.len(),
    ensures
        server::attached(slots, i).1[j as int] == slots[j as int],
{
}

} // verus!
