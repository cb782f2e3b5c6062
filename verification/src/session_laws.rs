//! What the server answers: every step of the handshakes, every registration and
//! every attach.
use crate::config::{PortPolicy, ServerConfig};
use crate::config;
use crate::protocol::{FrameView, ProxyAckView, ProxyRegView};
use crate::server::{Attach, ControlState, ControlStepView, DataHello, DataState, Plan};
use crate::server;
use vstd::prelude::*;

verus! {

/// AUTH with the right hash is answered OK, AUTH with another one FAIL; anything
/// else closes the connection.
pub proof fn law_control_auth(expected: Seq<u8>, frame: Option<FrameView>)
    ensures
        ({
            let step = server::control_next(expected, ControlState::Auth, frame);
            &&& frame == Some(FrameView::Auth(expected)) ==> step == (ControlStepView::Continue {
                state: ControlState::DCount,
                reply: Some(FrameView::Okay),
            })
            &&& frame matches Some(FrameView::Auth(h)) ==> (h != expected ==> step == (
            ControlStepView::AuthFailed { reply: FrameView::Fail }))
            &&& !(frame matches Some(FrameView::Auth(_))) ==> step is Close
        }),
{
}

/// A DCOUNT from 1 to 64 is accepted, without an answer, and any other count is
/// not; anything else closes the connection.
pub proof fn law_control_count(expected: Seq<u8>, frame: Option<FrameView>)
    ensures
        ({
            let step = server::control_next(expected, ControlState::DCount, frame);
            &&& frame matches Some(FrameView::DCount(n)) ==> (1 <= n <= 64 ==> step == (
            ControlStepView::Continue { state: ControlState::Proxies { n }, reply: None }))
            &&& frame matches Some(FrameView::DCount(n)) ==> (n == 0 || n > 64 ==> step == (
            ControlStepView::BadCount { count: n }))
            &&& !(frame matches Some(FrameView::DCount(_))) ==> step is Close
        }),
{
}

/// PROXIES starts the session, with the channels asked for and the registrations
/// as they came; anything else closes the connection.
pub proof fn law_control_proxies(expected: Seq<u8>, n: u8, frame: Option<FrameView>)
    ensures
        ({
            let step = server::control_next(expected, ControlState::Proxies { n }, frame);
            &&& frame matches Some(FrameView::Proxies(regs)) ==> step == (ControlStepView::Serve {
                n,
                regs,
            })
            &&& !(frame matches Some(FrameView::Proxies(_))) ==> step is Close
        }),
{
}

/// A data connection goes on where it proves the secret, and is closed otherwise.
pub proof fn law_data_auth(expected: Seq<u8>, frame: Option<FrameView>)
    ensures
        ({
            let step = server::data_next(expected, DataState::Auth, frame);
            &&& step == (DataHello::Continue { state: DataState::ChIdx }) <==> frame == Some(
                FrameView::Auth(expected),
            )
            &&& step is AuthFailed <==> (frame matches Some(FrameView::Auth(h)) && h != expected)
            &&& step is Close <==> !(frame matches Some(FrameView::Auth(_)))
        }),
{
}

/// A data connection that proved the secret attaches to the channel that it names,
/// and is closed where it names none.
pub proof fn law_data_index(expected: Seq<u8>, frame: Option<FrameView>, i: u8)
    ensures
        ({
            let step = server::data_next(expected, DataState::ChIdx, frame);
            &&& step == (DataHello::Attach { i }) <==> frame == Some(FrameView::ChIdx(i))
            &&& step is NoIndex <==> !(frame matches Some(FrameView::ChIdx(_)))
        }),
{
}

/// A public port is bound for its first registration, if the policy permits it;
/// every later registration of the same port is a duplicate, permitted or not.
pub proof fn law_plan(cfg: ServerConfig, regs: Seq<ProxyRegView>, i: int)
    requires
        0 <= i < regs.len(),
    ensures
        server::plan_of(cfg, regs, i) is Duplicate <==> exists|j: int|
            0 <= j < i && (#[trigger] regs[j]).remote == regs[i].remote,
        server::plan_of(cfg, regs, i) is Denied <==> !config::permits(cfg, regs[i].remote)
            && forall|j: int| 0 <= j < i ==> (#[trigger] regs[j]).remote != regs[i].remote,
        server::plan_of(cfg, regs, i) is Bind <==> config::permits(cfg, regs[i].remote) && forall|
            j: int,
        |
            0 <= j < i ==> (#[trigger] regs[j]).remote != regs[i].remote,
{
}

/// The status of a registration: 0 exactly where its port was to be bound and was,
/// 1 exactly where the policy denied it, and 2 otherwise.
pub proof fn law_status(regs: Seq<ProxyRegView>, plans: Seq<Plan>, bound: Seq<bool>, i: int)
    requires
        0 <= i < regs.len(),
        plans.len() == regs.len(),
        bound.len() == regs.len(),
    ensures
        ({
            let acks = server::ack_of(regs, plans, bound);
            &&& acks.len() == regs.len()
            &&& acks[i].name == regs[i].name
            &&& acks[i].status == 0 <==> plans[i] is Bind && bound[i]
            &&& acks[i].status == 1 <==> plans[i] is Denied
            &&& acks[i].status == 2 <==> plans[i] is Duplicate || plans[i] is Bind && !bound[i]
        }),
{
}

/// The registrations that were bound are those with the status 0.
pub proof fn law_bound_in(entries: Seq<ProxyAckView>)
    ensures
        server::bound_in(entries) == entries.filter(|e: ProxyAckView| e.status == 0).len(),
    decreases entries.len(),
{
    reveal(Seq::filter);
    if entries.len() > 0 {
        law_bound_in(entries.drop_last());
    }
}

/// All registrations were bound exactly where all have the status 0; none exactly
/// where none has.
pub proof fn law_all_bound(entries: Seq<ProxyAckView>)
    ensures
        server::bound_in(entries) <= entries.len(),
        server::bound_in(entries) == entries.len() <==> forall|i: int|
            0 <= i < entries.len() ==> (#[trigger] entries[i]).status == 0,
        server::bound_in(entries) == 0 <==> forall|i: int|
            0 <= i < entries.len() ==> (#[trigger] entries[i]).status != 0,
    decreases entries.len(),
{
    if entries.len() > 0 {
        let rest = entries.drop_last();
        law_all_bound(rest);
        let last = entries[entries.len() - 1];
        assert(last == entries.last());
        if server::bound_in(entries) == entries.len() {
            assert forall|i: int| 0 <= i < entries.len() implies (#[trigger] entries[i]).status
                == 0 by {
                if i < rest.len() {
                    assert(rest[i] == entries[i]);
                }
            }
        }
        if server::bound_in(entries) == 0 {
            assert forall|i: int| 0 <= i < entries.len() implies (#[trigger] entries[i]).status
                != 0 by {
                if i < rest.len() {
                    assert(rest[i] == entries[i]);
                }
            }
        }
        assert forall|i: int| 0 <= i < rest.len() implies rest[i] == entries[i] by {}
    }
}

/// An attach takes the slot of its channel where that is free, and changes nothing
/// where it is not or where there is no such channel.
pub proof fn law_attach<R>(slots: Seq<Option<R>>, i: u8, rx: R)
    ensures
        server::attached(slots, i).0 is OutOfRange <==> i >= slots.len(),
        server::attached(slots, i).0 is Busy <==> i < slots.len() && slots[i as int] is None,
        server::attached(slots, i).0 == Attach::Taken(rx) <==> i < slots.len() && slots[i as int]
            == Some(rx),
        !(server::attached(slots, i).0 is Taken) ==> server::attached(slots, i).1 == slots,
        server::attached(slots, i).0 is Taken ==> {
            let after = server::attached(slots, i).1;
            &&& after.len() == slots.len()
            &&& after[i as int] is None
            &&& forall|j: int| 0 <= j < slots.len() && j != i ==> #[trigger] after[j] == slots[j]
        },
{
}

/// Giving a channel back frees its slot, with the receiver that is given back, and
/// no other.
pub proof fn law_release<R>(slots: Seq<Option<R>>, i: u8, rx: R)
    requires
        i < slots.len(),
    ensures
        ({
            let after = server::released(slots, i, rx);
            &&& after.len() == slots.len()
            &&& after[i as int] == Some(rx)
            &&& forall|j: int| 0 <= j < slots.len() && j != i ==> #[trigger] after[j] == slots[j]
        }),
{
}

/// A data connection is answered OK exactly where it got its channel, and FAIL
/// otherwise.
pub proof fn law_attach_answered<R>(slots: Seq<Option<R>>, i: u8)
    ensures
        server::attach_frame(server::attached(slots, i).0) == FrameView::Okay <==> i < slots.len()
            && slots[i as int] is Some,
        server::attach_frame(server::attached(slots, i).0) == FrameView::Fail <==> i >= slots.len()
            || slots[i as int] is None,
{
}

/// A server runs with its policy exactly where both lists, if they are set, can be
/// read; otherwise the complaint is that about the allowed ports, or else that
/// about the forbidden ones.
pub proof fn law_policies(cfg: ServerConfig, a: PortPolicy, f: PortPolicy)
    ensures
        server::policies_complaint(cfg) is None <==> {
            &&& cfg.allow_ports matches Some(p) ==> config::policy_ports(p) is Ok
            &&& cfg.forbid_ports matches Some(p) ==> config::policy_ports(p) is Ok
        },
        cfg.allow_ports == Some(a) ==> (config::policy_ports(a) matches Err(e)
            ==> server::policies_complaint(cfg) == Some(e)),
        (cfg.allow_ports matches Some(p) ==> config::policy_ports(p) is Ok) && cfg.forbid_ports
            == Some(f) ==> (config::policy_ports(f) matches Err(e) ==> server::policies_complaint(
            cfg,
        ) == Some(e)),
{
}

} // verus!
