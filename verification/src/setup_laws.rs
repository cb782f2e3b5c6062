//! What holds of a server and a client together: each understands what the
//! other sends, and what `check` calls a consistent setup is served in full.
use crate::client::{Answer, ReceivedView};
use crate::client;
use crate::client_laws;
use crate::config::{ClientConfig, ControlAddr, ProxySpec, ServerConfig, MAX_DATA_CHANNELS};
use crate::config;
use crate::config_laws;
use crate::protocol::{FrameView, ProxyAckView, ProxyRegView};
use crate::protocol;
use crate::server::{Attach, ControlState, ControlStepView, DataHello, DataState, Plan};
use crate::server;
use crate::server_laws;
use crate::wire_laws;
use vstd::prelude::*;

verus! {

proof fn lemma_stream_two(f: FrameView, g: FrameView)
    ensures
        wire_laws::stream(seq![f, g]) == protocol::wire(f) + protocol::wire(g),
{
    let none = Seq::<FrameView>::empty();
    assert(wire_laws::stream(none) =~= Seq::<u8>::empty());
    wire_laws::lemma_stream_push(none, f);
    wire_laws::lemma_stream_push(none.push(f), g);
    assert(none.push(f).push(g) =~= seq![f, g]);
    assert(Seq::<u8>::empty() + protocol::wire(f) =~= protocol::wire(f));
}

/// The client's hello starts the session that it asks for: a client that knows
/// the secret gets its channels and its proxies.
pub proof fn law_hello_served(hash: Seq<u8>, n: u8, regs: Seq<ProxyRegView>)
    requires
        hash.len() == 32,
        1 <= n <= MAX_DATA_CHANNELS,
        wire_laws::encodable(FrameView::Proxies(regs)),
    ensures
        server_laws::control_run(
            hash,
            ControlState::Auth,
            protocol::all_frames(
                protocol::wire(FrameView::Auth(hash)) + (protocol::wire(FrameView::DCount(n))
                    + protocol::wire(FrameView::Proxies(regs))),
            ).0,
        ) == (ControlStepView::Serve { n, regs }),
{
    let a = FrameView::Auth(hash);
    let d = FrameView::DCount(n);
    let p = FrameView::Proxies(regs);
    let frames = seq![a, d, p];
    lemma_stream_two(d, p);
    wire_laws::law_stream_add(seq![a], seq![d, p]);
    assert(seq![a] + seq![d, p] =~= frames);
    assert(wire_laws::stream(seq![a]) == protocol::wire(a)) by {
        let none = Seq::<FrameView>::empty();
        assert(wire_laws::stream(none) =~= Seq::<u8>::empty());
        wire_laws::lemma_stream_push(none, a);
        assert(none.push(a) =~= seq![a]);
        assert(Seq::<u8>::empty() + protocol::wire(a) =~= protocol::wire(a));
    }
    assert forall|i: int| 0 <= i < frames.len() implies wire_laws::encodable(
        #[trigger] frames[i],
    ) by {
        assert(wire_laws::encodable(a) && wire_laws::encodable(d));
    }
    wire_laws::law_stream(frames);
    server_laws::law_session_needs_secret(hash, frames);
}

/// A client with another secret is refused, and understands that it is.
pub proof fn law_hello_refused(hash: Seq<u8>, expected: Seq<u8>)
    requires
        hash.len() == 32,
        hash != expected,
    ensures
        server_laws::control_run(
            expected,
            ControlState::Auth,
            protocol::all_frames(protocol::wire(FrameView::Auth(hash))).0,
        ) == (ControlStepView::AuthFailed { reply: FrameView::Fail }),
        client::auth_answer(
            ReceivedView::Frame(
                protocol::first_frame(protocol::wire(FrameView::Fail))->Some_0.0,
            ),
        ) == Answer::<()>::Failed("server rejected the shared secret"@),
{
    let a = FrameView::Auth(hash);
    let none = Seq::<FrameView>::empty();
    assert(wire_laws::stream(none) =~= Seq::<u8>::empty());
    wire_laws::lemma_stream_push(none, a);
    assert(none.push(a) =~= seq![a]);
    assert(Seq::<u8>::empty() + protocol::wire(a) =~= protocol::wire(a));
    assert(wire_laws::encodable(a));
    wire_laws::law_stream(seq![a]);
    server_laws::law_wrong_secret_refused(expected, hash, none);
    assert(seq![a] + none =~= seq![a]);
    wire_laws::law_roundtrip(FrameView::Fail, Seq::empty());
    assert(protocol::wire(FrameView::Fail) + Seq::<u8>::empty() =~= protocol::wire(
        FrameView::Fail,
    ));
}

/// The client understands the OK to its AUTH.
pub proof fn law_auth_ok_understood()
    ensures
        client::auth_answer(
            ReceivedView::Frame(
                protocol::first_frame(protocol::wire(FrameView::Okay))->Some_0.0,
            ),
        ) == Answer::Got(()),
{
    wire_laws::law_roundtrip(FrameView::Okay, Seq::empty());
    assert(protocol::wire(FrameView::Okay) + Seq::<u8>::empty() =~= protocol::wire(
        FrameView::Okay,
    ));
}

/// The client learns the registration results and the data port that the
/// server sent, and what came in behind them is kept.
pub proof fn law_ack_understood(entries: Seq<ProxyAckView>, data_port: u16, rest: Seq<u8>)
    requires
        wire_laws::encodable(FrameView::ProxyAck { entries, data_port }),
    ensures
        ({
            let read = protocol::first_frame(
                protocol::wire(FrameView::ProxyAck { entries, data_port }) + rest,
            );
            &&& read matches Some((f, left))
            &&& client::proxies_answer(ReceivedView::Frame(f)) == Answer::Got((entries, data_port))
            &&& left == rest
        }),
{
    wire_laws::law_roundtrip(FrameView::ProxyAck { entries, data_port }, rest);
}

/// The client's hello on a data channel asks for the channel that it names.
pub proof fn law_attach_hello(hash: Seq<u8>, i: u8)
    requires
        hash.len() == 32,
    ensures
        server_laws::data_run(
            hash,
            DataState::Auth,
            protocol::all_frames(
                protocol::wire(FrameView::Auth(hash)) + protocol::wire(FrameView::ChIdx(i)),
            ).0,
        ) == (DataHello::Attach { i }),
{
    let a = FrameView::Auth(hash);
    let c = FrameView::ChIdx(i);
    let frames = seq![a, c];
    lemma_stream_two(a, c);
    assert forall|k: int| 0 <= k < frames.len() implies wire_laws::encodable(
        #[trigger] frames[k],
    ) by {
        assert(wire_laws::encodable(a) && wire_laws::encodable(c));
    }
    wire_laws::law_stream(frames);
    server_laws::law_channel_needs_secret(hash, frames, i);
}

/// The client runs a data channel exactly where the server took its slot, and
/// loses none of the frames that came in right behind the OK.
pub proof fn law_attach_understood<R>(a: Attach<R>, rest: Seq<u8>)
    ensures
        ({
            let read = protocol::first_frame(protocol::wire(server::attach_frame(a)) + rest);
            &&& read matches Some((f, left))
            &&& client::attach_answer(ReceivedView::Frame(f)) == (if a is Taken {
                Answer::Got(())
            } else {
                Answer::Failed("server rejected the data channel (busy or unknown index?)"@)
            })
            &&& left == rest
        }),
{
    wire_laws::law_roundtrip(server::attach_frame(a), rest);
}

// ---- a consistent setup is served in full ----

/// Two lists of services one after the other.
proof fn lemma_uses_add(a: Seq<(String, ProxySpec)>, b: Seq<(String, ProxySpec)>)
    ensures
        config::uses(a + b) == config::uses(a) + config::uses(b),
    decreases b.len(),
{
    if b.len() == 0 {
        assert(a + b =~= a);
        assert(config::uses(a) + config::uses(b) =~= config::uses(a));
    } else {
        assert((a + b).drop_last() =~= a + b.drop_last());
        lemma_uses_add(a, b.drop_last());
        assert(config::uses(a + b) =~= config::uses(a) + config::uses(b));
    }
}

proof fn lemma_uses_one(x: (String, ProxySpec))
    ensures
        config::uses(seq![x]) == config::uses_of(x.0@, config::service_ports(x.1)),
{
    assert(seq![x].drop_last() =~= Seq::<(String, ProxySpec)>::empty());
    assert(config::uses(Seq::<(String, ProxySpec)>::empty()) =~= Seq::empty());
    assert(config::uses(seq![x]) =~= config::uses_of(x.0@, config::service_ports(x.1)));
}

type Uses = Seq<(Seq<char>, u16)>;

/// What stands in the middle may as well stand at the end.
proof fn lemma_moved_to_end(l: Uses, u: Uses, r: Uses)
    ensures
        (l + (u + r)).to_multiset() == (l + r + u).to_multiset(),
{
    vstd::seq_lib::lemma_multiset_commutative(l, u + r);
    vstd::seq_lib::lemma_multiset_commutative(u, r);
    vstd::seq_lib::lemma_multiset_commutative(l, r);
    vstd::seq_lib::lemma_multiset_commutative(l + r, u);
    assert((l + (u + r)).to_multiset() =~= (l + r + u).to_multiset());
}

/// The uses of the services around the `j`-th one.
proof fn lemma_uses_around(b: Seq<(String, ProxySpec)>, j: int)
    requires
        0 <= j < b.len(),
    ensures
        config::uses(b).to_multiset() == (config::uses(b.remove(j)) + config::uses_of(
            b[j].0@,
            config::service_ports(b[j].1),
        )).to_multiset(),
{
    let x = b[j];
    let u = config::uses_of(x.0@, config::service_ports(x.1));
    let before = b.take(j);
    let behind = b.skip(j + 1);
    lemma_uses_one(x);
    assert(b =~= before + (seq![x] + behind));
    lemma_uses_add(seq![x], behind);
    lemma_uses_add(before, seq![x] + behind);
    assert(b.remove(j) =~= before + behind);
    lemma_uses_add(before, behind);
    lemma_moved_to_end(config::uses(before), u, config::uses(behind));
}

/// The last service of one list stands in the other, and what is left of the two
/// are the same services.
proof fn lemma_last_found(a: Seq<(String, ProxySpec)>, b: Seq<(String, ProxySpec)>) -> (j: int)
    requires
        a.to_multiset() == b.to_multiset(),
        a.len() > 0,
    ensures
        0 <= j < b.len(),
        b[j] == a.last(),
        a.drop_last().to_multiset() == b.remove(j).to_multiset(),
{
    broadcast use vstd::seq_lib::group_to_multiset_ensures;

    let x = a.last();
    let k = a.len() - 1;
    assert(a.contains(a[k]));
    assert(b.to_multiset().count(x) > 0);
    assert(b.contains(x));
    let j = choose|j: int| 0 <= j < b.len() && b[j] == x;
    vstd::seq_lib::to_multiset_remove(a, k);
    vstd::seq_lib::to_multiset_remove(b, j);
    assert(a.remove(k) =~= a.drop_last());
    j
}

/// The uses of public ports do not depend on the order of the services.
proof fn lemma_uses_permuted(a: Seq<(String, ProxySpec)>, b: Seq<(String, ProxySpec)>)
    requires
        a.to_multiset() == b.to_multiset(),
    ensures
        config::uses(a).to_multiset() == config::uses(b).to_multiset(),
    decreases a.len(),
{
    vstd::seq_lib::to_multiset_len(a);
    vstd::seq_lib::to_multiset_len(b);
    if a.len() == 0 {
        assert(a =~= b);
    } else {
        let x = a.last();
        let u = config::uses_of(x.0@, config::service_ports(x.1));
        let rest = a.drop_last();
        let j = lemma_last_found(a, b);
        lemma_uses_permuted(rest, b.remove(j));
        lemma_uses_around(b, j);
        vstd::seq_lib::lemma_multiset_commutative(config::uses(rest), u);
        vstd::seq_lib::lemma_multiset_commutative(config::uses(b.remove(j)), u);
        assert(config::uses(a) == config::uses(rest) + u);
    }
}

/// The name and the public port of a registration.
pub open spec fn use_of(r: ProxyRegView) -> (Seq<char>, u16) {
    (r.name, r.remote)
}

/// A registration for each use of a public port.
proof fn lemma_regs_are_uses(services: Seq<(String, ProxySpec)>)
    ensures
        client::services_regs(services).map_values(|r: ProxyRegView| use_of(r)) == config::uses(
            services,
        ),
    decreases services.len(),
{
    let g = |r: ProxyRegView| use_of(r);
    if services.len() == 0 {
        assert(client::services_regs(services).map_values(g) =~= config::uses(services));
    } else {
        let rest = services.drop_last();
        let x = services.last();
        lemma_regs_are_uses(rest);
        let own = client::service_regs(x.0@, x.1);
        assert(own.map_values(g) =~= config::uses_of(x.0@, config::service_ports(x.1)));
        assert(client::services_regs(services).map_values(g) =~= client::services_regs(
            rest,
        ).map_values(g) + own.map_values(g));
    }
}

/// Where `check` finds no problem with a server and a client, the server plans
/// to bind every public port that the client declares: none is denied, none is
/// a duplicate.
pub proof fn law_consistent_setup_is_served(
    server: ServerConfig,
    client: ClientConfig,
    services: Seq<(String, ProxySpec)>,
    bind: Result<ControlAddr, String>,
    i: int,
)
    requires
        config::pair_problems(server, client, services, bind).len() == 0,
        0 <= i < client::services_regs(client::by_name(services)).len(),
    ensures
        server::plan_of(server, client::services_regs(client::by_name(services)), i) == Plan::Bind,
{
    broadcast use vstd::seq_lib::group_to_multiset_ensures;

    let sorted = client::by_name(services);
    let regs = client::services_regs(sorted);
    let us = config::uses(services);
    let vs = config::uses(sorted);
    config_laws::law_pair_consistent(server, client, services, bind);
    client_laws::law_by_name_sorts(services);
    lemma_uses_permuted(sorted, services);
    lemma_regs_are_uses(sorted);
    assert forall|k: int| 0 <= k < regs.len() implies (#[trigger] regs[k]).remote == vs[k].1 by {
        assert(vs[k] == use_of(regs[k]));
    }
    assert(vs.contains(vs[i]));
    assert(us.to_multiset().count(vs[i]) > 0);
    assert(us.contains(vs[i]));
    let p = choose|p: int| 0 <= p < us.len() && us[p] == vs[i];
    assert(config::permits(server, us[p].1));
    if server::named_before(regs, i) {
        let j = choose|j: int| 0 <= j < i && (#[trigger] regs[j]).remote == regs[i].remote;
        assert(vs.contains(vs[j]));
        assert(us.to_multiset().count(vs[j]) > 0);
        assert(us.contains(vs[j]));
        let q = choose|q: int| 0 <= q < us.len() && us[q] == vs[j];
        assert(us[q].1 == us[p].1);
        assert(p == q);
        assert(us.no_duplicates()) by {
            assert forall|m: int, n: int|
                0 <= m < us.len() && 0 <= n < us.len() && m != n implies us[m] != us[n] by {
                if m < n {
                    assert(us[m].1 != us[n].1);
                } else {
                    assert(us[n].1 != us[m].1);
                }
            }
        }
        us.lemma_multiset_has_no_duplicates();
        let x = vs[i];
        assert(us.to_multiset().contains(x));
        assert(vs.to_multiset().count(x) == 1);
        vstd::seq_lib::to_multiset_remove(vs, i);
        assert(vs.remove(i)[j] == x);
        assert(vs.remove(i).contains(x));
        assert(vs.remove(i).to_multiset().count(x) > 0);
    }
}

} // verus!
