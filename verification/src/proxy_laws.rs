//! What a client asks for and what it makes of the answers: the list of proxies
//! it sends, the handshakes, and the time between attempts.
use crate::client::{Answer, ReceivedView};
use crate::client;
use crate::client_laws;
use crate::config::{MappingView, ProxySpec};
use crate::config;
use crate::protocol::{FrameView, ProxyAckView, ProxyRegView};
use vstd::prelude::*;
use vstd::utf8::*;

verus! {

// ---- the order of names ----

/// Of two sequences of bytes the first difference decides.
pub proof fn law_first_difference(a: Seq<u8>, b: Seq<u8>, k: int)
    requires
        0 <= k < a.len(),
        k < b.len(),
        forall|i: int| 0 <= i < k ==> a[i] == b[i],
        a[k] < b[k],
    ensures
        client::bytes_less(a, b),
        !client::bytes_less(b, a),
    decreases k,
{
    if k > 0 {
        assert(a[0] == b[0]);
        let x = a.skip(1);
        let y = b.skip(1);
        assert forall|i: int| 0 <= i < k - 1 implies x[i] == y[i] by {
            assert(a[i + 1] == b[i + 1]);
        }
        law_first_difference(x, y, k - 1);
    }
}

/// A sequence of bytes comes before every longer one that starts with it, and not
/// before itself.
pub proof fn law_prefix_first(a: Seq<u8>, more: Seq<u8>)
    ensures
        client::bytes_less(a, a + more) <==> more.len() > 0,
        !client::bytes_less(a + more, a),
    decreases a.len(),
{
    if a.len() > 0 {
        assert((a + more).skip(1) =~= a.skip(1) + more);
        law_prefix_first(a.skip(1), more);
    }
}

/// Names are ordered by the bytes of their UTF-8: the first byte in which they
/// differ decides, and a name comes before every longer one that starts with
/// it.
pub proof fn law_name_order(a: Seq<char>, b: Seq<char>, k: int)
    requires
        0 <= k <= encode_utf8(a).len(),
        k < encode_utf8(b).len(),
        forall|i: int| 0 <= i < k ==> encode_utf8(a)[i] == encode_utf8(b)[i],
        k < encode_utf8(a).len() ==> encode_utf8(a)[k] < encode_utf8(b)[k],
    ensures
        client::name_less(a, b),
        !client::name_less(b, a),
{
    let x = encode_utf8(a);
    let y = encode_utf8(b);
    if k < x.len() {
        law_first_difference(x, y, k);
    } else {
        assert(y =~= x + y.skip(k));
        law_prefix_first(x, y.skip(k));
    }
}

// ---- the proxy list ----

/// The registrations of two lists of services are those of the one and then those
/// of the other.
pub proof fn law_regs_add(a: Seq<(String, ProxySpec)>, b: Seq<(String, ProxySpec)>)
    ensures
        client::services_regs(Seq::empty()).len() == 0,
        client::services_regs(a + b) == client::services_regs(a) + client::services_regs(b),
    decreases b.len(),
{
    if b.len() == 0 {
        assert(a + b =~= a);
        assert(client::services_regs(a) + client::services_regs(b) =~= client::services_regs(a));
    } else {
        assert((a + b).drop_last() =~= a + b.drop_last());
        law_regs_add(a, b.drop_last());
        assert(client::services_regs(a + b) =~= client::services_regs(a) + client::services_regs(
            b,
        ));
    }
}

/// A service is registered with one registration for each of its mappings, in
/// their order: under its name, with the public port, the local host and the
/// local port of the mapping. One that cannot be expanded is not registered.
pub proof fn law_service_registered(x: (String, ProxySpec))
    ensures
        config::expansion(x.1) is Err ==> client::services_regs(seq![x]).len() == 0,
        config::expansion(x.1) matches Ok(maps) ==> {
            let regs = client::services_regs(seq![x]);
            &&& regs.len() == maps.len()
            &&& forall|k: int|
                0 <= k < regs.len() ==> (#[trigger] regs[k]).name == x.0@ && regs[k].remote
                    == maps[k].remote && regs[k].local_host == maps[k].local_host
                    && regs[k].local_port == maps[k].local_port
        },
{
    let one = seq![x];
    assert(one.drop_last() =~= Seq::<(String, ProxySpec)>::empty());
    assert(client::services_regs(one.drop_last()) =~= Seq::empty());
    assert(client::services_regs(one) =~= client::service_regs(x.0@, x.1));
}

/// In the list of a client, the registrations of its `i`-th service stand behind
/// those of the services before it; the `k`-th of them is the `k`-th mapping of
/// the service.
pub proof fn law_registration_place(services: Seq<(String, ProxySpec)>, i: int, k: int)
    requires
        0 <= i < services.len(),
        config::expansion(services[i].1) is Ok,
        0 <= k < config::expansion(services[i].1)->Ok_0.len(),
    ensures
        ({
            let regs = client::services_regs(services);
            let at = client::services_regs(services.take(i)).len() + k;
            let m = config::expansion(services[i].1)->Ok_0[k];
            &&& at < regs.len()
            &&& regs[at].name == services[i].0@
            &&& regs[at].remote == m.remote
            &&& regs[at].local_host == m.local_host
            &&& regs[at].local_port == m.local_port
        }),
{
    let a = services.take(i);
    let x = seq![services[i]];
    let b = services.skip(i + 1);
    law_regs_add(a, x);
    law_regs_add(a + x, b);
    assert(a + x + b =~= services);
    law_service_registered(services[i]);
    let at = client::services_regs(a).len() + k;
    assert(client::services_regs(services)[at] == client::services_regs(x)[k]);
}

/// The mapping that a registration asks for.
pub open spec fn mapping_in(r: ProxyRegView) -> MappingView {
    MappingView { remote: r.remote, local_host: r.local_host, local_port: r.local_port }
}

/// The mappings of a service; none where it cannot be expanded.
pub open spec fn mappings_of(x: (String, ProxySpec)) -> Seq<MappingView> {
    match config::expansion(x.1) {
        Ok(maps) => maps,
        Err(_) => Seq::empty(),
    }
}

/// What the registrations ask for is the mappings of the services, one service
/// after the other: none is left out, none is added, none is changed.
pub proof fn law_regs_are_mappings(services: Seq<(String, ProxySpec)>)
    ensures
        client::services_regs(services).map_values(|r: ProxyRegView| mapping_in(r))
            == services.map_values(|x: (String, ProxySpec)| mappings_of(x)).flatten(),
    decreases services.len(),
{
    let g = |r: ProxyRegView| mapping_in(r);
    let f = |x: (String, ProxySpec)| mappings_of(x);
    let lists = services.map_values(f);
    lists.lemma_flatten_and_flatten_alt_are_equivalent();
    if services.len() == 0 {
        assert(lists =~= Seq::empty());
        assert(client::services_regs(services).map_values(g) =~= lists.flatten());
    } else {
        let rest = services.drop_last();
        let x = services.last();
        law_regs_are_mappings(rest);
        rest.map_values(f).lemma_flatten_and_flatten_alt_are_equivalent();
        assert(lists.drop_last() =~= rest.map_values(f));
        assert(lists.last() == f(x));
        let own = client::service_regs(x.0@, x.1);
        assert(own.map_values(g) =~= mappings_of(x));
        assert(client::services_regs(services).map_values(g) =~= client::services_regs(
            rest,
        ).map_values(g) + own.map_values(g));
    }
}

proof fn lemma_reg_owner(services: Seq<(String, ProxySpec)>, i: int) -> (p: int)
    requires
        0 <= i < client::services_regs(services).len(),
    ensures
        0 <= p < services.len(),
        client::services_regs(services)[i].name == services[p].0@,
    decreases services.len(),
{
    let rest = services.drop_last();
    let x = services.last();
    let before = client::services_regs(rest);
    let own = client::service_regs(x.0@, x.1);
    if i < before.len() {
        let p = lemma_reg_owner(rest, i);
        assert(rest[p] == services[p]);
        p
    } else {
        assert(client::services_regs(services)[i] == own[i - before.len()]);
        services.len() - 1
    }
}

proof fn lemma_regs_ordered(services: Seq<(String, ProxySpec)>, i: int, j: int)
    requires
        client_laws::ordered(services),
        0 <= i < j < client::services_regs(services).len(),
    ensures
        !client::name_less(
            client::services_regs(services)[j].name,
            client::services_regs(services)[i].name,
        ),
    decreases services.len(),
{
    let regs = client::services_regs(services);
    let rest = services.drop_last();
    let x = services.last();
    let before = client::services_regs(rest);
    let own = client::service_regs(x.0@, x.1);
    assert forall|m: int, n: int| 0 <= m < n < rest.len() implies !client::name_less(
        (#[trigger] rest[n]).0@,
        (#[trigger] rest[m]).0@,
    ) by {
        assert(rest[n] == services[n] && rest[m] == services[m]);
    }
    if j < before.len() {
        assert(regs[i] == before[i] && regs[j] == before[j]);
        lemma_regs_ordered(rest, i, j);
    } else {
        assert(regs[j] == own[j - before.len()]);
        if i < before.len() {
            let p = lemma_reg_owner(rest, i);
            assert(regs[i] == before[i]);
            assert(rest[p] == services[p]);
            assert(services[services.len() - 1] == x);
        } else {
            assert(regs[i] == own[i - before.len()]);
            client_laws::law_names_total(x.0@, x.0@);
        }
    }
}

/// A client lists its registrations by service name.
pub proof fn law_regs_by_name(services: Seq<(String, ProxySpec)>, i: int, j: int)
    requires
        0 <= i < j < client::services_regs(client::by_name(services)).len(),
    ensures
        ({
            let regs = client::services_regs(client::by_name(services));
            !client::name_less(regs[j].name, regs[i].name)
        }),
{
    client_laws::law_by_name_sorts(services);
    lemma_regs_ordered(client::by_name(services), i, j);
}

/// A client that declares services registers every mapping of every one of them.
pub proof fn law_all_registered(services: Seq<(String, ProxySpec)>, i: int, k: int) -> (at: int)
    requires
        0 <= i < services.len(),
        config::expansion(services[i].1) is Ok,
        0 <= k < config::expansion(services[i].1)->Ok_0.len(),
    ensures
        ({
            let regs = client::services_regs(client::by_name(services));
            let m = config::expansion(services[i].1)->Ok_0[k];
            &&& 0 <= at < regs.len()
            &&& regs[at].name == services[i].0@
            &&& regs[at].remote == m.remote
            &&& regs[at].local_host == m.local_host
            &&& regs[at].local_port == m.local_port
        }),
{
    broadcast use vstd::seq_lib::group_to_multiset_ensures;

    let sorted = client::by_name(services);
    client_laws::law_by_name_sorts(services);
    assert(services.contains(services[i]));
    assert(sorted.to_multiset().count(services[i]) > 0);
    assert(sorted.contains(services[i]));
    let p = choose|p: int| 0 <= p < sorted.len() && sorted[p] == services[i];
    law_registration_place(sorted, p, k);
    client::services_regs(sorted.take(p)).len() + k
}

// ---- handshakes ----

/// AUTH is answered by OK, and refused by FAIL or by the end of the connection;
/// anything else is not the answer yet.
pub proof fn law_auth_answer(got: ReceivedView)
    ensures
        client::auth_answer(got) is Got <==> got == ReceivedView::Frame(FrameView::Okay),
        client::auth_answer(got) is Failed <==> got == ReceivedView::Frame(FrameView::Fail)
            || got is Closed,
        client::auth_answer(ReceivedView::Frame(FrameView::Fail)) == Answer::<()>::Failed(
            "server rejected the shared secret"@,
        ),
        client::auth_answer(ReceivedView::Closed) == Answer::<()>::Failed(
            "control channel closed during auth"@,
        ),
{
}

/// PROXIES is answered by PROXYACK, with what stands in it, and refused by FAIL or
/// by the end of the connection; anything else is not the answer yet.
pub proof fn law_proxies_answer(got: ReceivedView, entries: Seq<ProxyAckView>, data_port: u16)
    ensures
        client::proxies_answer(got) == Answer::Got((entries, data_port)) <==> got
            == ReceivedView::Frame(FrameView::ProxyAck { entries, data_port }),
        client::proxies_answer(got) is Got ==> got is Frame && got->Frame_0 is ProxyAck,
        client::proxies_answer(got) is Failed <==> got == ReceivedView::Frame(FrameView::Fail)
            || got is Closed,
        client::proxies_answer(ReceivedView::Frame(FrameView::Fail)) == Answer::<
            (Seq<ProxyAckView>, u16),
        >::Failed("server rejected the proxy list"@),
        client::proxies_answer(ReceivedView::Closed) == Answer::<
            (Seq<ProxyAckView>, u16),
        >::Failed("control channel closed before proxy ack"@),
{
}

/// An attach is answered by OK, and refused by FAIL or by the end of the
/// connection; anything else is not the answer yet.
pub proof fn law_attach_answer(got: ReceivedView)
    ensures
        client::attach_answer(got) is Got <==> got == ReceivedView::Frame(FrameView::Okay),
        client::attach_answer(got) is Failed <==> got == ReceivedView::Frame(FrameView::Fail)
            || got is Closed,
        client::attach_answer(ReceivedView::Frame(FrameView::Fail)) == Answer::<()>::Failed(
            "server rejected the data channel (busy or unknown index?)"@,
        ),
        client::attach_answer(ReceivedView::Closed) == Answer::<()>::Failed(
            "server closed the data connection before OK"@,
        ),
{
}

// ---- retrying ----

/// The backoff in milliseconds: after a failure it is twice what it was, but never
/// above 30 seconds, and after a connection that ran it is a quarter of a
/// second again. The wait before the next attempt is the backoff as it was, or
/// a quarter of a second after a connection that ran.
pub proof fn law_backoff(ms: u64)
    requires
        250 <= ms <= 30000,
    ensures
        client::next_backoff(ms, true) == 250,
        client::next_backoff(ms, false) <= 30000,
        2 * ms <= 30000 ==> client::next_backoff(ms, false) == 2 * ms,
        2 * ms > 30000 ==> client::next_backoff(ms, false) == 30000,
        client::delay_base(ms, true) == 250,
        client::delay_base(ms, false) == ms,
{
}

} // verus!
