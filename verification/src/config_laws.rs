//! What holds of configs as a whole: the port policy, the expansion of
//! services, and the checks on a file and on a pair of files.
use crate::config::{
    ClientConfig, Config, ControlAddr, PortItem, PortPolicy, ProxySpec, ServerConfig,
    MAX_DATA_CHANNELS,
};
use crate::config;
use crate::text;
use vstd::prelude::*;
use vstd::utf8::*;

verus! {

/// A forbidden port may not be exposed, whatever is allowed.
pub proof fn law_forbid_beats_allow(s: ServerConfig, port: u16)
    requires
        config::listed(s.forbid_ports, port),
    ensures
        !config::permits(s, port),
{
    lemma_listed_is_forbidden(s.forbid_ports->Some_0, port);
}

proof fn lemma_listed_item(items: Seq<PortItem>, port: u16)
    requires
        config::items_ports(items) matches Ok(ports) && ports.contains(port),
    ensures
        exists|i: int|
            0 <= i < items.len() && config::names(config::item_ports(#[trigger] items[i]), port),
    decreases items.len(),
{
    if items.len() > 0 {
        let rest = items.drop_last();
        let ps = config::items_ports(rest)->Ok_0;
        let qs = config::item_ports(items.last())->Ok_0;
        let k = choose|k: int| 0 <= k < (ps + qs).len() && (ps + qs)[k] == port;
        if k < ps.len() {
            assert(ps[k] == port);
            assert(ps.contains(port));
            lemma_listed_item(rest, port);
            let i = choose|i: int|
                0 <= i < rest.len() && config::names(
                    config::item_ports(#[trigger] rest[i]),
                    port,
                );
            assert(items[i] == rest[i]);
        } else {
            assert(qs[k - ps.len()] == port);
            assert(qs.contains(port));
            assert(items[items.len() - 1] == items.last());
        }
    }
}

proof fn lemma_listed_is_forbidden(p: PortPolicy, port: u16)
    requires
        config::listed(Some(p), port),
    ensures
        config::forbidden(Some(p), port),
{
    match p {
        PortPolicy::Num(n) => {
            assert(seq![n].contains(port));
        },
        PortPolicy::Str(_) => {},
        PortPolicy::Vec(v) => lemma_listed_item(v@, port),
    }
}

/// On a list that can be read, the forbidden ports are those on the list.
pub proof fn law_forbidden_is_listed(p: PortPolicy, port: u16)
    requires
        config::policy_ports(p) is Ok,
    ensures
        config::forbidden(Some(p), port) <==> config::listed(Some(p), port),
{
    if config::listed(Some(p), port) {
        lemma_listed_is_forbidden(p, port);
    }
    match p {
        PortPolicy::Num(n) => {
            assert(seq![n][0] == n);
        },
        PortPolicy::Str(_) => {},
        PortPolicy::Vec(v) => {
            if config::forbidden(Some(p), port) {
                let i = choose|i: int|
                    0 <= i < v@.len() && config::names(
                        config::item_ports(#[trigger] v@[i]),
                        port,
                    );
                lemma_item_is_listed(v@, i, port);
            }
        },
    }
}

proof fn lemma_item_is_listed(items: Seq<PortItem>, i: int, port: u16)
    requires
        config::items_ports(items) is Ok,
        0 <= i < items.len(),
        config::names(config::item_ports(items[i]), port),
    ensures
        config::items_ports(items)->Ok_0.contains(port),
    decreases items.len(),
{
    let rest = items.drop_last();
    let ps = config::items_ports(rest)->Ok_0;
    let qs = config::item_ports(items.last())->Ok_0;
    if i < rest.len() {
        assert(rest[i] == items[i]);
        lemma_item_is_listed(rest, i, port);
        let k = choose|k: int| 0 <= k < ps.len() && ps[k] == port;
        assert((ps + qs)[k] == port);
    } else {
        let k = choose|k: int| 0 <= k < qs.len() && qs[k] == port;
        assert((ps + qs)[ps.len() + k] == port);
    }
}

/// Where `allow_ports` is set, no port but those on it may be exposed.
pub proof fn law_allow_is_exclusive(s: ServerConfig, port: u16)
    requires
        s.allow_ports is Some,
        !config::listed(s.allow_ports, port),
    ensures
        !config::permits(s, port),
{
}

/// An allowed port that is not forbidden may be exposed.
pub proof fn law_allowed_port(s: ServerConfig, port: u16)
    requires
        config::listed(s.allow_ports, port),
        !config::forbidden(s.forbid_ports, port),
    ensures
        config::permits(s, port),
{
}

/// An `allow_ports` that is empty or cannot be read lets no port through.
pub proof fn law_unreadable_allow_is_closed(s: ServerConfig, port: u16)
    requires
        s.allow_ports matches Some(a) && config::policy_ports(a) is Err,
    ensures
        !config::permits(s, port),
{
}

/// Without a policy every port may be exposed.
pub proof fn law_no_policy(s: ServerConfig, port: u16)
    requires
        s.allow_ports is None,
        s.forbid_ports is None,
    ensures
        config::permits(s, port),
{
}

/// "a-b" stands for the ports from `a` to `b`.
pub proof fn law_range_text(a: u16, b: u16)
    requires
        a <= b,
    ensures
        config::range_ports(text::decimal(a as nat) + "-"@ + text::decimal(b as nat)) == Ok::<
            Seq<u16>,
            Seq<char>,
        >(config::ports_between(a, b)),
{
    reveal_strlit("-");
    let x = text::decimal(a as nat);
    let y = text::decimal(b as nat);
    let s = x + "-"@ + y;
    text::law_decimal(a as nat);
    text::law_decimal(b as nat);
    assert(text::is_digit(x[0]) && text::is_digit(x.last()));
    assert(text::is_digit(y[0]) && text::is_digit(y.last()));
    text::lemma_digits_trimmed(s);
    text::lemma_digits_trimmed(x);
    text::lemma_digits_trimmed(y);
    assert forall|i: int| 0 <= i < x.len() implies s[i] != '-' by {
        assert(text::is_digit(x[i]));
    }
    text::lemma_first_after(s, '-', 0, x.len() as int);
    assert(s.take(x.len() as int) =~= x);
    assert(s.skip(x.len() + 1int) =~= y);
    text::law_port_text(a);
    text::law_port_text(b);
}

/// "p" stands for the port `p`.
pub proof fn law_single_port_text(p: u16)
    ensures
        config::range_ports(text::decimal(p as nat)) == Ok::<Seq<u16>, Seq<char>>(seq![p]),
{
    let s = text::decimal(p as nat);
    text::law_decimal(p as nat);
    assert(text::is_digit(s[0]) && text::is_digit(s.last()));
    text::lemma_digits_trimmed(s);
    text::law_port_text(p);
    lemma_no_dash(s, 0);
}

proof fn lemma_no_dash(s: Seq<char>, from: int)
    requires
        text::all_digits(s),
        0 <= from <= s.len(),
    ensures
        text::first_at(s, '-', from) is None,
    decreases s.len() - from,
{
    if from < s.len() {
        assert(text::is_digit(s[from]));
        lemma_no_dash(s, from + 1);
    }
}

proof fn lemma_no_long_host(locals: Seq<(Seq<char>, u16)>, from: int, i: int)
    requires
        0 <= from <= i < locals.len(),
        config::long_host(locals, from) is None,
    ensures
        encode_utf8(locals[i].0).len() <= 255,
    decreases i - from,
{
    if from < i {
        lemma_no_long_host(locals, from + 1, i);
    }
}

/// A service maps its public ports, in order, to as many local addresses,
/// whose hosts fit the protocol.
pub proof fn law_expand_positional(sp: ProxySpec)
    requires
        config::expansion(sp) is Ok,
    ensures
        config::policy_ports(sp.remote) is Ok,
        ({
            let ports = config::policy_ports(sp.remote)->Ok_0;
            let maps = config::expansion(sp)->Ok_0;
            &&& maps.len() == ports.len()
            &&& forall|i: int| 0 <= i < maps.len() ==> (#[trigger] maps[i]).remote == ports[i]
            &&& forall|i: int|
                0 <= i < maps.len() ==> encode_utf8((#[trigger] maps[i]).local_host).len() <= 255
        }),
{
    let ports = config::policy_ports(sp.remote)->Ok_0;
    let locals = config::spec_addrs(sp, ports)->Ok_0;
    let maps = config::expansion(sp)->Ok_0;
    assert forall|i: int| 0 <= i < maps.len() implies encode_utf8(
        (#[trigger] maps[i]).local_host,
    ).len() <= 255 by {
        lemma_no_long_host(locals, 0, i);
    }
}

proof fn lemma_same_host_fits(host: Seq<char>, ports: Seq<u16>, from: int)
    requires
        encode_utf8(host).len() <= 255,
        0 <= from <= ports.len(),
    ensures
        config::long_host(config::on_host(host, ports), from) is None,
    decreases ports.len() - from,
{
    if from < ports.len() {
        lemma_same_host_fits(host, ports, from + 1);
    }
}

/// A service that names no local address maps each public port to the same
/// port on 127.0.0.1, and fails only where its public ports cannot be read.
pub proof fn law_expand_default(sp: ProxySpec)
    requires
        sp.local is None,
    ensures
        config::policy_ports(sp.remote) is Err ==> config::expansion(sp) is Err,
        config::policy_ports(sp.remote) matches Ok(ports) ==> config::expansion(sp) == Ok::<
            Seq<config::MappingView>,
            Seq<char>,
        >(
            Seq::new(
                ports.len(),
                |i: int|
                    config::MappingView {
                        remote: ports[i],
                        local_host: "127.0.0.1"@,
                        local_port: ports[i],
                    },
            ),
        ),
{
    if let Ok(ports) = config::policy_ports(sp.remote) {
        let host = "127.0.0.1"@;
        assert(encode_utf8(host).len() <= 255) by {
            reveal_strlit("127.0.0.1");
            assert(is_ascii_chars(host));
            is_ascii_chars_encode_utf8(host);
        }
        lemma_same_host_fits(host, ports, 0);
        assert(config::paired(ports, config::on_host(host, ports)) =~= Seq::new(
            ports.len(),
            |i: int|
                config::MappingView { remote: ports[i], local_host: host, local_port: ports[i] },
        ));
    }
}

/// The data port is never 0 and never the control port.
pub proof fn law_data_port(s: ServerConfig, bind: Result<ControlAddr, String>)
    ensures
        config::server_addrs(s, bind) matches Ok((ctrl, data)) ==> data != 0 && data != ctrl.port,
{
}

/// A client opens between one channel and `MAX_DATA_CHANNELS`.
pub proof fn law_channel_count(c: ClientConfig)
    ensures
        config::client_addrs(c) matches Ok((_, _, n)) ==> 1 <= n <= MAX_DATA_CHANNELS,
{
}

proof fn lemma_services_valid(
    side: Seq<char>,
    services: Seq<(String, ProxySpec)>,
    from: int,
    i: int,
)
    requires
        0 <= from <= i < services.len(),
        config::services_complaint(side, services, from) is None,
    ensures
        config::service_complaint(side, services[i].0@, services[i].1) is None,
    decreases i - from,
{
    if from < i {
        lemma_services_valid(side, services, from + 1, i);
    }
}

/// In a valid config every service name fits the protocol and every service
/// can be expanded.
pub proof fn law_valid_services(c: Config, bind: Result<ControlAddr, String>)
    requires
        config::config_complaint(c, bind) is None,
    ensures
        forall|i: int|
            0 <= i < c.services@.len() ==> encode_utf8((#[trigger] c.services@[i]).0@).len() <= 255
                && config::expansion(c.services@[i].1) is Ok,
{
    assert forall|i: int| 0 <= i < c.services@.len() implies encode_utf8(
        (#[trigger] c.services@[i]).0@,
    ).len() <= 255 && config::expansion(c.services@[i].1) is Ok by {
        lemma_services_valid(config::side_name(c), c.services@, 0, i);
    }
}

/// In a valid config both sections can be resolved.
pub proof fn law_valid_sections(c: Config, bind: Result<ControlAddr, String>)
    requires
        config::config_complaint(c, bind) is None,
    ensures
        c.server matches Some(s) ==> config::server_addrs(s, bind) is Ok,
        c.client matches Some(k) ==> config::client_addrs(k) is Ok,
{
}

proof fn lemma_policy_problems(s: ServerConfig, data_port: u16, us: Seq<(Seq<char>, u16)>)
    ensures
        config::policy_problems(s, data_port, us).len() == 0 <==> (forall|i: int|
            0 <= i < us.len() ==> config::permits(s, (#[trigger] us[i]).1) && (data_port == 0
                || us[i].1 != data_port)),
    decreases us.len(),
{
    if us.len() > 0 {
        lemma_policy_problems(s, data_port, us.drop_last());
        let rest = us.drop_last();
        assert(config::use_problems(s, data_port, us.last()).len() == 0 <==> config::permits(
            s,
            us.last().1,
        ) && (data_port == 0 || us.last().1 != data_port));
        if config::policy_problems(s, data_port, us).len() == 0 {
            assert forall|i: int| 0 <= i < us.len() implies config::permits(
                s,
                (#[trigger] us[i]).1,
            ) && (data_port == 0 || us[i].1 != data_port) by {
                if i < rest.len() {
                    assert(rest[i] == us[i]);
                }
            }
        } else if config::policy_problems(s, data_port, rest).len() > 0 {
            let i = choose|i: int|
                0 <= i < rest.len() && !(config::permits(s, (#[trigger] rest[i]).1) && (data_port
                    == 0 || rest[i].1 != data_port));
            assert(us[i] == rest[i]);
        } else {
            assert(us[us.len() - 1] == us.last());
        }
    }
}

proof fn lemma_last_user(us: Seq<(Seq<char>, u16)>, port: u16)
    ensures
        config::last_user(us, port) is Some <==> (exists|i: int|
            0 <= i < us.len() && (#[trigger] us[i]).1 == port),
    decreases us.len(),
{
    if us.len() > 0 {
        let rest = us.drop_last();
        lemma_last_user(rest, port);
        if us.last().1 == port {
            assert(us[us.len() - 1].1 == port);
        } else if config::last_user(rest, port) is Some {
            let i = choose|i: int| 0 <= i < rest.len() && (#[trigger] rest[i]).1 == port;
            assert(us[i].1 == port);
        } else {
            assert forall|i: int| 0 <= i < us.len() implies (#[trigger] us[i]).1 != port by {
                if i < rest.len() {
                    assert(rest[i] == us[i]);
                }
            }
        }
    }
}

proof fn lemma_duplicate_problems(us: Seq<(Seq<char>, u16)>)
    ensures
        config::duplicate_problems(us).len() == 0 <==> (forall|i: int, j: int|
            0 <= i < j < us.len() ==> (#[trigger] us[i]).1 != (#[trigger] us[j]).1),
    decreases us.len(),
{
    if us.len() > 0 {
        let rest = us.drop_last();
        lemma_duplicate_problems(rest);
        lemma_last_user(rest, us.last().1);
        if config::duplicate_problems(us).len() == 0 {
            assert forall|i: int, j: int| 0 <= i < j < us.len() implies (#[trigger] us[i]).1 != (
            #[trigger] us[j]).1 by {
                assert(rest[i] == us[i]);
                if j < rest.len() {
                    assert(rest[j] == us[j]);
                }
            }
        } else if config::duplicate_problems(rest).len() > 0 {
            let (i, j) = choose|i: int, j: int|
                0 <= i < j < rest.len() && (#[trigger] rest[i]).1 == (#[trigger] rest[j]).1;
            assert(us[i] == rest[i] && us[j] == rest[j]);
        } else {
            let i = choose|i: int| 0 <= i < rest.len() && (#[trigger] rest[i]).1 == us.last().1;
            assert(us[i] == rest[i] && us[us.len() - 1] == us.last());
        }
    }
}

/// A pair of configs has no problems exactly where the secrets match, the
/// policy permits every public port, none of them is the data port and none is
/// used twice.
pub proof fn law_pair_consistent(
    server: ServerConfig,
    client: ClientConfig,
    services: Seq<(String, ProxySpec)>,
    bind: Result<ControlAddr, String>,
)
    ensures
        config::pair_problems(server, client, services, bind).len() == 0 <==> {
            let us = config::uses(services);
            &&& server.secret@ == client.secret@
            &&& forall|i: int| 0 <= i < us.len() ==> config::permits(server, (#[trigger] us[i]).1)
            &&& config::server_addrs(server, bind) matches Ok((_, data)) ==> forall|i: int|
                0 <= i < us.len() ==> (#[trigger] us[i]).1 != data
            &&& forall|i: int, j: int|
                0 <= i < j < us.len() ==> (#[trigger] us[i]).1 != (#[trigger] us[j]).1
        },
{
    let us = config::uses(services);
    lemma_policy_problems(server, config::data_port_of(server, bind), us);
    lemma_duplicate_problems(us);
    law_data_port(server, bind);
}

} // verus!
