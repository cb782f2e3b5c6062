//! Which ports a server lets through, where the services of a client end up, and
//! what the checks on configs find.
use crate::address_laws;
use crate::config::{
    ClientConfig, Config, ControlAddr, LocalSpec, MappingView, PortItem, PortPolicy, ProxySpec,
    ServerConfig,
};
use crate::config;
use crate::config_laws;
use crate::text;
use vstd::prelude::*;
use vstd::utf8::*;

verus! {

// ---- the port policy ----

/// With policies that can be read, a port may be exposed exactly where it is
/// none of the forbidden ports and, if there is a list of allowed ports, one of
/// them.
pub proof fn law_permits(s: ServerConfig, port: u16)
    requires
        s.forbid_ports matches Some(f) ==> config::policy_ports(f) is Ok,
        s.allow_ports matches Some(a) ==> config::policy_ports(a) is Ok,
    ensures
        config::permits(s, port) <==> {
            &&& s.forbid_ports matches Some(f) ==> !config::policy_ports(f)->Ok_0.contains(port)
            &&& s.allow_ports matches Some(a) ==> config::policy_ports(a)->Ok_0.contains(port)
        },
{
    if let Some(f) = s.forbid_ports {
        config_laws::law_forbidden_is_listed(f, port);
    }
}

/// An item of the forbidden ports that can be read forbids its ports, whether or
/// not the other items can be read.
pub proof fn law_forbidden_item(s: ServerConfig, items: Vec<PortItem>, i: int, port: u16)
    requires
        s.forbid_ports == Some(PortPolicy::Vec(items)),
        0 <= i < items@.len(),
        config::item_ports(items@[i]) matches Ok(ps) && ps.contains(port),
    ensures
        !config::permits(s, port),
{
    assert(config::names(config::item_ports(items@[i]), port));
}

/// Forbidden ports that cannot be read forbid nothing.
pub proof fn law_unreadable_forbid(s: ServerConfig, items: Vec<PortItem>, port: u16)
    requires
        s.allow_ports is None,
        ({
            ||| s.forbid_ports matches Some(PortPolicy::Str(t)) && config::range_ports(t@) is Err
            ||| s.forbid_ports == Some(PortPolicy::Vec(items)) && forall|i: int|
                0 <= i < items@.len() ==> (config::item_ports(#[trigger] items@[i]) matches Ok(ps)
                    ==> !ps.contains(port))
        }),
    ensures
        config::permits(s, port),
{
}

/// A single allowed port is the only one that may be exposed; a single forbidden
/// one is the only one that may not.
pub proof fn law_single_port_policy(s: ServerConfig, p: u16, port: u16)
    ensures
        s.allow_ports == Some(PortPolicy::Num(p)) && s.forbid_ports is None ==> (config::permits(
            s,
            port,
        ) <==> port == p),
        s.forbid_ports == Some(PortPolicy::Num(p)) && s.allow_ports is None ==> (config::permits(
            s,
            port,
        ) <==> port != p),
{
    assert(seq![p][0] == p);
    assert(seq![p].contains(port) <==> port == p);
}

/// Where "a-b" is allowed, the ports from `a` to `b` may be exposed and no
/// others; where it is forbidden, all others.
pub proof fn law_range_policy(s: ServerConfig, t: String, a: u16, b: u16, port: u16)
    requires
        a <= b,
        t@ == text::decimal(a as nat) + seq!['-'] + text::decimal(b as nat),
    ensures
        s.allow_ports == Some(PortPolicy::Str(t)) && s.forbid_ports is None ==> (config::permits(
            s,
            port,
        ) <==> a <= port <= b),
        s.forbid_ports == Some(PortPolicy::Str(t)) && s.allow_ports is None ==> (config::permits(
            s,
            port,
        ) <==> !(a <= port <= b)),
{
    let none = Seq::<char>::empty();
    let x = text::decimal(a as nat);
    let y = text::decimal(b as nat);
    address_laws::law_range(a, b, none, none, none, none, port);
    assert(none + x + none + seq!['-'] + none + y + none =~= t@);
}

// ---- services ----

proof fn lemma_hosts_fit(locals: Seq<(Seq<char>, u16)>, from: int)
    requires
        0 <= from <= locals.len(),
    ensures
        config::long_host(locals, from) is None <==> forall|i: int|
            from <= i < locals.len() ==> encode_utf8((#[trigger] locals[i]).0).len() <= 255,
    decreases locals.len() - from,
{
    if from < locals.len() {
        lemma_hosts_fit(locals, from + 1);
        if config::long_host(locals, from + 1) is None && encode_utf8(locals[from].0).len() <= 255 {
            assert forall|i: int| from <= i < locals.len() implies encode_utf8(
                (#[trigger] locals[i]).0,
            ).len() <= 255 by {}
        }
    }
}

/// A service with local addresses can be expanded exactly where its public ports
/// and its local addresses can be read, there are as many of the ones as of the
/// others, and every host fits the protocol. The mapping at each place is the
/// public port and the local address at that place.
pub proof fn law_expansion(sp: ProxySpec, l: LocalSpec)
    requires
        sp.local == Some(l),
    ensures
        config::expansion(sp) is Ok <==> {
            &&& config::policy_ports(sp.remote) matches Ok(remotes)
            &&& config::local_addrs(l, "127.0.0.1"@) matches Ok(locals)
            &&& remotes.len() == locals.len()
            &&& forall|i: int|
                0 <= i < locals.len() ==> encode_utf8((#[trigger] locals[i]).0).len() <= 255
        },
        config::expansion(sp) matches Ok(maps) ==> {
            let remotes = config::policy_ports(sp.remote)->Ok_0;
            let locals = config::local_addrs(l, "127.0.0.1"@)->Ok_0;
            &&& maps.len() == remotes.len()
            &&& forall|i: int|
                0 <= i < maps.len() ==> (#[trigger] maps[i]).remote == remotes[i]
                    && maps[i].local_host == locals[i].0 && maps[i].local_port == locals[i].1
        },
{
    if config::policy_ports(sp.remote) is Ok {
        if let Ok(locals) = config::local_addrs(l, "127.0.0.1"@) {
            lemma_hosts_fit(locals, 0);
        }
    }
}

/// A service that exposes "a-b" and names no local address maps every port from
/// `a` to `b` to the same port on 127.0.0.1.
pub proof fn law_range_service(sp: ProxySpec, t: String, a: u16, b: u16)
    requires
        a <= b,
        t@ == text::decimal(a as nat) + seq!['-'] + text::decimal(b as nat),
        sp.remote == PortPolicy::Str(t),
        sp.local is None,
    ensures
        config::expansion(sp) matches Ok(maps) && {
            &&& maps.len() == b - a + 1
            &&& forall|i: int|
                0 <= i < maps.len() ==> (#[trigger] maps[i]).remote == a + i && maps[i].local_host
                    == "127.0.0.1"@ && maps[i].local_port == a + i
        },
{
    let none = Seq::<char>::empty();
    let x = text::decimal(a as nat);
    let y = text::decimal(b as nat);
    address_laws::law_range(a, b, none, none, none, none, a);
    assert(none + x + none + seq!['-'] + none + y + none =~= t@);
    config_laws::law_expand_default(sp);
    let maps = config::expansion(sp)->Ok_0;
    let ps = config::range_ports(t@)->Ok_0;
    assert forall|i: int| 0 <= i < maps.len() implies (#[trigger] maps[i]).remote == a + i
        && maps[i].local_host == "127.0.0.1"@ && maps[i].local_port == a + i by {
        assert(ps[i] == a + i);
    }
}

/// A service that exposes `r` and connects to "host:p" has that one mapping.
pub proof fn law_single_service(sp: ProxySpec, r: u16, t: String, host: Seq<char>, p: u16)
    requires
        host.len() > 0,
        !text::is_white_space(host[0]),
        !text::is_white_space(host.last()),
        encode_utf8(host).len() <= 255,
        t@ == host + seq![':'] + text::decimal(p as nat),
        sp.remote == PortPolicy::Num(r),
        sp.local == Some(LocalSpec::Str(t)),
    ensures
        config::expansion(sp) == Ok::<Seq<MappingView>, Seq<char>>(
            seq![MappingView { remote: r, local_host: host, local_port: p }],
        ),
{
    address_laws::law_local_text(host, p, p, "127.0.0.1"@);
    let locals = config::local_addrs(LocalSpec::Str(t), "127.0.0.1"@)->Ok_0;
    assert(locals == seq![(host, p)]);
    law_expansion(sp, LocalSpec::Str(t));
    assert forall|i: int| 0 <= i < locals.len() implies encode_utf8(
        (#[trigger] locals[i]).0,
    ).len() <= 255 by {}
    let maps = config::expansion(sp)->Ok_0;
    assert(maps =~= seq![MappingView { remote: r, local_host: host, local_port: p }]);
}

/// A service that exposes `r` and connects to the port `p` does so on 127.0.0.1.
pub proof fn law_numeric_service(sp: ProxySpec, r: u16, p: u16)
    requires
        sp.remote == PortPolicy::Num(r),
        sp.local == Some(LocalSpec::Num(p)),
    ensures
        config::expansion(sp) == Ok::<Seq<MappingView>, Seq<char>>(
            seq![MappingView { remote: r, local_host: "127.0.0.1"@, local_port: p }],
        ),
{
    let host = "127.0.0.1"@;
    assert(encode_utf8(host).len() <= 255) by {
        reveal_strlit("127.0.0.1");
        assert(is_ascii_chars(host));
        is_ascii_chars_encode_utf8(host);
    }
    let locals = seq![(host, p)];
    law_expansion(sp, LocalSpec::Num(p));
    assert forall|i: int| 0 <= i < locals.len() implies encode_utf8(
        (#[trigger] locals[i]).0,
    ).len() <= 255 by {}
    let maps = config::expansion(sp)->Ok_0;
    assert(maps =~= seq![MappingView { remote: r, local_host: host, local_port: p }]);
}

// ---- sections ----

/// A server can be resolved exactly where its `bind` could be read and its data
/// port is one: a port that is set is not 0 and not the control port, and where
/// none is set the control port is not the last one. The control address is
/// what was read, and the data port what is set or the port after the control
/// port.
pub proof fn law_server_resolved(s: ServerConfig, bind: Result<ControlAddr, String>)
    ensures
        config::server_addrs(s, bind) is Ok <==> {
            &&& bind matches Ok(ctrl)
            &&& s.data_port matches Some(p) ==> p != 0 && p != ctrl.port
            &&& s.data_port is None ==> ctrl.port < 65535
        },
        config::server_addrs(s, bind) matches Ok((ctrl, data)) ==> {
            &&& bind == Ok::<ControlAddr, String>(ctrl)
            &&& s.data_port matches Some(p) ==> data == p
            &&& s.data_port is None ==> data == ctrl.port + 1
        },
{
}

proof fn lemma_all_services_fine(side: Seq<char>, services: Seq<(String, ProxySpec)>, from: int)
    requires
        0 <= from <= services.len(),
        forall|i: int|
            from <= i < services.len() ==> encode_utf8((#[trigger] services[i]).0@).len() <= 255
                && config::expansion(services[i].1) is Ok,
    ensures
        config::services_complaint(side, services, from) is None,
    decreases services.len() - from,
{
    if from < services.len() {
        assert(config::expansion(services[from].1) is Ok);
        lemma_all_services_fine(side, services, from + 1);
    }
}

/// A config is valid exactly where every service name fits the protocol, every
/// service can be expanded, and the sections that are there can be resolved.
pub proof fn law_valid(c: Config, bind: Result<ControlAddr, String>)
    ensures
        config::config_complaint(c, bind) is None <==> {
            &&& forall|i: int|
                0 <= i < c.services@.len() ==> encode_utf8((#[trigger] c.services@[i]).0@).len()
                    <= 255 && config::expansion(c.services@[i].1) is Ok
            &&& c.server matches Some(s) ==> config::server_addrs(s, bind) is Ok
            &&& c.client matches Some(k) ==> config::client_addrs(k) is Ok
        },
{
    if config::config_complaint(c, bind) is None {
        config_laws::law_valid_services(c, bind);
        config_laws::law_valid_sections(c, bind);
    }
    if forall|i: int|
        0 <= i < c.services@.len() ==> encode_utf8((#[trigger] c.services@[i]).0@).len() <= 255
            && config::expansion(c.services@[i].1) is Ok {
        lemma_all_services_fine(config::side_name(c), c.services@, 0);
    }
}

/// A server's config with fine services is valid, without a data port of its own,
/// on every control port but the last one, and with one, where that is neither
/// 0 nor the control port.
pub proof fn law_valid_server(c: Config, s: ServerConfig, ctrl: ControlAddr)
    requires
        c.server == Some(s),
        c.client is None,
        forall|i: int|
            0 <= i < c.services@.len() ==> encode_utf8((#[trigger] c.services@[i]).0@).len() <= 255
                && config::expansion(c.services@[i].1) is Ok,
    ensures
        s.data_port is None ==> (config::config_complaint(c, Ok(ctrl)) is None <==> ctrl.port
            != 65535),
        s.data_port matches Some(p) ==> (config::config_complaint(c, Ok(ctrl)) is None <==> p != 0
            && p != ctrl.port),
{
    law_valid(c, Ok(ctrl));
    law_server_resolved(s, Ok(ctrl));
}

/// A config with a client section that names a host and a port is valid where
/// its services are and its channel count, if it sets one, is in range.
pub proof fn law_valid_client(c: Config, k: ClientConfig, host: Seq<char>, p: u16, bind: Result<
    ControlAddr,
    String,
>)
    requires
        c.client == Some(k),
        c.server is None,
        host.len() > 0,
        !text::is_white_space(host[0]),
        !text::is_white_space(host.last()),
        k.server@ == host + seq![':'] + text::decimal(p as nat),
        forall|i: int|
            0 <= i < c.services@.len() ==> encode_utf8((#[trigger] c.services@[i]).0@).len() <= 255
                && config::expansion(c.services@[i].1) is Ok,
    ensures
        config::config_complaint(c, bind) is None <==> (k.channels matches Some(n) ==> 1 <= n
            <= 64),
{
    law_valid(c, bind);
    address_laws::law_client_dials(k, host, p);
}

// ---- complaints ----

proof fn lemma_first_service(side: Seq<char>, services: Seq<(String, ProxySpec)>, from: int, k: int)
    requires
        0 <= from <= k < services.len(),
        forall|i: int|
            from <= i < k ==> encode_utf8((#[trigger] services[i]).0@).len() <= 255
                && config::expansion(services[i].1) is Ok,
    ensures
        config::services_complaint(side, services, from) == config::services_complaint(
            side,
            services,
            k,
        ),
    decreases k - from,
{
    if from < k {
        assert(config::expansion(services[from].1) is Ok);
        lemma_first_service(side, services, from + 1, k);
    }
}

/// The complaint about a config is that about its first service that is not
/// fine: it shows the service's name and, where the name itself is fine, why the
/// service cannot be expanded and which side the config is for.
pub proof fn law_first_complaint(c: Config, bind: Result<ControlAddr, String>, k: int)
    requires
        0 <= k < c.services@.len(),
        forall|i: int|
            0 <= i < k ==> encode_utf8((#[trigger] c.services@[i]).0@).len() <= 255
                && config::expansion(c.services@[i].1) is Ok,
        encode_utf8(c.services@[k].0@).len() > 255 || config::expansion(c.services@[k].1) is Err,
    ensures
        config::config_complaint(c, bind) matches Some(e) && {
            &&& encode_utf8(c.services@[k].0@).len() > 255 ==> text::mentions(
                e,
                text::quoted_text(c.services@[k].0@),
            )
            &&& encode_utf8(c.services@[k].0@).len() <= 255 ==> {
                &&& text::mentions(e, c.services@[k].0@)
                &&& text::mentions(e, config::expansion(c.services@[k].1)->Err_0)
                &&& c.server is Some ==> text::mentions(e, "server"@)
                &&& c.server is None ==> text::mentions(e, "client"@)
            }
        },
{
    let side = config::side_name(c);
    let name = c.services@[k].0@;
    let sp = c.services@[k].1;
    lemma_first_service(side, c.services@, 0, k);
    let e = config::config_complaint(c, bind)->Some_0;
    let none = Seq::<char>::empty();
    if encode_utf8(name).len() > 255 {
        let q = text::quoted_text(name);
        let tail = ": name is "@ + text::decimal(encode_utf8(name).len())
            + " bytes; the protocol limit is 255"@;
        assert(e =~= "service "@ + q + tail);
        text::lemma_mentions("service "@, q, tail, e);
    } else {
        let why = config::expansion(sp)->Err_0;
        assert(e =~= (side + " service "@) + name + (": "@ + why));
        text::lemma_mentions(side + " service "@, name, ": "@ + why, e);
        assert(e =~= (side + " service "@ + name + ": "@) + why + none);
        text::lemma_mentions(side + " service "@ + name + ": "@, why, none, e);
        let tail = " service "@ + name + ": "@ + why;
        assert(e =~= none + side + tail);
        text::lemma_mentions(none, side, tail, e);
    }
}

/// Where the services are fine, the complaint is that about the server section,
/// and where that is fine too, that about the client section.
pub proof fn law_section_complaint(c: Config, bind: Result<ControlAddr, String>)
    requires
        forall|i: int|
            0 <= i < c.services@.len() ==> encode_utf8((#[trigger] c.services@[i]).0@).len() <= 255
                && config::expansion(c.services@[i].1) is Ok,
    ensures
        c.server matches Some(s) ==> (config::server_addrs(s, bind) matches Err(why) ==> (
        config::config_complaint(c, bind) matches Some(e) && text::mentions(e, why))),
        (c.server matches Some(s) ==> config::server_addrs(s, bind) is Ok) ==> (c.client matches
            Some(k) ==> (config::client_addrs(k) matches Err(why) ==> (config::config_complaint(
            c,
            bind,
        ) matches Some(e) && text::mentions(e, why)))),
{
    lemma_all_services_fine(config::side_name(c), c.services@, 0);
    let none = Seq::<char>::empty();
    if let Some(s) = c.server {
        if let Err(why) = config::server_addrs(s, bind) {
            let e = config::config_complaint(c, bind)->Some_0;
            assert(e =~= "server: "@ + why + none);
            text::lemma_mentions("server: "@, why, none, e);
        }
    }
    if let Some(k) = c.client {
        if let Err(why) = config::client_addrs(k) {
            if config::server_complaint(c.server, bind) is None {
                let e = config::config_complaint(c, bind)->Some_0;
                assert(e =~= "client: "@ + why + none);
                text::lemma_mentions("client: "@, why, none, e);
            }
        }
    }
}

// ---- a pair of configs ----

/// The uses of public ports of two lists of services are those of the one and
/// then those of the other; a single service uses the public ports of its
/// mappings, in order, under its name.
pub proof fn law_uses(a: Seq<(String, ProxySpec)>, b: Seq<(String, ProxySpec)>, x: (String, ProxySpec))
    ensures
        config::uses(a + b) == config::uses(a) + config::uses(b),
        config::expansion(x.1) is Err ==> config::uses(seq![x]).len() == 0,
        config::expansion(x.1) matches Ok(maps) ==> {
            let us = config::uses(seq![x]);
            &&& us.len() == maps.len()
            &&& forall|i: int|
                0 <= i < us.len() ==> (#[trigger] us[i]).0 == x.0@ && us[i].1 == maps[i].remote
        },
    decreases b.len(),
{
    if b.len() == 0 {
        assert(a + b =~= a);
        assert(config::uses(a) + config::uses(b) =~= config::uses(a));
    } else {
        assert((a + b).drop_last() =~= a + b.drop_last());
        law_uses(a, b.drop_last(), x);
        assert(config::uses(a + b) =~= config::uses(a) + config::uses(b));
    }
    let one = seq![x];
    assert(one.drop_last() =~= Seq::<(String, ProxySpec)>::empty());
    assert(config::uses(one.drop_last()) =~= Seq::empty());
    assert(config::uses(one) =~= config::uses_of(x.0@, config::service_ports(x.1)));
}

/// Does `e` show the service `name` and the port `port`?
pub open spec fn shows(e: Seq<char>, name: Seq<char>, port: u16) -> bool {
    text::mentions(e, name) && text::mentions(e, text::decimal(port as nat))
}

proof fn lemma_shows(e: Seq<char>, name: Seq<char>, port: u16, tail: Seq<char>)
    requires
        e == "service "@ + name + ": public port "@ + text::decimal(port as nat) + tail,
    ensures
        shows(e, name, port),
{
    let d = text::decimal(port as nat);
    let rest = ": public port "@ + d + tail;
    assert(e =~= "service "@ + name + rest);
    text::lemma_mentions("service "@, name, rest, e);
    let front = "service "@ + name + ": public port "@;
    text::lemma_mentions(front, d, tail, e);
}

/// A use of a port that the policy denies is one problem, a use of the data port
/// is one more, and each of them shows the service and the port; any other use
/// is none. A data port of 0 is no port.
pub proof fn law_use_problems(s: ServerConfig, data_port: u16, u: (Seq<char>, u16))
    ensures
        ({
            let found = config::policy_problems(s, data_port, seq![u]);
            let denied: int = if config::permits(s, u.1) {
                0
            } else {
                1
            };
            let collides: int = if data_port != 0 && u.1 == data_port {
                1
            } else {
                0
            };
            &&& found.len() == denied + collides
            &&& forall|i: int| 0 <= i < found.len() ==> shows(#[trigger] found[i], u.0, u.1)
            &&& denied == 1 ==> text::mentions(
                found[0],
                " not permitted by the server's allow/forbid policy"@,
            )
            &&& collides == 1 ==> text::mentions(
                found.last(),
                " collides with the server's data port"@,
            )
        }),
{
    let found = config::policy_problems(s, data_port, seq![u]);
    let none = Seq::<char>::empty();
    assert(seq![u].drop_last() =~= Seq::<(Seq<char>, u16)>::empty());
    assert(config::policy_problems(s, data_port, seq![u].drop_last()) =~= Seq::empty());
    assert(found =~= config::use_problems(s, data_port, u));
    let denied = config::denied_problem(u.0, u.1);
    let collides = config::collision_problem(u.0, u.1);
    let why = " not permitted by the server's allow/forbid policy"@;
    let that = " collides with the server's data port"@;
    lemma_shows(denied, u.0, u.1, why);
    lemma_shows(collides, u.0, u.1, that);
    let front = "service "@ + u.0 + ": public port "@ + text::decimal(u.1 as nat);
    assert(denied =~= front + why + none);
    text::lemma_mentions(front, why, none, denied);
    assert(collides =~= front + that + none);
    text::lemma_mentions(front, that, none, collides);
}

/// The problems with two lists of uses are those with the one and then those with
/// the other.
pub proof fn law_policy_problems_add(
    s: ServerConfig,
    data_port: u16,
    a: Seq<(Seq<char>, u16)>,
    b: Seq<(Seq<char>, u16)>,
)
    ensures
        config::policy_problems(s, data_port, Seq::empty()).len() == 0,
        config::policy_problems(s, data_port, a + b) == config::policy_problems(s, data_port, a)
            + config::policy_problems(s, data_port, b),
    decreases b.len(),
{
    let f = |us: Seq<(Seq<char>, u16)>| config::policy_problems(s, data_port, us);
    if b.len() == 0 {
        assert(a + b =~= a);
        assert(f(a) + f(b) =~= f(a));
    } else {
        assert((a + b).drop_last() =~= a + b.drop_last());
        law_policy_problems_add(s, data_port, a, b.drop_last());
        assert(f(a + b) =~= f(a) + f(b));
    }
}

proof fn lemma_last_user_is(us: Seq<(Seq<char>, u16)>, i: int)
    requires
        0 <= i < us.len(),
        forall|k: int| i < k < us.len() ==> (#[trigger] us[k]).1 != us[i].1,
    ensures
        config::last_user(us, us[i].1) == Some(us[i].0),
    decreases us.len(),
{
    let rest = us.drop_last();
    if i < rest.len() {
        assert(us[us.len() - 1].1 != us[i].1);
        assert forall|k: int| i < k < rest.len() implies (#[trigger] rest[k]).1 != rest[i].1 by {
            assert(us[k].1 != us[i].1);
        }
        lemma_last_user_is(rest, i);
    }
}

proof fn lemma_no_user(us: Seq<(Seq<char>, u16)>, port: u16)
    requires
        forall|k: int| 0 <= k < us.len() ==> (#[trigger] us[k]).1 != port,
    ensures
        config::last_user(us, port) is None,
    decreases us.len(),
{
    if us.len() > 0 {
        let rest = us.drop_last();
        assert(us[us.len() - 1].1 != port);
        assert forall|k: int| 0 <= k < rest.len() implies (#[trigger] rest[k]).1 != port by {
            assert(us[k].1 != port);
        }
        lemma_no_user(rest, port);
    }
}

/// A use of a port that is not used before is no duplicate, and a first one never
/// is.
pub proof fn law_no_duplicate(us: Seq<(Seq<char>, u16)>, u: (Seq<char>, u16))
    requires
        forall|k: int| 0 <= k < us.len() ==> (#[trigger] us[k]).1 != u.1,
    ensures
        config::duplicate_problems(Seq::empty()).len() == 0,
        config::duplicate_problems(us.push(u)) == config::duplicate_problems(us),
{
    assert(us.push(u).drop_last() =~= us);
    lemma_no_user(us, u.1);
}

/// A use of a port that is used before is one problem more, which shows the
/// service that used the port last, the service that uses it now, and the
/// port.
pub proof fn law_duplicate(us: Seq<(Seq<char>, u16)>, i: int, u: (Seq<char>, u16))
    requires
        0 <= i < us.len(),
        us[i].1 == u.1,
        forall|k: int| i < k < us.len() ==> (#[trigger] us[k]).1 != u.1,
    ensures
        ({
            let before = config::duplicate_problems(us);
            let found = config::duplicate_problems(us.push(u));
            &&& found.len() == before.len() + 1
            &&& found.drop_last() == before
            &&& found.last() == config::duplicate_problem(us[i].0, u.0, u.1)
            &&& text::mentions(found.last(), us[i].0)
            &&& shows(found.last(), u.0, u.1)
        }),
{
    assert(us.push(u).drop_last() =~= us);
    lemma_last_user_is(us, i);
    let before = config::duplicate_problems(us);
    let found = config::duplicate_problems(us.push(u));
    assert(found.drop_last() =~= before);
    let e = found.last();
    let d = text::decimal(u.1 as nat);
    let none = Seq::<char>::empty();
    let first = us[i].0;
    let r1 = " and "@ + u.0 + " both use public port "@ + d;
    assert(e =~= "services "@ + first + r1);
    text::lemma_mentions("services "@, first, r1, e);
    let f2 = "services "@ + first + " and "@;
    let r2 = " both use public port "@ + d;
    assert(e =~= f2 + u.0 + r2);
    text::lemma_mentions(f2, u.0, r2, e);
    let f3 = "services "@ + first + " and "@ + u.0 + " both use public port "@;
    assert(e =~= f3 + d + none);
    text::lemma_mentions(f3, d, none, e);
}

/// The problems of a pair of configs: first that the secrets differ, if they do,
/// then what the server's policy and data port say of each public port, then
/// the public ports that are used more than once.
pub proof fn law_pair_problems(
    server: ServerConfig,
    client: ClientConfig,
    services: Seq<(String, ProxySpec)>,
    bind: Result<ControlAddr, String>,
)
    ensures
        ({
            let us = config::uses(services);
            let data: u16 = match config::server_addrs(server, bind) {
                Ok((_, p)) => p,
                Err(_) => 0,
            };
            let others = config::policy_problems(server, data, us) + config::duplicate_problems(us);
            let found = config::pair_problems(server, client, services, bind);
            &&& server.secret@ == client.secret@ ==> found == others
            &&& server.secret@ != client.secret@ ==> found == seq![
                "secrets differ between the two configs"@,
            ] + others
        }),
{
    let us = config::uses(services);
    let data = config::data_port_of(server, bind);
    let p = config::policy_problems(server, data, us);
    let d = config::duplicate_problems(us);
    let found = config::pair_problems(server, client, services, bind);
    if server.secret@ == client.secret@ {
        assert(found =~= p + d);
    } else {
        assert(found =~= seq!["secrets differ between the two configs"@] + (p + d));
    }
}

} // verus!
