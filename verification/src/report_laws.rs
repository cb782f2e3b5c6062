//! What the reports of `check` show: every service with its ports, every problem,
//! and nothing behind an error.
use crate::cli::Lines;
use crate::cli;
use crate::config::{ClientConfig, Config, ControlAddr, PortPolicy, ProxySpec, ServerConfig};
use crate::config;
use crate::text;
use vstd::prelude::*;

verus! {

// ---- parts of a report ----

/// Parts of a report come in order, and nothing comes behind an error, however
/// the parts are grouped.
pub proof fn law_parts(a: Lines, b: Lines, c: Lines)
    ensures
        cli::followed_by(cli::followed_by(a, b), c) == cli::followed_by(a, cli::followed_by(b, c)),
        cli::followed_by(cli::nothing(), a) == a,
        cli::followed_by(a, cli::nothing()) == a,
        a.1 is Some ==> cli::followed_by(a, b) == a,
        a.1 is None ==> cli::followed_by(a, b).0 == a.0 + b.0 && cli::followed_by(a, b).1 == b.1,
{
    let l = cli::followed_by(cli::followed_by(a, b), c);
    let r = cli::followed_by(a, cli::followed_by(b, c));
    assert(l.0 =~= r.0);
    assert(cli::followed_by(cli::nothing(), a).0 =~= a.0);
    assert(cli::followed_by(a, cli::nothing()).0 =~= a.0);
}

/// A list of ports is in brackets, with the ports in decimal and commas between
/// them.
pub proof fn law_list_text(ports: Seq<u16>, p: u16)
    ensures
        cli::list_text(Seq::empty()) == "["@ + "]"@,
        cli::list_text(seq![p]) == "["@ + text::decimal(p as nat) + "]"@,
        ports.len() > 0 ==> cli::list_text(ports.push(p)) == "["@ + cli::joined(ports) + ", "@
            + text::decimal(p as nat) + "]"@,
{
    let none = Seq::<u16>::empty();
    assert("["@ + cli::joined(none) =~= "["@);
    assert(ports.push(p).drop_last() =~= ports);
    let d = text::decimal(p as nat);
    assert("["@ + (cli::joined(ports) + ", "@ + d) =~= "["@ + cli::joined(ports) + ", "@ + d);
}

/// A policy that is not set shows nothing; one that cannot be read is an error,
/// and any other is one line, with all of its ports.
pub proof fn law_policy_lines(label: Seq<char>, p: PortPolicy)
    ensures
        cli::policy_lines(label, None).0.len() == 0,
        cli::policy_lines(label, None).1 is None,
        config::policy_ports(p) matches Err(e) ==> {
            &&& cli::policy_lines(label, Some(p)).0.len() == 0
            &&& cli::policy_lines(label, Some(p)).1 == Some(e)
        },
        config::policy_ports(p) matches Ok(ports) ==> {
            &&& cli::policy_lines(label, Some(p)).0 == seq![label + cli::list_text(ports)]
            &&& cli::policy_lines(label, Some(p)).1 is None
        },
{
}

// ---- services ----

/// The lines about two lists of services are those about the one and then those
/// about the other, unless the first breaks off.
pub proof fn law_services_lines(a: Seq<(String, ProxySpec)>, b: Seq<(String, ProxySpec)>)
    ensures
        cli::services_lines(Seq::empty()).0.len() == 0,
        cli::services_lines(Seq::empty()).1 is None,
        cli::services_lines(a).1 is Some ==> cli::services_lines(a + b) == cli::services_lines(a),
        cli::services_lines(a).1 is None ==> {
            &&& cli::services_lines(a + b).0 == cli::services_lines(a).0 + cli::services_lines(b).0
            &&& cli::services_lines(a + b).1 == cli::services_lines(b).1
        },
    decreases b.len(),
{
    if b.len() == 0 {
        assert(a + b =~= a);
        assert(cli::services_lines(a).0 + cli::services_lines(b).0 =~= cli::services_lines(a).0);
    } else {
        assert((a + b).drop_last() =~= a + b.drop_last());
        law_services_lines(a, b.drop_last());
        if cli::services_lines(a).1 is None {
            assert(cli::services_lines(a + b).0 =~= cli::services_lines(a).0
                + cli::services_lines(b).0);
        }
    }
}

/// A service has one line for each of its mappings, in order, that shows the
/// service, the public port and the local address; one that cannot be expanded
/// is an error.
pub proof fn law_service_lines(x: (String, ProxySpec))
    ensures
        config::expansion(x.1) matches Err(e) ==> {
            &&& cli::services_lines(seq![x]).0.len() == 0
            &&& cli::services_lines(seq![x]).1 == Some(e)
        },
        config::expansion(x.1) matches Ok(maps) ==> {
            let lines = cli::services_lines(seq![x]).0;
            &&& cli::services_lines(seq![x]).1 is None
            &&& lines.len() == maps.len()
            &&& forall|k: int|
                0 <= k < lines.len() ==> {
                    &&& text::mentions(#[trigger] lines[k], x.0@)
                    &&& text::mentions(
                        lines[k],
                        text::decimal(maps[k].remote as nat) + " -> local "@ + text::host_port(
                            maps[k].local_host,
                            maps[k].local_port,
                        ),
                    )
                }
        },
{
    let one = seq![x];
    assert(one.drop_last() =~= Seq::<(String, ProxySpec)>::empty());
    let none = cli::services_lines(one.drop_last());
    assert(none.0 =~= Seq::<Seq<char>>::empty());
    let own = cli::service_lines(x.0@, x.1);
    assert(none.0 + own.0 =~= own.0);
    assert(cli::services_lines(one) == own);
    if let Ok(maps) = config::expansion(x.1) {
        let lines = own.0;
        assert forall|k: int| 0 <= k < lines.len() implies text::mentions(
            #[trigger] lines[k],
            x.0@,
        ) && text::mentions(
            lines[k],
            text::decimal(maps[k].remote as nat) + " -> local "@ + text::host_port(
                maps[k].local_host,
                maps[k].local_port,
            ),
        ) by {
            let m = maps[k];
            let to = text::host_port(m.local_host, m.local_port);
            let d = text::decimal(m.remote as nat);
            let front = "               ["@;
            let l = lines[k];
            assert(l == cli::mapping_line(x.0@, m));
            let tail = "] remote "@ + d + " -> local "@ + to;
            assert(l =~= front + x.0@ + tail);
            text::lemma_mentions(front, x.0@, tail, l);
            let head = front + x.0@ + "] remote "@;
            let sub = d + " -> local "@ + to;
            assert(l =~= head + sub + Seq::<char>::empty());
            text::lemma_mentions(head, sub, Seq::empty(), l);
        }
    }
}

proof fn lemma_services_shown(services: Seq<(String, ProxySpec)>)
    ensures
        cli::services_lines(services).1 is None <==> forall|i: int|
            0 <= i < services.len() ==> config::expansion((#[trigger] services[i]).1) is Ok,
    decreases services.len(),
{
    if services.len() > 0 {
        let rest = services.drop_last();
        lemma_services_shown(rest);
        if cli::services_lines(services).1 is None {
            assert forall|i: int| 0 <= i < services.len() implies config::expansion(
                (#[trigger] services[i]).1,
            ) is Ok by {
                if i < rest.len() {
                    assert(rest[i] == services[i]);
                }
            }
        } else if cli::services_lines(rest).1 is Some {
            let i = choose|i: int|
                0 <= i < rest.len() && config::expansion((#[trigger] rest[i]).1) is Err;
            assert(services[i] == rest[i]);
        } else {
            assert(services[services.len() - 1] == services.last());
        }
    }
}

// ---- sections ----

/// The report on a client shows where it connects and over how many channels, and
/// then every mapping of every service. It breaks off exactly where the client
/// cannot be resolved or a service cannot be expanded.
pub proof fn law_client_lines(cfg: Config, c: ClientConfig)
    ensures
        ({
            let report = cli::client_lines(cfg, c);
            &&& report.1 is None <==> {
                &&& config::client_addrs(c) is Ok
                &&& forall|i: int|
                    0 <= i < cfg.services@.len() ==> config::expansion(
                        (#[trigger] cfg.services@[i]).1,
                    ) is Ok
            }
            &&& config::client_addrs(c) matches Err(e) ==> report.0.len() == 0 && report.1 == Some(
                e,
            )
            &&& config::client_addrs(c) matches Ok((host, port, n)) ==> {
                &&& report.0.len() >= 3
                &&& text::mentions(report.0[0], text::host_port(host, port))
                &&& text::mentions(report.0[1], text::decimal(n as nat))
                &&& cfg.services@.len() == 0 ==> report.0.len() == 3 && report.0[2]
                    == "warning: client config has no [services.*] — nothing to expose"@
                &&& cfg.services@.len() > 0 ==> {
                    &&& report.0[2] == "client   proxies:"@
                    &&& report.0.skip(3) == cli::services_lines(cfg.services@).0
                    &&& report.1 == cli::services_lines(cfg.services@).1
                }
            }
        }),
{
    lemma_services_shown(cfg.services@);
    let report = cli::client_lines(cfg, c);
    if let Ok((host, port, n)) = config::client_addrs(c) {
        let to = text::host_port(host, port);
        let d = text::decimal(n as nat);
        let first = "client   server  = "@;
        let second = "client   data    = "@;
        let tail = " channel(s) on the server's data port"@;
        assert(report.0[0] == first + to);
        assert(report.0[1] == second + d + tail);
        assert(report.0[0] =~= first + to + Seq::<char>::empty());
        text::lemma_mentions(first, to, Seq::empty(), report.0[0]);
        text::lemma_mentions(second, d, tail, report.0[1]);
        if cfg.services@.len() > 0 {
            assert(report.0.skip(3) =~= cli::services_lines(cfg.services@).0);
        }
    }
}

/// Can a list of ports be read, if there is one?
pub open spec fn readable(policy: Option<PortPolicy>) -> bool {
    policy matches Some(p) ==> config::policy_ports(p) is Ok
}

/// The report on a server shows its control address and its data port, and then a
/// line for each list of ports that is set and one where services are ignored.
/// It breaks off exactly where the server cannot be resolved or a list of ports
/// cannot be read.
pub proof fn law_server_lines(cfg: Config, s: ServerConfig, bind: Result<ControlAddr, String>)
    ensures
        ({
            let report = cli::server_lines(cfg, s, bind);
            let allow: int = if s.allow_ports is Some {
                1
            } else {
                0
            };
            let forbid: int = if s.forbid_ports is Some {
                1
            } else {
                0
            };
            let ignored: int = if cfg.services@.len() > 0 {
                1
            } else {
                0
            };
            &&& report.1 is None <==> config::server_addrs(s, bind) is Ok && readable(s.allow_ports)
                && readable(s.forbid_ports)
            &&& config::server_addrs(s, bind) matches Err(e) ==> report.0.len() == 0 && report.1
                == Some(e)
            &&& config::server_addrs(s, bind) matches Ok((ctrl, data)) ==> {
                &&& report.0.len() >= 2
                &&& text::mentions(report.0[0], ctrl.text@)
                &&& text::mentions(report.0[1], text::decimal(data as nat))
            }
            &&& report.1 is None ==> report.0.len() == 2 + allow + forbid + ignored
            &&& report.1 is None ==> (s.allow_ports matches Some(p) ==> report.0[2]
                == "server   allow   = "@ + cli::list_text(config::policy_ports(p)->Ok_0))
            &&& report.1 is None ==> (s.forbid_ports matches Some(p) ==> report.0[2 + allow]
                == "server   forbid  = "@ + cli::list_text(config::policy_ports(p)->Ok_0))
            &&& report.1 is None && cfg.services@.len() > 0 ==> report.0.last()
                == "warning: server config has [services] — ignored (server is stateless)"@
        }),
{
    let report = cli::server_lines(cfg, s, bind);
    let none = Seq::<char>::empty();
    if let Ok((ctrl, data)) = config::server_addrs(s, bind) {
        let first = "server   control = "@;
        let second = "server   data    = "@;
        let tail = " (one shared port; the client learns it at connect time)"@;
        let d = text::decimal(data as nat);
        assert(report.0[0] == first + ctrl.text@);
        assert(report.0[1] == second + d + tail);
        assert(report.0[0] =~= first + ctrl.text@ + none);
        text::lemma_mentions(first, ctrl.text@, none, report.0[0]);
        text::lemma_mentions(second, d, tail, report.0[1]);
        if report.1 is None {
            let a = cli::policy_lines("server   allow   = "@, s.allow_ports);
            let f = cli::policy_lines("server   forbid  = "@, s.forbid_ports);
            assert(a.1 is None && f.1 is None);
            if let Some(p) = s.allow_ports {
                assert(report.0[2] == a.0[0]);
            }
            if let Some(p) = s.forbid_ports {
                let k = 2int + a.0.len();
                assert(report.0[k] == f.0[0]);
            }
        }
    }
}

/// The report on one config: a line with its file and its role, then its server
/// section, then its client section, as far as they are there and nothing
/// breaks off.
pub proof fn law_side_lines(path: Seq<char>, cfg: Config, bind: Result<ControlAddr, String>)
    ensures
        ({
            let report = cli::side_lines(path, cfg, bind);
            let server: Lines = match cfg.server {
                Some(s) => cli::server_lines(cfg, s, bind),
                None => (Seq::empty(), None),
            };
            let client: Lines = match cfg.client {
                Some(c) => cli::client_lines(cfg, c),
                None => (Seq::empty(), None),
            };
            &&& report.0.len() >= 1
            &&& text::mentions(report.0[0], path)
            &&& text::mentions(report.0[0], cli::role_of(cfg))
            &&& server.1 is Some ==> report.0.skip(1) == server.0 && report.1 == server.1
            &&& server.1 is None ==> report.0.skip(1) == server.0 + client.0 && report.1
                == client.1
        }),
{
    let report = cli::side_lines(path, cfg, bind);
    let role = cli::role_of(cfg);
    let none = Seq::<char>::empty();
    let head = path + " ("@ + role + "):"@;
    assert(report.0[0] == head);
    let tail = " ("@ + role + "):"@;
    assert(head =~= none + path + tail);
    text::lemma_mentions(none, path, tail, head);
    text::lemma_mentions(path + " ("@, role, "):"@, head);
    let server = cli::server_part(cfg, bind);
    let client = cli::client_part(cfg);
    if server.1 is Some {
        assert(report.0.skip(1) =~= server.0);
    } else {
        assert(report.0.skip(1) =~= server.0 + client.0);
    }
}

/// The role of a config is what its sections say.
pub proof fn law_role(cfg: Config)
    ensures
        cfg.server is Some && cfg.client is Some ==> cli::role_of(cfg) == "server+client"@,
        cfg.server is Some && cfg.client is None ==> cli::role_of(cfg) == "server"@,
        cfg.server is None && cfg.client is Some ==> cli::role_of(cfg) == "client"@,
        cfg.server is None && cfg.client is None ==> cli::role_of(cfg) == "empty"@,
{
}

// ---- a pair ----

/// Two configs are a pair exactly where one of them, and only one, has a server
/// section and the other one has a client section; which comes first does not
/// matter.
pub proof fn law_pair_roles(a_path: Seq<char>, a: Config, b_path: Seq<char>, b: Config)
    ensures
        cli::pair_roles(a_path, a, b_path, b) == Ok::<bool, Seq<char>>(true) <==> a.server is Some
            && b.server is None && b.client is Some,
        cli::pair_roles(a_path, a, b_path, b) == Ok::<bool, Seq<char>>(false) <==> b.server is Some
            && a.server is None && a.client is Some,
        cli::pair_roles(a_path, a, b_path, b) is Ok <==> cli::pair_roles(b_path, b, a_path, a)
            is Ok,
{
}

/// Where two configs are no pair, the complaint shows the file that has no client
/// section, or both files where both or neither have a server section.
pub proof fn law_no_pair(a_path: Seq<char>, a: Config, b_path: Seq<char>, b: Config)
    requires
        cli::pair_roles(a_path, a, b_path, b) is Err,
    ensures
        ({
            let e = cli::pair_roles(a_path, a, b_path, b)->Err_0;
            &&& a.server is Some == b.server is Some ==> text::mentions(e, a_path)
                && text::mentions(e, b_path)
            &&& a.server is Some && b.server is None ==> text::mentions(e, b_path)
            &&& a.server is None && b.server is Some ==> text::mentions(e, a_path)
        }),
{
    let e = cli::pair_roles(a_path, a, b_path, b)->Err_0;
    let head = "pair check needs one [server] and one [client] config ("@;
    if a.server is Some && b.server is Some {
        let t1 = " and "@ + b_path + " have [server])"@;
        assert(e =~= (head + "both "@) + a_path + t1);
        text::lemma_mentions(head + "both "@, a_path, t1, e);
        let h2 = head + "both "@ + a_path + " and "@;
        text::lemma_mentions(h2, b_path, " have [server])"@, e);
    } else if a.server is None && b.server is None {
        let t1 = " nor "@ + b_path + " has [server])"@;
        assert(e =~= (head + "neither "@) + a_path + t1);
        text::lemma_mentions(head + "neither "@, a_path, t1, e);
        let h2 = head + "neither "@ + a_path + " nor "@;
        text::lemma_mentions(h2, b_path, " has [server])"@, e);
    } else if a.server is Some {
        text::lemma_mentions(head, b_path, " has no [client])"@, e);
    } else {
        text::lemma_mentions(head, a_path, " has no [client])"@, e);
    }
}

/// The verdict on a pair shows both files. It is OK, in one line, exactly where
/// there is no problem, and lists every problem otherwise, in order.
pub proof fn law_verdict(server: Seq<char>, client: Seq<char>, problems: Seq<Seq<char>>)
    ensures
        ({
            let lines = cli::verdict_lines(server, client, problems);
            &&& lines.len() == 2 + problems.len()
            &&& lines[0].len() == 0
            &&& text::mentions(lines[1], server)
            &&& text::mentions(lines[1], client)
            &&& problems.len() == 0 ==> text::mentions(lines[1], "setup OK: "@)
            &&& problems.len() > 0 ==> text::mentions(lines[1], "setup MISMATCH between "@)
            &&& forall|i: int|
                0 <= i < problems.len() ==> #[trigger] lines[2 + i] == "  - "@ + problems[i]
        }),
{
    let lines = cli::verdict_lines(server, client, problems);
    let none = Seq::<char>::empty();
    let l = lines[1];
    if problems.len() == 0 {
        let head = "setup OK: "@;
        let tail =
            " (client) agree — secrets match, port policy permits every service, no data-port collision, no duplicate public ports"@;
        let mid = " (server) + "@;
        assert(l == head + server + mid + client + tail);
        assert(l =~= none + head + (server + mid + client + tail));
        text::lemma_mentions(none, head, server + mid + client + tail, l);
        assert(l =~= head + server + (mid + client + tail));
        text::lemma_mentions(head, server, mid + client + tail, l);
        text::lemma_mentions(head + server + mid, client, tail, l);
    } else {
        let head = "setup MISMATCH between "@;
        let tail = " (client):"@;
        let mid = " (server) and "@;
        assert(l == head + server + mid + client + tail);
        assert(l =~= none + head + (server + mid + client + tail));
        text::lemma_mentions(none, head, server + mid + client + tail, l);
        assert(l =~= head + server + (mid + client + tail));
        text::lemma_mentions(head, server, mid + client + tail, l);
        text::lemma_mentions(head + server + mid, client, tail, l);
    }
}

/// The report on a pair: a warning where the server's config has a client section
/// too, the report on the server, an empty line, the report on the client, and
/// the verdict. It breaks off where one of the two reports does, and there is
/// then no verdict.
pub proof fn law_setup_lines(
    s_path: Seq<char>,
    s: Config,
    s_bind: Result<ControlAddr, String>,
    c_path: Seq<char>,
    c: Config,
    c_bind: Result<ControlAddr, String>,
)
    requires
        s.server is Some,
        c.client is Some,
    ensures
        ({
            let report = cli::setup_lines(s_path, s, s_bind, c_path, c, c_bind);
            let one = cli::side_lines(s_path, s, s_bind);
            let two = cli::side_lines(c_path, c, c_bind);
            let verdict = cli::verdict_lines(
                s_path,
                c_path,
                config::pair_problems(s.server->Some_0, c.client->Some_0, c.services@, s_bind),
            );
            let warned: int = if s.client is Some {
                1
            } else {
                0
            };
            &&& report.0.len() >= warned
            &&& s.client is Some ==> text::mentions(report.0[0], s_path)
            &&& one.1 is Some ==> report.0.skip(warned) == one.0 && report.1 == one.1
            &&& one.1 is None && two.1 is Some ==> report.0.skip(warned) == one.0 + seq![
                Seq::<char>::empty(),
            ] + two.0 && report.1 == two.1
            &&& one.1 is None && two.1 is None ==> report.0.skip(warned) == one.0 + seq![
                Seq::<char>::empty(),
            ] + two.0 + verdict && report.1 is None
        }),
{
    let report = cli::setup_lines(s_path, s, s_bind, c_path, c, c_bind);
    let one = cli::side_lines(s_path, s, s_bind);
    let two = cli::side_lines(c_path, c, c_bind);
    let verdict = cli::verdict_lines(
        s_path,
        c_path,
        config::pair_problems(s.server->Some_0, c.client->Some_0, c.services@, s_bind),
    );
    let warning: Lines = if s.client is Some {
        cli::line("warning: "@ + s_path + " also has [client] — ignored for the server side"@)
    } else {
        cli::nothing()
    };
    lemma_report_parts(warning, one, two, verdict, report);
    if s.client is Some {
        let tail = " also has [client] — ignored for the server side"@;
        assert(report.0[0] == warning.0[0]);
        text::lemma_mentions("warning: "@, s_path, tail, report.0[0]);
    }
}

proof fn lemma_report_parts(
    warning: Lines,
    one: Lines,
    two: Lines,
    verdict: Seq<Seq<char>>,
    report: Lines,
)
    requires
        warning.1 is None,
        report == cli::followed_by(
            warning,
            cli::followed_by(
                one,
                cli::followed_by(
                    cli::line(Seq::empty()),
                    cli::followed_by(two, (verdict, None)),
                ),
            ),
        ),
    ensures
        ({
            let warned = warning.0.len() as int;
            let gap = seq![Seq::<char>::empty()];
            &&& report.0.len() >= warned
            &&& report.0.take(warned) == warning.0
            &&& one.1 is Some ==> report.0.skip(warned) == one.0 && report.1 == one.1
            &&& one.1 is None && two.1 is Some ==> report.0.skip(warned) == one.0 + gap + two.0
                && report.1 == two.1
            &&& one.1 is None && two.1 is None ==> report.0.skip(warned) == one.0 + gap + two.0
                + verdict && report.1 is None
        }),
{
    let warned = warning.0.len() as int;
    let gap = seq![Seq::<char>::empty()];
    assert(report.0.take(warned) =~= warning.0);
    if one.1 is Some {
        assert(report.0.skip(warned) =~= one.0);
    } else if two.1 is Some {
        assert(report.0.skip(warned) =~= one.0 + gap + two.0);
    } else {
        assert(report.0.skip(warned) =~= one.0 + gap + two.0 + verdict);
    }
}

/// Without a path, the files that are looked for are these, in this order.
pub proof fn law_default_names()
    ensures
        cli::default_names().len() == 3,
        cli::default_names()[0] == "wormhole.toml"@,
        cli::default_names()[1] == "client.toml"@,
        cli::default_names()[2] == "server.toml"@,
{
}

/// A report stands for its lines, in order, and for the error that it ended with,
/// if it did.
pub proof fn law_outcome(lines: Seq<String>, e: String)
    ensures
        cli::outcome(lines, Ok(())).1 is None,
        cli::outcome(lines, Err(e)).1 == Some(e@),
        cli::outcome(lines, Ok(())).0 == config::texts(lines),
        cli::outcome(lines, Err(e)).0 == config::texts(lines),
{
}

/// A client without services is told in which file they are missing.
pub proof fn law_nothing_to_tunnel(path: Seq<char>)
    ensures
        text::mentions(cli::nothing_to_tunnel(path), path),
{
    let e = cli::nothing_to_tunnel(path);
    let head = "no [services] declared in "@;
    let tail =
        " — the client would connect with nothing to tunnel.\n\nDeclare at least one public->local mapping, e.g.:\n\n[services.web]\nremote = 1401\nlocal = \"127.0.0.1:8080\"\n\n(port ranges are allowed: local = \"127.0.0.1:8080-8090\")"@;
    text::lemma_mentions(head, path, tail, e);
}

} // verus!
