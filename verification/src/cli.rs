//! The command line's decisions: which config file is used, and what `check`,
//! `serve` and `client` say about the configs that were read. Paths are the
//! texts that messages show.
use crate::config::{
    ClientConfig, Config, ControlAddr, MappingView, PortPolicy, ProxySpec, ServerConfig,
};
use crate::config;
use crate::text;
use vstd::prelude::*;

verus! {

// ---- the config file ----

/// The conventional config file names, in the order in which they are tried.
pub open spec fn default_names() -> Seq<Seq<char>> {
    seq!["wormhole.toml"@, "client.toml"@, "server.toml"@]
}

/// The conventional config file name `i`.
pub fn default_name(i: usize) -> (r: &'static str)
    requires
        i < 3,
    ensures
        r@ == default_names()[i as int],
{
    if i == 0 {
        "wormhole.toml"
    } else if i == 1 {
        "client.toml"
    } else {
        "server.toml"
    }
}

/// Resolve the config path: explicit (it has to exist), or the first of the
/// conventional names, of which `present` says which ones exist.
pub fn resolve_config(file: Option<&str>, exists: bool, present: [bool; 3]) -> (r: Result<
    String,
    String,
>)
    ensures
        match file {
            Some(f) => if exists {
                r matches Ok(p) && p@ == f@
            } else {
                r matches Err(e) && e@ == "config not found: "@ + f@
            },
            None => if present@[0] {
                r matches Ok(p) && p@ == default_names()[0]
            } else if present@[1] {
                r matches Ok(p) && p@ == default_names()[1]
            } else if present@[2] {
                r matches Ok(p) && p@ == default_names()[2]
            } else {
                r matches Err(e) && e@
                    == "no config found (pass a path to a server.toml or client.toml)"@
            },
        },
{
    match file {
        Some(f) => if exists {
            Ok(f.to_owned())
        } else {
            Err("config not found: ".to_owned().concat(f))
        },
        None => if present[0] {
            Ok(default_name(0).to_owned())
        } else if present[1] {
            Ok(default_name(1).to_owned())
        } else if present[2] {
            Ok(default_name(2).to_owned())
        } else {
            Err("no config found (pass a path to a server.toml or client.toml)".to_owned())
        },
    }
}

// ---- serve and client ----

/// Can the server start from this config? If so: how many services are ignored
/// (the server is stateless; they belong in the client config).
pub fn serve_ready(cfg: &Config) -> (r: Result<usize, String>)
    ensures
        match r {
            Ok(ignored) => cfg.server is Some && ignored == cfg.services@.len(),
            Err(e) => cfg.server is None && e@ == "config has no [server] section"@,
        },
{
    if cfg.server.is_none() {
        return Err("config has no [server] section".to_owned());
    }
    Ok(cfg.services.len())
}

/// What a client without services is told; `path` is in quotes.
pub open spec fn nothing_to_tunnel(path: Seq<char>) -> Seq<char> {
    "no [services] declared in "@ + path
        + " — the client would connect with nothing to tunnel.\n\nDeclare at least one public->local mapping, e.g.:\n\n[services.web]\nremote = 1401\nlocal = \"127.0.0.1:8080\"\n\n(port ranges are allowed: local = \"127.0.0.1:8080-8090\")"@
}

/// Can the client start from this config, which was read from `path` (in
/// quotes)?
pub fn client_ready(cfg: &Config, path: &str) -> (r: Result<(), String>)
    ensures
        match r {
            Ok(_) => cfg.client is Some && cfg.services@.len() > 0,
            Err(e) => if cfg.client is None {
                e@ == "config has no [client] section"@
            } else {
                cfg.services@.len() == 0 && e@ == nothing_to_tunnel(path@)
            },
        },
{
    if cfg.client.is_none() {
        return Err("config has no [client] section".to_owned());
    }
    if cfg.services.len() == 0 {
        return Err(
            "no [services] declared in ".to_owned().concat(path).concat(
                " — the client would connect with nothing to tunnel.\n\nDeclare at least one public->local mapping, e.g.:\n\n[services.web]\nremote = 1401\nlocal = \"127.0.0.1:8080\"\n\n(port ranges are allowed: local = \"127.0.0.1:8080-8090\")",
            ),
        );
    }
    Ok(())
}

// ---- reports ----

/// Lines to print and, where the report broke off, the error behind them.
pub type Lines = (Seq<Seq<char>>, Option<Seq<char>>);

/// `a`, and `b` behind it unless `a` broke off.
pub open spec fn followed_by(a: Lines, b: Lines) -> Lines {
    if a.1 is Some {
        a
    } else {
        (a.0 + b.0, b.1)
    }
}

/// One line.
pub open spec fn line(s: Seq<char>) -> Lines {
    (seq![s], None)
}

/// No line.
pub open spec fn nothing() -> Lines {
    (Seq::empty(), None)
}

/// An error.
pub open spec fn broken(e: Seq<char>) -> Lines {
    (Seq::empty(), Some(e))
}

/// What was printed and what came of it stand for.
pub open spec fn outcome(lines: Seq<String>, r: Result<(), String>) -> Lines {
    (
        config::texts(lines),
        match r {
            Ok(_) => None,
            Err(e) => Some(e@),
        },
    )
}

/// Ports, separated by commas.
pub open spec fn joined(ports: Seq<u16>) -> Seq<char>
    decreases ports.len(),
{
    if ports.len() == 0 {
        Seq::empty()
    } else if ports.len() == 1 {
        text::decimal(ports[0] as nat)
    } else {
        joined(ports.drop_last()) + ", "@ + text::decimal(ports.last() as nat)
    }
}

/// A list of ports in brackets.
pub open spec fn list_text(ports: Seq<u16>) -> Seq<char> {
    "["@ + joined(ports) + "]"@
}

/// Writes a list of ports in brackets.
pub fn port_list_text(ports: &Vec<u16>) -> (r: String)
    ensures
        r@ == list_text(ports@),
{
    let mut out = String::new();
    let mut i: usize = 0;
    assert(out@ =~= joined(ports@.take(0)));
    while i < ports.len()
        invariant
            i <= ports@.len(),
            out@ == joined(ports@.take(i as int)),
        decreases ports@.len() - i,
    {
        let n = text::number_text(ports[i] as u64);
        assert(ports@.take(i + 1).drop_last() =~= ports@.take(i as int));
        out = if i == 0 {
            n
        } else {
            out.concat(", ").concat(n.as_str())
        };
        i = i + 1;
    }
    assert(ports@.take(i as int) =~= ports@);
    "[".to_owned().concat(out.as_str()).concat("]")
}

/// The line about a list of ports, if there is one.
pub open spec fn policy_lines(label: Seq<char>, policy: Option<PortPolicy>) -> Lines {
    match policy {
        None => nothing(),
        Some(p) => match config::policy_ports(p) {
            Err(e) => broken(e),
            Ok(ports) => line(label + list_text(ports)),
        },
    }
}

/// The lines about the server section.
pub open spec fn server_lines(cfg: Config, s: ServerConfig, bind: Result<ControlAddr, String>) ->
    Lines {
    match config::server_addrs(s, bind) {
        Err(e) => broken(e),
        Ok((ctrl, data)) => followed_by(
            (
                seq![
                    "server   control = "@ + ctrl.text@,
                    "server   data    = "@ + text::decimal(data as nat)
                        + " (one shared port; the client learns it at connect time)"@,
                ],
                None,
            ),
            followed_by(
                policy_lines("server   allow   = "@, s.allow_ports),
                followed_by(
                    policy_lines("server   forbid  = "@, s.forbid_ports),
                    if cfg.services@.len() > 0 {
                        line(
                            "warning: server config has [services] — ignored (server is stateless)"@,
                        )
                    } else {
                        nothing()
                    },
                ),
            ),
        ),
    }
}

/// The line about one mapping.
pub open spec fn mapping_line(name: Seq<char>, m: MappingView) -> Seq<char> {
    "               ["@ + name + "] remote "@ + text::decimal(m.remote as nat) + " -> local "@
        + text::host_port(m.local_host, m.local_port)
}

/// The lines about one service.
pub open spec fn service_lines(name: Seq<char>, sp: ProxySpec) -> Lines {
    match config::expansion(sp) {
        Err(e) => broken(e),
        Ok(ms) => (ms.map_values(|m: MappingView| mapping_line(name, m)), None),
    }
}

/// The lines about the services, up to the first that cannot be expanded.
pub open spec fn services_lines(services: Seq<(String, ProxySpec)>) -> Lines
    decreases services.len(),
{
    if services.len() == 0 {
        nothing()
    } else {
        followed_by(
            services_lines(services.drop_last()),
            service_lines(services.last().0@, services.last().1),
        )
    }
}

/// The lines about the client section.
pub open spec fn client_lines(cfg: Config, c: ClientConfig) -> Lines {
    match config::client_addrs(c) {
        Err(e) => broken(e),
        Ok((host, port, n)) => followed_by(
            (
                seq![
                    "client   server  = "@ + text::host_port(host, port),
                    "client   data    = "@ + text::decimal(n as nat)
                        + " channel(s) on the server's data port"@,
                ],
                None,
            ),
            if cfg.services@.len() == 0 {
                line("warning: client config has no [services.*] — nothing to expose"@)
            } else {
                followed_by(line("client   proxies:"@), services_lines(cfg.services@))
            },
        ),
    }
}

/// The role of a config.
pub open spec fn role_of(cfg: Config) -> Seq<char> {
    if cfg.server is Some && cfg.client is Some {
        "server+client"@
    } else if cfg.server is Some {
        "server"@
    } else if cfg.client is Some {
        "client"@
    } else {
        "empty"@
    }
}

/// The lines about the server section, if there is one.
pub open spec fn server_part(cfg: Config, bind: Result<ControlAddr, String>) -> Lines {
    match cfg.server {
        Some(s) => server_lines(cfg, s, bind),
        None => nothing(),
    }
}

/// The lines about the client section, if there is one.
pub open spec fn client_part(cfg: Config) -> Lines {
    match cfg.client {
        Some(c) => client_lines(cfg, c),
        None => nothing(),
    }
}

/// One config's resolved layout, tagged with its file and role.
pub open spec fn side_lines(path: Seq<char>, cfg: Config, bind: Result<ControlAddr, String>) ->
    Lines {
    followed_by(
        line(path + " ("@ + role_of(cfg) + "):"@),
        followed_by(server_part(cfg, bind), client_part(cfg)),
    )
}

fn push_policy(out: &mut Vec<String>, label: &str, policy: &Option<PortPolicy>) -> (r: Result<
    (),
    String,
>)
    ensures
        outcome(final(out)@, r) == followed_by(
            (config::texts(old(out)@), None),
            policy_lines(label@, *policy),
        ),
{
    let ghost before = config::texts(out@);
    match policy {
        None => {
            assert(before + Seq::<Seq<char>>::empty() =~= before);
            Ok(())
        },
        Some(p) => match p.resolve() {
            Err(e) => {
                assert(before + Seq::<Seq<char>>::empty() =~= before);
                Err(e)
            },
            Ok(ports) => {
                let s = label.to_owned().concat(port_list_text(&ports).as_str());
                proof {
                    config::lemma_texts_push(out@, s);
                }
                out.push(s);
                assert(config::texts(out@) =~= before + seq![label@ + list_text(ports@)]);
                Ok(())
            },
        },
    }
}

fn push_line(out: &mut Vec<String>, s: String)
    ensures
        config::texts(final(out)@) == config::texts(old(out)@) + seq![s@],
{
    proof {
        config::lemma_texts_push(out@, s);
    }
    out.push(s);
    assert(config::texts(out@) =~= config::texts(old(out)@) + seq![s@]);
}

fn push_server(
    out: &mut Vec<String>,
    cfg: &Config,
    s: &ServerConfig,
    bind: &Result<ControlAddr, String>,
) -> (r: Result<(), String>)
    ensures
        outcome(final(out)@, r) == followed_by(
            (config::texts(old(out)@), None),
            server_lines(*cfg, *s, *bind),
        ),
{
    let ghost before = config::texts(out@);
    let (ctrl, data) = match s.resolve(bind) {
        Ok(a) => a,
        Err(e) => {
            assert(before + Seq::<Seq<char>>::empty() =~= before);
            return Err(e);
        },
    };
    push_line(out, "server   control = ".to_owned().concat(ctrl.text.as_str()));
    push_line(
        out,
        "server   data    = ".to_owned().concat(text::number_text(data as u64).as_str()).concat(
            " (one shared port; the client learns it at connect time)",
        ),
    );
    let ghost head = seq![
        "server   control = "@ + ctrl.text@,
        "server   data    = "@ + text::decimal(data as nat)
            + " (one shared port; the client learns it at connect time)"@,
    ];
    assert(config::texts(out@) =~= before + head);
    let ghost allow = policy_lines("server   allow   = "@, s.allow_ports);
    let ghost forbid = policy_lines("server   forbid  = "@, s.forbid_ports);
    match push_policy(out, "server   allow   = ", &s.allow_ports) {
        Ok(_) => {},
        Err(e) => {
            assert(before + head + allow.0 =~= before + (head + allow.0));
            return Err(e);
        },
    }
    match push_policy(out, "server   forbid  = ", &s.forbid_ports) {
        Ok(_) => {},
        Err(e) => {
            assert(before + head + allow.0 + forbid.0 =~= before + (head + (allow.0 + forbid.0)));
            return Err(e);
        },
    }
    let ghost tail = if cfg.services@.len() > 0 {
        line("warning: server config has [services] — ignored (server is stateless)"@)
    } else {
        nothing()
    };
    if cfg.services.len() > 0 {
        push_line(
            out,
            "warning: server config has [services] — ignored (server is stateless)".to_owned(),
        );
    }
    assert(config::texts(out@) =~= before + (head + (allow.0 + (forbid.0 + tail.0))));
    Ok(())
}

fn push_service(out: &mut Vec<String>, name: &str, sp: &ProxySpec) -> (r: Result<(), String>)
    ensures
        outcome(final(out)@, r) == followed_by(
            (config::texts(old(out)@), None),
            service_lines(name@, *sp),
        ),
{
    let ghost before = config::texts(out@);
    let ms = match sp.expand() {
        Ok(ms) => ms,
        Err(e) => {
            assert(before + Seq::<Seq<char>>::empty() =~= before);
            return Err(e);
        },
    };
    let ghost all = service_lines(name@, *sp).0;
    let mut i: usize = 0;
    while i < ms.len()
        invariant
            i <= ms@.len(),
            config::mappings_view(Ok(ms)) == config::expansion(*sp),
            all == service_lines(name@, *sp).0,
            config::texts(out@) =~= before + all.take(i as int),
        decreases ms@.len() - i,
    {
        let m = &ms[i];
        assert(all[i as int] == mapping_line(name@, ms@[i as int]@));
        push_line(
            out,
            "               [".to_owned().concat(name).concat("] remote ").concat(
                text::number_text(m.remote as u64).as_str(),
            ).concat(" -> local ").concat(
                text::host_port_text(m.local_host.as_str(), m.local_port).as_str(),
            ),
        );
        i = i + 1;
    }
    assert(config::texts(out@) =~= before + all);
    Ok(())
}

/// What stands behind a report that broke off is not printed.
proof fn lemma_services_broken(services: Seq<(String, ProxySpec)>, k: int)
    requires
        0 <= k <= services.len(),
        services_lines(services.take(k)).1 is Some,
    ensures
        services_lines(services) == services_lines(services.take(k)),
    decreases services.len() - k,
{
    if k < services.len() {
        assert(services.take(k + 1).drop_last() =~= services.take(k));
        lemma_services_broken(services, k + 1);
    } else {
        assert(services.take(k) =~= services);
    }
}

fn push_services(out: &mut Vec<String>, services: &Vec<(String, ProxySpec)>) -> (r: Result<
    (),
    String,
>)
    ensures
        outcome(final(out)@, r) == followed_by(
            (config::texts(old(out)@), None),
            services_lines(services@),
        ),
{
    let ghost before = config::texts(out@);
    let mut i: usize = 0;
    assert(before =~= before + services_lines(services@.take(0)).0);
    while i < services.len()
        invariant
            i <= services@.len(),
            before == config::texts(old(out)@),
            services_lines(services@.take(i as int)).1 is None,
            config::texts(out@) == before + services_lines(services@.take(i as int)).0,
        decreases services@.len() - i,
    {
        assert(services@.take(i + 1).drop_last() =~= services@.take(i as int));
        let ghost head = services_lines(services@.take(i as int)).0;
        let ghost here = service_lines(services@[i as int].0@, services@[i as int].1);
        let step = push_service(out, services[i].0.as_str(), &services[i].1);
        assert(before + head + here.0 =~= before + (head + here.0));
        match step {
            Ok(_) => {},
            Err(e) => {
                proof {
                    lemma_services_broken(services@, i + 1);
                }
                return Err(e);
            },
        }
        i = i + 1;
    }
    assert(services@.take(i as int) =~= services@);
    Ok(())
}

fn push_client(out: &mut Vec<String>, cfg: &Config, c: &ClientConfig) -> (r: Result<(), String>)
    ensures
        outcome(final(out)@, r) == followed_by(
            (config::texts(old(out)@), None),
            client_lines(*cfg, *c),
        ),
{
    let ghost before = config::texts(out@);
    let (host, port, n) = match c.resolve() {
        Ok(a) => a,
        Err(e) => {
            assert(before + Seq::<Seq<char>>::empty() =~= before);
            return Err(e);
        },
    };
    push_line(
        out,
        "client   server  = ".to_owned().concat(
            text::host_port_text(host.as_str(), port).as_str(),
        ),
    );
    push_line(
        out,
        "client   data    = ".to_owned().concat(text::number_text(n as u64).as_str()).concat(
            " channel(s) on the server's data port",
        ),
    );
    let ghost head = seq![
        "client   server  = "@ + text::host_port(host@, port),
        "client   data    = "@ + text::decimal(n as nat)
            + " channel(s) on the server's data port"@,
    ];
    assert(config::texts(out@) =~= before + head);
    if cfg.services.len() == 0 {
        push_line(
            out,
            "warning: client config has no [services.*] — nothing to expose".to_owned(),
        );
        assert(config::texts(out@) =~= before + (head + seq![
            "warning: client config has no [services.*] — nothing to expose"@,
        ]));
        return Ok(());
    }
    push_line(out, "client   proxies:".to_owned());
    let ghost tail = services_lines(cfg.services@);
    let r = push_services(out, &cfg.services);
    assert(config::texts(out@) =~= before + (head + (seq!["client   proxies:"@] + tail.0)));
    r
}

fn push_side(
    out: &mut Vec<String>,
    path: &str,
    cfg: &Config,
    bind: &Result<ControlAddr, String>,
) -> (r: Result<(), String>)
    ensures
        outcome(final(out)@, r) == followed_by(
            (config::texts(old(out)@), None),
            side_lines(path@, *cfg, *bind),
        ),
{
    let ghost before = config::texts(out@);
    let role = if cfg.server.is_some() && cfg.client.is_some() {
        "server+client"
    } else if cfg.server.is_some() {
        "server"
    } else if cfg.client.is_some() {
        "client"
    } else {
        "empty"
    };
    push_line(out, path.to_owned().concat(" (").concat(role).concat("):"));
    let ghost head = seq![path@ + " ("@ + role@ + "):"@];
    let ghost server = server_part(*cfg, *bind);
    let ghost client = client_part(*cfg);
    if let Some(s) = &cfg.server {
        if let Err(e) = push_server(out, cfg, s, bind) {
            assert(before + head + server.0 =~= before + (head + server.0));
            return Err(e);
        }
    }
    assert(config::texts(out@) =~= before + head + server.0);
    if let Some(c) = &cfg.client {
        if let Err(e) = push_client(out, cfg, c) {
            assert(before + head + server.0 + client.0 =~= before + (head + (server.0
                + client.0)));
            return Err(e);
        }
    }
    assert(config::texts(out@) =~= before + (head + (server.0 + client.0)));
    Ok(())
}

/// One config's resolved layout: the lines to print, and the error on which
/// they broke off.
pub fn print_side(path: &str, cfg: &Config, bind: &Result<ControlAddr, String>) -> (r: (
    Vec<String>,
    Result<(), String>,
))
    ensures
        outcome(r.0@, r.1) == side_lines(path@, *cfg, *bind),
{
    let mut out: Vec<String> = Vec::new();
    let ghost start = config::texts(out@);
    let r = push_side(&mut out, path, cfg, bind);
    assert(start + side_lines(path@, *cfg, *bind).0 =~= side_lines(path@, *cfg, *bind).0);
    (out, r)
}

// ---- a pair of configs ----

/// The verdict on a complete setup.
pub open spec fn verdict_lines(server: Seq<char>, client: Seq<char>, problems: Seq<Seq<char>>) ->
    Seq<Seq<char>> {
    if problems.len() == 0 {
        seq![
            Seq::empty(),
            "setup OK: "@ + server + " (server) + "@ + client
                + " (client) agree — secrets match, port policy permits every service, no data-port collision, no duplicate public ports"@,
        ]
    } else {
        seq![
            Seq::empty(),
            "setup MISMATCH between "@ + server + " (server) and "@ + client + " (client):"@,
        ] + problems.map_values(|p: Seq<char>| "  - "@ + p)
    }
}

/// Verdict on the complete setup: the lines to print, and whether the two
/// configs agree.
pub fn report_pair(server: &str, client: &str, problems: &Vec<String>) -> (r: (Vec<String>, bool))
    ensures
        config::texts(r.0@) == verdict_lines(server@, client@, config::texts(problems@)),
        r.1 == (problems@.len() == 0),
{
    let mut out: Vec<String> = Vec::new();
    push_line(&mut out, String::new());
    if problems.len() == 0 {
        push_line(
            &mut out,
            "setup OK: ".to_owned().concat(server).concat(" (server) + ").concat(client).concat(
                " (client) agree — secrets match, port policy permits every service, no data-port collision, no duplicate public ports",
            ),
        );
        assert(config::texts(out@) =~= verdict_lines(server@, client@, config::texts(problems@)));
        return (out, true);
    }
    push_line(
        &mut out,
        "setup MISMATCH between ".to_owned().concat(server).concat(" (server) and ").concat(
            client,
        ).concat(" (client):"),
    );
    let ghost all = verdict_lines(server@, client@, config::texts(problems@));
    let mut i: usize = 0;
    assert(config::texts(out@) =~= all.take(2));
    while i < problems.len()
        invariant
            i <= problems@.len(),
            problems@.len() > 0,
            all == verdict_lines(server@, client@, config::texts(problems@)),
            config::texts(out@) == all.take(i + 2),
        decreases problems@.len() - i,
    {
        push_line(&mut out, "  - ".to_owned().concat(problems[i].as_str()));
        assert(all[i + 2] == "  - "@ + problems@[i as int]@);
        i = i + 1;
        assert(config::texts(out@) =~= all.take(i + 2));
    }
    assert(all.take(i + 2) =~= all);
    (out, false)
}

/// Which of two configs is the server: the first one, or not; or why they are
/// no pair.
pub open spec fn pair_roles(a_path: Seq<char>, a: Config, b_path: Seq<char>, b: Config) -> Result<
    bool,
    Seq<char>,
> {
    let head = "pair check needs one [server] and one [client] config ("@;
    if a.server is Some && b.server is Some {
        Err(head + "both "@ + a_path + " and "@ + b_path + " have [server])"@)
    } else if a.server is None && b.server is None {
        Err(head + "neither "@ + a_path + " nor "@ + b_path + " has [server])"@)
    } else if a.server is Some {
        if b.client is None {
            Err(head + b_path + " has no [client])"@)
        } else {
            Ok(true)
        }
    } else {
        if a.client is None {
            Err(head + a_path + " has no [client])"@)
        } else {
            Ok(false)
        }
    }
}

/// Which of two configs is the server (either order): the first one, or not.
pub fn roles(a_path: &str, a: &Config, b_path: &str, b: &Config) -> (r: Result<bool, String>)
    ensures
        match r {
            Ok(first) => pair_roles(a_path@, *a, b_path@, *b) == Ok::<bool, Seq<char>>(first),
            Err(e) => pair_roles(a_path@, *a, b_path@, *b) == Err::<bool, Seq<char>>(e@),
        },
{
    let head = "pair check needs one [server] and one [client] config (".to_owned();
    if a.server.is_some() && b.server.is_some() {
        Err(head.concat("both ").concat(a_path).concat(" and ").concat(b_path).concat(" have [server])"))
    } else if a.server.is_none() && b.server.is_none() {
        Err(
            head.concat("neither ").concat(a_path).concat(" nor ").concat(b_path).concat(
                " has [server])",
            ),
        )
    } else if a.server.is_some() {
        if b.client.is_none() {
            Err(head.concat(b_path).concat(" has no [client])"))
        } else {
            Ok(true)
        }
    } else {
        if a.client.is_none() {
            Err(head.concat(a_path).concat(" has no [client])"))
        } else {
            Ok(false)
        }
    }
}

/// The report on a server config and a client config, and whether they agree.
pub open spec fn setup_lines(
    s_path: Seq<char>,
    s: Config,
    s_bind: Result<ControlAddr, String>,
    c_path: Seq<char>,
    c: Config,
    c_bind: Result<ControlAddr, String>,
) -> Lines {
    followed_by(
        if s.client is Some {
            line("warning: "@ + s_path + " also has [client] — ignored for the server side"@)
        } else {
            nothing()
        },
        followed_by(
            side_lines(s_path, s, s_bind),
            followed_by(
                line(Seq::empty()),
                followed_by(
                    side_lines(c_path, c, c_bind),
                    (
                        verdict_lines(
                            s_path,
                            c_path,
                            config::pair_problems(
                                s.server->Some_0,
                                c.client->Some_0,
                                c.services@,
                                s_bind,
                            ),
                        ),
                        None,
                    ),
                ),
            ),
        ),
    )
}

/// The report on a server config and a client config: the lines to print and,
/// unless they broke off, whether the two agree.
pub fn check_setup(
    s_path: &str,
    s: &Config,
    s_bind: &Result<ControlAddr, String>,
    c_path: &str,
    c: &Config,
    c_bind: &Result<ControlAddr, String>,
) -> (r: (Vec<String>, Result<bool, String>))
    requires
        s.server is Some,
        c.client is Some,
    ensures
        setup_lines(s_path@, *s, *s_bind, c_path@, *c, *c_bind) == (
            config::texts(r.0@),
            match r.1 {
                Ok(_) => None::<Seq<char>>,
                Err(e) => Some(e@),
            },
        ),
        r.1 matches Ok(agree) ==> agree == (config::pair_problems(
            s.server->Some_0,
            c.client->Some_0,
            c.services@,
            *s_bind,
        ).len() == 0),
{
    let ghost warning = if s.client is Some {
        line("warning: "@ + s_path@ + " also has [client] — ignored for the server side"@)
    } else {
        nothing()
    };
    let ghost first = side_lines(s_path@, *s, *s_bind);
    let ghost second = side_lines(c_path@, *c, *c_bind);
    let mut out: Vec<String> = Vec::new();
    if s.client.is_some() {
        push_line(
            &mut out,
            "warning: ".to_owned().concat(s_path).concat(
                " also has [client] — ignored for the server side",
            ),
        );
    }
    assert(config::texts(out@) =~= warning.0);
    match push_side(&mut out, s_path, s, s_bind) {
        Ok(_) => {},
        Err(e) => return (out, Err(e)),
    }
    push_line(&mut out, String::new());
    let ghost gap = seq![Seq::<char>::empty()];
    assert(config::texts(out@) =~= warning.0 + first.0 + gap);
    match push_side(&mut out, c_path, c, c_bind) {
        Ok(_) => {},
        Err(e) => {
            assert(warning.0 + first.0 + gap + second.0 =~= warning.0 + (first.0 + (gap
                + second.0)));
            return (out, Err(e));
        },
    }
    let problems = match (&s.server, &c.client) {
        (Some(server), Some(client)) => config::validate_pair(server, client, &c.services, s_bind),
        _ => Vec::new(),
    };
    let (mut verdict, agree) = report_pair(s_path, c_path, &problems);
    let ghost last = config::texts(verdict@);
    let ghost before = out@;
    let ghost added = verdict@;
    out.append(&mut verdict);
    assert(out@ =~= before + added);
    assert(config::texts(out@) =~= config::texts(before) + config::texts(added));
    assert(config::texts(out@) =~= warning.0 + (first.0 + (gap + (second.0 + last))));
    (out, Ok(agree))
}

} // verus!
