//! Unit tests for what the command line says about configs.

use wormhole::cli;
use wormhole::config::{
    ClientConfig, Config, ControlAddr, PortItem, PortPolicy, ProxySpec, ServerConfig,
};

fn bind() -> Result<ControlAddr, String> {
    Ok(ControlAddr { text: "0.0.0.0:1400".into(), port: 1400 })
}

fn server() -> Config {
    Config {
        server: Some(ServerConfig {
            bind: "0.0.0.0:1400".into(),
            secret: "s".into(),
            data_port: None,
            allow_ports: Some(PortPolicy::Vec(vec![
                PortItem::Num(80),
                PortItem::Str("90-91".into()),
            ])),
            forbid_ports: None,
        }),
        client: None,
        services: vec![],
    }
}

fn client(remote: u16) -> Config {
    Config {
        server: None,
        client: Some(ClientConfig {
            server: "example.com:1400".into(),
            secret: "s".into(),
            channels: None,
        }),
        services: vec![(
            "web".to_string(),
            ProxySpec { remote: PortPolicy::Num(remote), local: None },
        )],
    }
}

#[test]
fn the_config_file_is_chosen() {
    assert_eq!(cli::resolve_config(Some("x.toml"), true, [true; 3]), Ok("x.toml".to_string()));
    assert_eq!(
        cli::resolve_config(Some("x.toml"), false, [true; 3]),
        Err("config not found: x.toml".to_string())
    );
    let first = |p| cli::resolve_config(None, false, p);
    assert_eq!(first([true, true, true]), Ok("wormhole.toml".to_string()));
    assert_eq!(first([false, true, true]), Ok("client.toml".to_string()));
    assert_eq!(first([false, false, true]), Ok("server.toml".to_string()));
    assert_eq!(
        first([false; 3]),
        Err("no config found (pass a path to a server.toml or client.toml)".to_string())
    );
    assert_eq!(cli::default_name(2), "server.toml");
}

#[test]
fn serving_needs_a_server_section() {
    assert_eq!(cli::serve_ready(&server()), Ok(0));
    assert_eq!(
        cli::serve_ready(&client(1)),
        Err("config has no [server] section".to_string())
    );
    let mut both = client(1);
    both.server = server().server;
    assert_eq!(cli::serve_ready(&both), Ok(1));
}

#[test]
fn the_client_needs_services() {
    assert_eq!(cli::client_ready(&client(1), "\"c.toml\""), Ok(()));
    assert_eq!(
        cli::client_ready(&server(), "\"c.toml\""),
        Err("config has no [client] section".to_string())
    );
    let mut empty = client(1);
    empty.services = vec![];
    let e = cli::client_ready(&empty, "\"c.toml\"").unwrap_err();
    assert!(e.starts_with("no [services] declared in \"c.toml\" — the client would connect"));
    assert!(e.ends_with("(port ranges are allowed: local = \"127.0.0.1:8080-8090\")"));
}

#[test]
fn a_server_config_is_shown() {
    let (lines, r) = cli::print_side("s.toml", &server(), &bind());
    assert_eq!(r, Ok(()));
    assert_eq!(
        lines,
        vec![
            "s.toml (server):",
            "server   control = 0.0.0.0:1400",
            "server   data    = 1401 (one shared port; the client learns it at connect time)",
            "server   allow   = [80, 90, 91]",
        ]
    );
    let mut cfg = server();
    cfg.services = client(1).services;
    if let Some(s) = &mut cfg.server {
        s.allow_ports = None;
        s.forbid_ports = Some(PortPolicy::Num(22));
    }
    let (lines, r) = cli::print_side("s.toml", &cfg, &bind());
    assert_eq!(r, Ok(()));
    assert_eq!(lines[3], "server   forbid  = [22]");
    assert_eq!(
        lines[4],
        "warning: server config has [services] — ignored (server is stateless)"
    );
}

#[test]
fn a_client_config_is_shown() {
    let (lines, r) = cli::print_side("c.toml", &client(80), &bind());
    assert_eq!(r, Ok(()));
    assert_eq!(
        lines,
        vec![
            "c.toml (client):",
            "client   server  = example.com:1400",
            "client   data    = 8 channel(s) on the server's data port",
            "client   proxies:",
            "               [web] remote 80 -> local 127.0.0.1:80",
        ]
    );
    let mut cfg = client(80);
    cfg.services = vec![];
    let (lines, _) = cli::print_side("c.toml", &cfg, &bind());
    assert_eq!(
        lines[3],
        "warning: client config has no [services.*] — nothing to expose"
    );
    cfg.client = None;
    let (lines, r) = cli::print_side("e.toml", &cfg, &bind());
    assert_eq!((lines, r), (vec!["e.toml (empty):".to_string()], Ok(())));
}

/// What was printed before an error stays printed.
#[test]
fn a_report_breaks_off_at_the_first_error() {
    let mut cfg = server();
    if let Some(s) = &mut cfg.server {
        s.allow_ports = Some(PortPolicy::Str("2-1".into()));
    }
    let (lines, r) = cli::print_side("s.toml", &cfg, &bind());
    assert_eq!(lines.len(), 3);
    assert_eq!(r, Err("range 2-1 is inverted".to_string()));
    let (lines, r) = cli::print_side("s.toml", &server(), &Err("bad".into()));
    assert_eq!(lines.len(), 1);
    assert_eq!(r, Err("bad server.bind \"0.0.0.0:1400\": bad".to_string()));
}

#[test]
fn a_pair_needs_one_of_each() {
    let head = "pair check needs one [server] and one [client] config (";
    assert_eq!(cli::roles("a", &server(), "b", &client(1)), Ok(true));
    assert_eq!(cli::roles("a", &client(1), "b", &server()), Ok(false));
    assert_eq!(
        cli::roles("a", &server(), "b", &server()),
        Err(format!("{head}both a and b have [server])"))
    );
    assert_eq!(
        cli::roles("a", &client(1), "b", &client(1)),
        Err(format!("{head}neither a nor b has [server])"))
    );
    let mut empty = client(1);
    empty.client = None;
    assert_eq!(
        cli::roles("a", &server(), "b", &empty),
        Err(format!("{head}b has no [client])"))
    );
    assert_eq!(
        cli::roles("a", &empty, "b", &server()),
        Err(format!("{head}a has no [client])"))
    );
}

#[test]
fn a_setup_is_judged() {
    let (lines, r) =
        cli::check_setup("s.toml", &server(), &bind(), "c.toml", &client(80), &bind());
    assert_eq!(r, Ok(true));
    assert_eq!(lines.len(), 4 + 1 + 5 + 2);
    assert_eq!(lines[4], "");
    assert_eq!(lines[5], "c.toml (client):");
    assert_eq!(
        lines[11],
        "setup OK: s.toml (server) + c.toml (client) agree — secrets match, port policy permits every service, no data-port collision, no duplicate public ports"
    );
    let (lines, r) =
        cli::check_setup("s.toml", &server(), &bind(), "c.toml", &client(81), &bind());
    assert_eq!(r, Ok(false));
    assert_eq!(lines[11], "setup MISMATCH between s.toml (server) and c.toml (client):");
    assert_eq!(
        lines[12],
        "  - service web: public port 81 not permitted by the server's allow/forbid policy"
    );
    assert_eq!(lines.len(), 13);
    let mut s = server();
    s.client = client(1).client;
    let (lines, _) = cli::check_setup("s.toml", &s, &bind(), "c.toml", &client(80), &bind());
    assert_eq!(
        lines[0],
        "warning: s.toml also has [client] — ignored for the server side"
    );
    assert_eq!(lines[1], "s.toml (server+client):");
    let (_, r) = cli::check_setup(
        "s.toml",
        &server(),
        &Err("bad".into()),
        "c.toml",
        &client(80),
        &bind(),
    );
    assert!(r.is_err());
}

#[test]
fn the_verdict_lists_the_problems() {
    let (lines, agree) = cli::report_pair("s", "c", &vec!["one".to_string(), "two".to_string()]);
    assert!(!agree);
    assert_eq!(
        lines,
        vec!["", "setup MISMATCH between s (server) and c (client):", "  - one", "  - two"]
    );
    assert!(cli::report_pair("s", "c", &vec![]).1);
    assert_eq!(cli::port_list_text(&vec![]), "[]");
}
