//! Unit tests for config parsing, proxy expansion, port policy, and the
//! server/client cross-validation.

use wormhole::config::{
    self, validate_pair, ClientConfig, Config, ControlAddr, LocalItem, LocalSpec, PortItem,
    PortMapping, PortPolicy, ProxySpec, ServerConfig,
};

fn spec(remote: PortPolicy) -> ProxySpec {
    ProxySpec {
        remote,
        local: None,
    }
}

fn srv(data_port: Option<u16>) -> ServerConfig {
    ServerConfig {
        bind: "0.0.0.0:1400".into(),
        secret: "s".into(),
        data_port,
        allow_ports: None,
        forbid_ports: None,
    }
}

fn cli(channels: Option<u8>) -> ClientConfig {
    ClientConfig {
        server: "127.0.0.1:1400".into(),
        secret: "s".into(),
        channels,
    }
}

/// What "0.0.0.0:1400" is read as.
fn bind() -> Result<ControlAddr, String> {
    Ok(ControlAddr {
        text: "0.0.0.0:1400".into(),
        port: 1400,
    })
}

fn mapping(remote: u16, local_host: &str, local_port: u16) -> PortMapping {
    PortMapping {
        remote,
        local_host: local_host.into(),
        local_port,
    }
}

#[test]
fn expand_single_defaults_to_localhost_remote() {
    let m = spec(PortPolicy::Num(1401)).expand().unwrap();
    assert_eq!(
        m,
        vec![PortMapping {
            remote: 1401,
            local_host: "127.0.0.1".into(),
            local_port: 1401,
        }]
    );
}

#[test]
fn expand_range_maps_positionally() {
    let m = spec(PortPolicy::Str("1402-1404".into())).expand().unwrap();
    assert_eq!(
        m,
        vec![
            PortMapping {
                remote: 1402,
                local_host: "127.0.0.1".into(),
                local_port: 1402
            },
            PortMapping {
                remote: 1403,
                local_host: "127.0.0.1".into(),
                local_port: 1403
            },
            PortMapping {
                remote: 1404,
                local_host: "127.0.0.1".into(),
                local_port: 1404
            }
        ]
    );
}

#[test]
fn expand_explicit_local_override() {
    let sp = ProxySpec {
        remote: PortPolicy::Num(1500),
        local: Some(LocalSpec::Str("10.0.0.5:5432".into())),
    };
    let m = sp.expand().unwrap();
    assert_eq!(
        m,
        vec![PortMapping {
            remote: 1500,
            local_host: "10.0.0.5".into(),
            local_port: 5432
        }]
    );
}

#[test]
fn expand_bare_local_port_defaults_to_localhost() {
    let sp = ProxySpec {
        remote: PortPolicy::Num(1500),
        local: Some(LocalSpec::Num(5432)),
    };
    let m = sp.expand().unwrap();
    assert_eq!(m[0].local_host, "127.0.0.1");
    assert_eq!(m[0].local_port, 5432);
}

#[test]
fn expand_mismatched_lengths_is_error() {
    let sp = ProxySpec {
        remote: PortPolicy::Str("1402-1403".into()), // 2 remotes
        local: Some(LocalSpec::Num(5432)),           // 1 local
    };
    let e = sp.expand().unwrap_err();
    assert!(e.contains("must map positionally"), "got: {e}");
}

/// F6: overlong hosts/names are rejected (protocol stores them in a u8 length).
#[test]
fn expand_rejects_overlong_host() {
    let sp = ProxySpec {
        remote: PortPolicy::Num(1401),
        local: Some(LocalSpec::Str(format!("{}:1401", "b".repeat(300)))),
    };
    let e = sp.expand().unwrap_err();
    assert!(e.contains("protocol limit is 255"), "got: {e}");
}

#[test]
fn port_policy_forbid() {
    let mut s = srv(None);
    s.forbid_ports = Some(PortPolicy::Vec(vec![PortItem::Num(22), PortItem::Num(3306)]));
    assert!(!s.port_allowed(22));
    assert!(!s.port_allowed(3306));
    assert!(s.port_allowed(2222));
}

#[test]
fn port_policy_allow() {
    let mut s = srv(None);
    s.allow_ports = Some(PortPolicy::Str("1401-1402".into()));
    assert!(s.port_allowed(1401));
    assert!(s.port_allowed(1402));
    assert!(!s.port_allowed(1500));
}

#[test]
fn port_policy_forbid_beats_allow() {
    let mut s = srv(None);
    s.allow_ports = Some(PortPolicy::Vec(vec![PortItem::Num(1401), PortItem::Num(1402)]));
    s.forbid_ports = Some(PortPolicy::Num(1401));
    assert!(!s.port_allowed(1401)); // forbidden
    assert!(s.port_allowed(1402)); // allowed
    assert!(!s.port_allowed(1500)); // not in allow
}

#[test]
fn port_policy_mixed_list_parses_frp_style() {
    // frp-style allow_ports: a list mixing bare ports and "a-b" ranges.
    let t = PortPolicy::Vec(vec![PortItem::Num(2222), PortItem::Str("1500-1503".into())]);
    assert_eq!(
        t.resolve().unwrap(),
        vec![2222, 1500, 1501, 1502, 1503]
    );
}

#[test]
fn data_port_default_and_explicit() {
    // default: control port + 1
    let (_, p) = srv(None).resolve(&bind()).unwrap();
    assert_eq!(p, 1401);
    // explicit
    let (_, p) = srv(Some(1500)).resolve(&bind()).unwrap();
    assert_eq!(p, 1500);
    // must differ from the control port
    assert!(srv(Some(1400)).resolve(&bind()).is_err());
    // zero is invalid
    assert!(srv(Some(0)).resolve(&bind()).is_err());
}

#[test]
fn client_channels_validation() {
    let ok = ClientConfig {
        server: "127.0.0.1:1400".into(),
        secret: "s".into(),
        channels: Some(16),
    };
    assert_eq!(ok.resolve().unwrap().2, 16);
    let def = ClientConfig {
        server: "127.0.0.1:1400".into(),
        secret: "s".into(),
        channels: None,
    };
    assert_eq!(def.resolve().unwrap().2, 8); // default
    let zero = ClientConfig {
        server: "127.0.0.1:1400".into(),
        secret: "s".into(),
        channels: Some(0),
    };
    assert!(zero.resolve().is_err());
    let too_many = ClientConfig {
        server: "127.0.0.1:1400".into(),
        secret: "s".into(),
        channels: Some(65),
    };
    assert!(too_many.resolve().is_err());
}

#[test]
fn validate_pair_agrees() {
    let s = srv(Some(1500));
    let c = ClientConfig {
        server: "127.0.0.1:1400".into(),
        secret: "s".into(),
        channels: Some(2),
    };
    let svcs = vec![("rs".to_string(), spec(PortPolicy::Num(1401)))];
    assert!(validate_pair(&s, &c, &svcs, &bind()).is_empty());
}

#[test]
fn validate_pair_detects_secret_mismatch() {
    let s = srv(None);
    let c = ClientConfig {
        server: "127.0.0.1:1400".into(),
        secret: "OTHER".into(),
        channels: None,
    };
    let svcs = vec![("rs".to_string(), spec(PortPolicy::Num(1500)))];
    let problems = validate_pair(&s, &c, &svcs, &bind());
    assert!(
        problems.iter().any(|p| p.contains("secret")),
        "got: {problems:?}"
    );
}

#[test]
fn validate_pair_detects_policy_denied_port() {
    let mut s = srv(None);
    s.allow_ports = Some(PortPolicy::Vec(vec![PortItem::Num(1500)]));
    let c = ClientConfig {
        server: "127.0.0.1:1400".into(),
        secret: "s".into(),
        channels: None,
    };
    let svcs = vec![("bad".to_string(), spec(PortPolicy::Num(9999)))]; // not in allow
    let problems = validate_pair(&s, &c, &svcs, &bind());
    assert!(
        problems.iter().any(|p| p.contains("9999")),
        "got: {problems:?}"
    );
}

#[test]
fn validate_pair_flags_data_port_collision_and_duplicates() {
    let s = srv(Some(1500)); // data port 1500
    let c = ClientConfig {
        server: "127.0.0.1:1400".into(),
        secret: "s".into(),
        channels: None,
    };
    let svcs = vec![
        ("bad".to_string(), spec(PortPolicy::Num(1500))), // collides with data
        ("a".to_string(), spec(PortPolicy::Num(1401))),
        ("b".to_string(), spec(PortPolicy::Num(1401))), // duplicate of a
    ];
    let problems = validate_pair(&s, &c, &svcs, &bind());
    assert!(
        problems.iter().any(|p| p.contains("collides")),
        "should flag the data-port collision; got: {problems:?}"
    );
    assert!(
        problems.iter().any(|p| p.contains("1401")),
        "should flag the duplicate public port; got: {problems:?}"
    );
}

#[test]
fn validate_pair_messages() {
    let mut s = srv(Some(1500));
    s.secret = "x".into();
    s.forbid_ports = Some(PortPolicy::Num(22));
    let svcs = vec![
        ("ssh".to_string(), spec(PortPolicy::Num(22))),
        ("data".to_string(), spec(PortPolicy::Num(1500))),
        ("two".to_string(), spec(PortPolicy::Vec(vec![PortItem::Num(80), PortItem::Num(80)]))),
        ("web".to_string(), spec(PortPolicy::Num(80))),
    ];
    assert_eq!(
        validate_pair(&s, &cli(None), &svcs, &bind()),
        vec![
            "secrets differ between the two configs",
            "service ssh: public port 22 not permitted by the server's allow/forbid policy",
            "service data: public port 1500 collides with the server's data port",
            "services two and two both use public port 80",
            "services two and web both use public port 80",
        ]
    );
}

/// A service that cannot be expanded is left to `validate`.
#[test]
fn validate_pair_skips_broken_services() {
    let svcs = vec![("x".to_string(), spec(PortPolicy::Str("9-1".into())))];
    assert!(validate_pair(&srv(None), &cli(None), &svcs, &bind()).is_empty());
    // without a control address there is no data port to collide with
    let svcs = vec![("x".to_string(), spec(PortPolicy::Num(1401)))];
    assert!(validate_pair(&srv(None), &cli(None), &svcs, &Err("bad".into())).is_empty());
    assert_eq!(validate_pair(&srv(None), &cli(None), &svcs, &bind()).len(), 1);
}

fn file(services: Vec<(String, ProxySpec)>) -> Config {
    Config {
        server: None,
        client: Some(cli(Some(2))),
        services,
    }
}

/// A valid client config passes, and an overlong service name is rejected.
#[test]
fn validate_client_config_and_reject_long_name() {
    let cfg = file(vec![("rs".to_string(), spec(PortPolicy::Num(1401)))]);
    assert_eq!(cfg.validate(&bind()), Ok(()));

    let cfg = file(vec![("a".repeat(300), spec(PortPolicy::Num(1401)))]);
    let e = cfg.validate(&bind()).unwrap_err();
    assert!(e.contains("protocol limit is 255"), "got: {e}");
    assert_eq!(
        e,
        format!("service \"{}\": name is 300 bytes; the protocol limit is 255", "a".repeat(300))
    );
    let cfg = file(vec![("a".repeat(255), spec(PortPolicy::Num(1401)))]);
    assert_eq!(cfg.validate(&bind()), Ok(()));
}

#[test]
fn validate_names_the_side() {
    let broken = || vec![("x".to_string(), spec(PortPolicy::Str("9-1".into())))];
    assert_eq!(
        file(broken()).validate(&bind()),
        Err("client service x: range 9-1 is inverted".to_string())
    );
    let mut cfg = file(broken());
    cfg.server = Some(srv(None));
    assert_eq!(
        cfg.validate(&bind()),
        Err("server service x: range 9-1 is inverted".to_string())
    );
    let mut cfg = file(vec![]);
    cfg.server = Some(srv(Some(0)));
    assert_eq!(
        cfg.validate(&bind()),
        Err("server: server.data_port must be >= 1".to_string())
    );
    let mut cfg = file(vec![]);
    cfg.client = Some(cli(Some(0)));
    assert_eq!(
        cfg.validate(&bind()),
        Err("client: client.channels must be >= 1".to_string())
    );
}

#[test]
fn server_resolve_errors() {
    assert_eq!(
        srv(None).resolve(&Err("invalid socket address syntax".into())).unwrap_err(),
        "bad server.bind \"0.0.0.0:1400\": invalid socket address syntax"
    );
    assert_eq!(
        srv(Some(1400)).resolve(&bind()).unwrap_err(),
        "server.data_port 1400 must differ from the control port"
    );
    let top = Ok(ControlAddr { text: "0.0.0.0:65535".into(), port: 65535 });
    assert_eq!(
        srv(None).resolve(&top).unwrap_err(),
        "control port is 65535; set server.data_port explicitly"
    );
    let (ctrl, data) = srv(Some(1)).resolve(&top).unwrap();
    assert_eq!((ctrl.text.as_str(), ctrl.port, data), ("0.0.0.0:65535", 65535, 1));
}

#[test]
fn client_resolve_errors() {
    let with = |server: &str| {
        ClientConfig { server: server.into(), secret: "s".into(), channels: None }.resolve()
    };
    assert_eq!(with(" example.com : 1400 "), Ok(("example.com".to_string(), 1400, 8)));
    assert_eq!(with("::1:1400"), Ok(("::1".to_string(), 1400, 8)));
    assert_eq!(
        with("example.com").unwrap_err(),
        "bad client.server \"example.com\": expected host:port, got \"example.com\""
    );
    assert_eq!(with(" :1400").unwrap_err(), "bad client.server \" :1400\": empty host");
    assert_eq!(
        with("h:").unwrap_err(),
        "bad client.server \"h:\": bad port \"\": cannot parse integer from empty string"
    );
    assert_eq!(
        cli(Some(65)).resolve().unwrap_err(),
        "client.channels 65 exceeds the maximum 64"
    );
    assert_eq!(cli(Some(64)).resolve().unwrap().2, 64);
}

#[test]
fn port_texts() {
    let ports = |s: &str| config::parse_port_range(s);
    assert_eq!(ports(" 80 "), Ok(vec![80]));
    assert_eq!(ports("+80"), Ok(vec![80]));
    assert_eq!(ports("0080"), Ok(vec![80]));
    assert_eq!(ports("7 - 9"), Ok(vec![7, 8, 9]));
    assert_eq!(ports("65535-65535"), Ok(vec![65535]));
    assert_eq!(ports("\u{2003}1\u{3000}"), Ok(vec![1]));
    assert_eq!(ports("9-7").unwrap_err(), "range 9-7 is inverted");
    assert_eq!(ports("x").unwrap_err(), "bad port \"x\": invalid digit found in string");
    assert_eq!(
        ports("65536").unwrap_err(),
        "bad port \"65536\": number too large to fit in target type"
    );
    assert_eq!(
        ports("1- ").unwrap_err(),
        "bad port \"\": cannot parse integer from empty string"
    );
    assert_eq!(
        ports("1 2-3").unwrap_err(),
        "bad port \"1 2\": invalid digit found in string"
    );
    assert_eq!(ports("1-2-3").unwrap_err(), "bad port \"2-3\": invalid digit found in string");
}

#[test]
fn port_policy_lists() {
    assert_eq!(PortPolicy::Vec(vec![]).resolve().unwrap_err(), "empty port list");
    let bad = PortPolicy::Vec(vec![
        PortItem::Num(1),
        PortItem::Str("2-1".into()),
        PortItem::Str("x".into()),
    ]);
    assert_eq!(bad.resolve().unwrap_err(), "range 2-1 is inverted");
}

/// What cannot be read names no port: it allows none and forbids none.
#[test]
fn port_policy_unreadable() {
    // only the ports of `allow_ports`: none, where it is empty or unreadable
    let mut s = srv(None);
    s.allow_ports = Some(PortPolicy::Vec(vec![]));
    assert!(!s.port_allowed(80));
    s.allow_ports = Some(PortPolicy::Str("x".into()));
    assert!(!s.port_allowed(80));
    s.allow_ports = Some(PortPolicy::Vec(vec![PortItem::Num(80), PortItem::Str("x".into())]));
    assert!(!s.port_allowed(80));
    // never a port that `forbid_ports` names
    let mut s = srv(None);
    s.forbid_ports = Some(PortPolicy::Vec(vec![]));
    assert!(s.port_allowed(80));
    s.forbid_ports = Some(PortPolicy::Str("2-1".into()));
    assert!(s.port_allowed(80));
    s.forbid_ports = Some(PortPolicy::Vec(vec![PortItem::Num(22), PortItem::Str("2-1".into())]));
    assert!(!s.port_allowed(22));
    assert!(s.port_allowed(80));
    s.forbid_ports = Some(PortPolicy::Vec(vec![PortItem::Num(22), PortItem::Str("90-91".into())]));
    assert!(!s.port_allowed(22));
    assert!(!s.port_allowed(91));
    assert!(s.port_allowed(80));
    let policy = PortPolicy::Str("90-91".into());
    assert!(policy.forbids(90) && !policy.forbids(92));
}

#[test]
fn local_texts() {
    let local = |s: &str| LocalSpec::Str(s.into()).resolve("dflt");
    let one = |h: &str, p: u16| Ok(vec![(h.to_string(), p)]);
    assert_eq!(local("80"), one("dflt", 80));
    assert_eq!(local(" h : 80 "), one("h", 80));
    assert_eq!(local("my-host:80"), one("my-host", 80));
    assert_eq!(
        local("1-2"),
        Ok(vec![("dflt".to_string(), 1), ("dflt".to_string(), 2)])
    );
    assert_eq!(
        local("127.0.0.1:8080-8081"),
        Ok(vec![("127.0.0.1".to_string(), 8080), ("127.0.0.1".to_string(), 8081)])
    );
    assert_eq!(local(" :80").unwrap_err(), "empty host in local addr");
    assert_eq!(local(":1-2").unwrap_err(), "empty host in local addr");
    assert_eq!(
        local("x").unwrap_err(),
        "bad local port \"x\": invalid digit found in string"
    );
    assert_eq!(
        local("h:x").unwrap_err(),
        "bad port \"x\": invalid digit found in string"
    );
}

#[test]
fn local_lists() {
    let list = LocalSpec::Vec(vec![LocalItem::Num(1), LocalItem::Str("h:2".into())]);
    assert_eq!(
        list.resolve("d"),
        Ok(vec![("d".to_string(), 1), ("h".to_string(), 2)])
    );
    assert_eq!(LocalSpec::Vec(vec![]).resolve("d").unwrap_err(), "empty local list");
    let bad = LocalSpec::Vec(vec![LocalItem::Str("1-2".into()), LocalItem::Str(":1".into())]);
    assert_eq!(
        bad.resolve("d").unwrap_err(),
        "bad local port \"1-2\": invalid digit found in string"
    );
}

#[test]
fn expand_pairs_by_position() {
    let sp = ProxySpec {
        remote: PortPolicy::Vec(vec![PortItem::Num(9), PortItem::Str("3-4".into())]),
        local: Some(LocalSpec::Vec(vec![
            LocalItem::Str("a:1".into()),
            LocalItem::Num(2),
            LocalItem::Str("b:3".into()),
        ])),
    };
    assert_eq!(
        sp.expand(),
        Ok(vec![mapping(9, "a", 1), mapping(3, "127.0.0.1", 2), mapping(4, "b", 3)])
    );
    let sp = ProxySpec {
        remote: PortPolicy::Str("1-3".into()),
        local: Some(LocalSpec::Str("h:7-8".into())),
    };
    assert_eq!(
        sp.expand().unwrap_err(),
        "`remote` has 3 port(s) but `local` has 2 — they must map positionally (or omit `local`)"
    );
    let host = "é".repeat(128);
    let sp = ProxySpec {
        remote: PortPolicy::Num(1),
        local: Some(LocalSpec::Str(format!("{host}:1"))),
    };
    assert_eq!(
        sp.expand().unwrap_err(),
        format!("local host \"{host}\" is 256 bytes; the protocol limit is 255")
    );
}
