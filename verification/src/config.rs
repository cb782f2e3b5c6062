//! Config model, expansion and validation.
//!
//! A config file has a `[server]` OR `[client]` section.
//!
//! **frp-style model (stateless server):** the server is a generic forwarder —
//! it binds its control + data-channel ports at startup and otherwise knows
//! nothing about the services. The *client* declares the proxies it wants
//! exposed via top-level `[services.NAME]` entries; each maps a **public**
//! port (`remote`, the one the server binds on demand) to a **local** address
//! (`local`, the one the client connects to). At connect time the client sends
//! this list to the server (`PROXIES`); the server binds the public ports
//! subject to its `allow_ports` / `forbid_ports` policy and tears them down
//! when the client disconnects.
//!
//! ```toml
//! # server.toml
//! [server]
//! bind = "0.0.0.0:1400"
//! secret = "..."
//! # data_port = 1405               # the ONE port all data channels attach to
//!                                   # (default: control port + 1; advertised to
//!                                   # the client at connect time)
//! # allow_ports = [1401, "1402-1404"]   # only these public ports may be exposed
//! # forbid_ports = [22, 3306]           # never these
//!
//! # client.toml
//! [client]
//! server = "public.example.com:1400"
//! secret = "..."
//! # channels = 8                   # parallel data channels (default 8, 1..64)
//!
//! [services.rs]
//! remote = 1401                # public port to expose (required)
//! local  = 1401                # local addr to connect (default: remote on 127.0.0.1)
//!
//! [services.scan]
//! remote = "1402-1404"         # a range -> 3 public ports
//! # local defaults to "1402-1404" on 127.0.0.1 (positionally)
//! ```
use crate::text;
use std::collections::HashMap;
use vstd::prelude::*;
use vstd::utf8::*;

verus! {

/// Default number of parallel data channels when not specified.
pub const DEFAULT_DATA_CHANNELS: u8 = 8;

/// Max data channels (the CHIDX payload is one byte; one `id % n` slot each).
pub const MAX_DATA_CHANNELS: u8 = 64;

/// A config file. The services stand in the order in which their table was
/// walked, each name once.
#[derive(Debug)]
pub struct Config {
    pub server: Option<ServerConfig>,
    pub client: Option<ClientConfig>,
    /// client-declared proxies. Ignored by the server (stateless); the client
    /// sends these to the server at connect time.
    pub services: Vec<(String, ProxySpec)>,
}

/// SERVER side: control listener + secret + shared data port + public-port policy.
#[derive(Debug, Clone)]
pub struct ServerConfig {
    /// control listener the client dials, e.g. "0.0.0.0:1400"
    pub bind: String,
    /// shared secret (its sha256 is exchanged; the raw secret never crosses the wire)
    pub secret: String,
    /// the single port all data channels attach to (default: control port + 1).
    /// Advertised to the client in PROXYACK — the client never has to set it.
    pub data_port: Option<u16>,
    /// if set, ONLY these public ports may be exposed by a client.
    pub allow_ports: Option<PortPolicy>,
    /// if set, these public ports may never be exposed by a client.
    pub forbid_ports: Option<PortPolicy>,
}

/// CLIENT side: server address + secret + channel count.
#[derive(Debug, Clone)]
pub struct ClientConfig {
    /// server control address, e.g. "public.example.com:1400"
    pub server: String,
    /// shared secret (must match the server)
    pub secret: String,
    /// how many parallel data channels to open (default 8; 1..64).
    /// The data PORT is learned from the server at connect time, so there is
    /// nothing to agree on in config besides the secret.
    pub channels: Option<u8>,
}

/// A socket address that `ServerConfig::bind` was read as: how it is written,
/// and its port.
#[derive(Debug)]
pub struct ControlAddr {
    pub text: String,
    pub port: u16,
}

impl Clone for ControlAddr {
    fn clone(&self) -> (r: Self)
        ensures
            r == *self,
    {
        ControlAddr { text: self.text.clone(), port: self.port }
    }
}

/// A single public->local mapping, after range expansion. The unit the client
/// registers with the server and the unit `NEW` carries back.
#[derive(Debug, PartialEq)]
pub struct PortMapping {
    pub remote: u16,
    pub local_host: String,
    pub local_port: u16,
}

/// What a `PortMapping` stands for.
#[verifier::ext_equal]
pub struct MappingView {
    pub remote: u16,
    pub local_host: Seq<char>,
    pub local_port: u16,
}

impl Clone for PortMapping {
    fn clone(&self) -> (r: Self)
        ensures
            r == *self,
    {
        PortMapping {
            remote: self.remote,
            local_host: self.local_host.clone(),
            local_port: self.local_port,
        }
    }
}

impl View for PortMapping {
    type V = MappingView;

    open spec fn view(&self) -> MappingView {
        MappingView {
            remote: self.remote,
            local_host: self.local_host@,
            local_port: self.local_port,
        }
    }
}

/// A set of ports: a single number, a "a-b" range, or a list mixing both
/// (frp-style `allow_ports` / `forbid_ports`).
#[derive(Debug, Clone)]
pub enum PortPolicy {
    Num(u16),
    Str(String),
    Vec(Vec<PortItem>),
}

#[derive(Debug, Clone)]
pub enum PortItem {
    Num(u16),
    Str(String),
}

/// A local address: a port, a "host:port", a range of ports with or without a
/// host, or a list of ports and "host:port"s.
#[derive(Debug, Clone)]
pub enum LocalSpec {
    Num(u16),
    Str(String),
    Vec(Vec<LocalItem>),
}

#[derive(Debug, Clone)]
pub enum LocalItem {
    Num(u16),
    Str(String),
}

/// One `[services.NAME]` entry: the public port(s) to expose + the local
/// address(es) to connect (positionally).
#[derive(Debug, Clone)]
pub struct ProxySpec {
    /// public port(s) the SERVER binds. Required. Single or "a-b" or [..].
    pub remote: PortPolicy,
    /// local address(es) the CLIENT connects to. A bare port means
    /// 127.0.0.1; "host:port" carries its own host. Default: `remote` on
    /// 127.0.0.1.
    pub local: Option<LocalSpec>,
}

// ---- ports ----

/// The complaint about a text that is no port number.
pub open spec fn bad_port(label: Seq<char>, shown: Seq<char>, text: Seq<char>) -> Seq<char> {
    label + text::quoted_text(shown) + ": "@ + text::parse_error_text(text)
}

/// The port that `text` stands for; a complaint shows `shown`.
pub open spec fn port_of(label: Seq<char>, shown: Seq<char>, text: Seq<char>) -> Result<
    u16,
    Seq<char>,
> {
    match text::port_number(text) {
        Some(p) => Ok(p),
        None => Err(bad_port(label, shown, text)),
    }
}

/// The ports from `a` to `b`, both of them included.
pub open spec fn ports_between(a: u16, b: u16) -> Seq<u16> {
    Seq::new((b - a + 1) as nat, |i: int| (a + i) as u16)
}

/// The ports of "a" or "a-b".
pub open spec fn range_ports(s: Seq<char>) -> Result<Seq<u16>, Seq<char>> {
    let t = text::trimmed(s);
    match text::cut_first(t, '-') {
        Some((a, b)) => match port_of("bad port "@, a, text::trimmed(a)) {
            Err(e) => Err(e),
            Ok(x) => match port_of("bad port "@, b, text::trimmed(b)) {
                Err(e) => Err(e),
                Ok(y) => if x > y {
                    Err(
                        "range "@ + text::decimal(x as nat) + "-"@ + text::decimal(y as nat)
                            + " is inverted"@,
                    )
                } else {
                    Ok(ports_between(x, y))
                },
            },
        },
        None => match port_of("bad port "@, t, t) {
            Err(e) => Err(e),
            Ok(p) => Ok(seq![p]),
        },
    }
}

/// The ports of one item of a list.
pub open spec fn item_ports(i: PortItem) -> Result<Seq<u16>, Seq<char>> {
    match i {
        PortItem::Num(p) => Ok(seq![p]),
        PortItem::Str(s) => range_ports(s@),
    }
}

/// The ports of all items in order, or the first complaint.
pub open spec fn items_ports(items: Seq<PortItem>) -> Result<Seq<u16>, Seq<char>>
    decreases items.len(),
{
    if items.len() == 0 {
        Ok(Seq::empty())
    } else {
        match items_ports(items.drop_last()) {
            Err(e) => Err(e),
            Ok(ps) => match item_ports(items.last()) {
                Err(e) => Err(e),
                Ok(qs) => Ok(ps + qs),
            },
        }
    }
}

/// The ports of a policy, in order.
pub open spec fn policy_ports(p: PortPolicy) -> Result<Seq<u16>, Seq<char>> {
    match p {
        PortPolicy::Num(p) => Ok(seq![p]),
        PortPolicy::Str(s) => range_ports(s@),
        PortPolicy::Vec(v) => if v@.len() == 0 {
            Err("empty port list"@)
        } else {
            items_ports(v@)
        },
    }
}

/// What a port list or a complaint stands for.
pub open spec fn ports_view(r: Result<Vec<u16>, String>) -> Result<Seq<u16>, Seq<char>> {
    match r {
        Ok(v) => Ok(v@),
        Err(e) => Err(e@),
    }
}

/// What a port or a complaint stands for.
pub open spec fn port_view(r: Result<u16, String>) -> Result<u16, Seq<char>> {
    match r {
        Ok(p) => Ok(p),
        Err(e) => Err(e@),
    }
}

fn read_port(label: &str, shown: &str, text: &str) -> (r: Result<u16, String>)
    ensures
        port_view(r) == port_of(label@, shown@, text@),
{
    match text::parse_u16(text) {
        Ok(p) => Ok(p),
        Err(e) => Err(
            label.to_owned().concat(text::quote(shown).as_str()).concat(": ").concat(e.as_str()),
        ),
    }
}

/// Parse "a", "a-b" (inclusive), into a port list.
pub fn parse_port_range(s: &str) -> (r: Result<Vec<u16>, String>)
    ensures
        ports_view(r) == range_ports(s@),
{
    let t = text::trim(s);
    match text::split_first(t, '-') {
        Some((a, b)) => {
            let x: u16 = match read_port("bad port ", a, text::trim(a)) {
                Ok(p) => p,
                Err(e) => return Err(e),
            };
            let y: u16 = match read_port("bad port ", b, text::trim(b)) {
                Ok(p) => p,
                Err(e) => return Err(e),
            };
            if x > y {
                return Err(
                    "range ".to_owned().concat(text::number_text(x as u64).as_str()).concat(
                        "-",
                    ).concat(text::number_text(y as u64).as_str()).concat(" is inverted"),
                );
            }
            let mut ports: Vec<u16> = Vec::new();
            let mut p: u16 = x;
            while p < y
                invariant
                    x <= p <= y,
                    ports@ =~= ports_between(x, y).take(p - x),
                decreases y - p,
            {
                ports.push(p);
                p = p + 1;
            }
            ports.push(y);
            assert(ports@ =~= ports_between(x, y));
            Ok(ports)
        },
        None => {
            let p: u16 = match read_port("bad port ", t, t) {
                Ok(p) => p,
                Err(e) => return Err(e),
            };
            let mut ports: Vec<u16> = Vec::new();
            ports.push(p);
            assert(ports@ =~= seq![p]);
            Ok(ports)
        },
    }
}

fn resolve_port_items(v: &Vec<PortItem>) -> (r: Result<Vec<u16>, String>)
    ensures
        ports_view(r) == items_ports(v@),
{
    let mut ports: Vec<u16> = Vec::new();
    let mut i: usize = 0;
    while i < v.len()
        invariant
            i <= v@.len(),
            items_ports(v@.take(i as int)) == Ok::<Seq<u16>, Seq<char>>(ports@),
        decreases v@.len() - i,
    {
        assert(v@.take(i + 1).drop_last() =~= v@.take(i as int));
        let ghost before = ports@;
        match &v[i] {
            PortItem::Num(p) => {
                ports.push(*p);
                assert(ports@ =~= before + seq![*p]);
            },
            PortItem::Str(s) => {
                match parse_port_range(s.as_str()) {
                    Ok(mut more) => {
                        let ghost added = more@;
                        ports.append(&mut more);
                        assert(ports@ =~= before + added);
                    },
                    Err(e) => {
                        proof {
                            lemma_items_error(v@, i + 1);
                        }
                        return Err(e);
                    },
                }
            },
        }
        i = i + 1;
    }
    assert(v@.take(i as int) =~= v@);
    Ok(ports)
}

/// The first complaint is the complaint about the whole list.
proof fn lemma_items_error(items: Seq<PortItem>, k: int)
    requires
        0 <= k <= items.len(),
        items_ports(items.take(k)) is Err,
    ensures
        items_ports(items) == items_ports(items.take(k)),
    decreases items.len() - k,
{
    if k < items.len() {
        assert(items.take(k + 1).drop_last() =~= items.take(k));
        lemma_items_error(items, k + 1);
    } else {
        assert(items.take(k) =~= items);
    }
}

impl PortPolicy {
    /// Expand to the concrete, ordered port list (ranges expanded).
    pub fn resolve(&self) -> (r: Result<Vec<u16>, String>)
        ensures
            ports_view(r) == policy_ports(*self),
    {
        match self {
            PortPolicy::Num(p) => {
                let mut ports: Vec<u16> = Vec::new();
                ports.push(*p);
                assert(ports@ =~= seq![*p]);
                Ok(ports)
            },
            PortPolicy::Str(s) => parse_port_range(s.as_str()),
            PortPolicy::Vec(v) => if v.len() == 0 {
                Err("empty port list".to_owned())
            } else {
                resolve_port_items(v)
            },
        }
    }
}

// ---- addresses ----

/// Host and port of "host:port".
pub open spec fn host_and_port(s: Seq<char>) -> Result<(Seq<char>, u16), Seq<char>> {
    match text::cut_last(s, ':') {
        None => Err("expected host:port, got "@ + text::quoted_text(s)),
        Some((host, port)) => match port_of("bad port "@, port, text::trimmed(port)) {
            Err(e) => Err(e),
            Ok(p) => if text::trimmed(host).len() == 0 {
                Err("empty host"@)
            } else {
                Ok((text::trimmed(host), p))
            },
        },
    }
}

/// What an address stands for.
pub open spec fn addr(a: (String, u16)) -> (Seq<char>, u16) {
    (a.0@, a.1)
}

/// What a list of addresses stands for.
pub open spec fn addrs(v: Seq<(String, u16)>) -> Seq<(Seq<char>, u16)> {
    v.map_values(|a: (String, u16)| addr(a))
}

/// What an address or a complaint stands for.
pub open spec fn addr_view(r: Result<(String, u16), String>) -> Result<
    (Seq<char>, u16),
    Seq<char>,
> {
    match r {
        Ok(a) => Ok(addr(a)),
        Err(e) => Err(e@),
    }
}

/// What a list of addresses or a complaint stands for.
pub open spec fn addrs_view(r: Result<Vec<(String, u16)>, String>) -> Result<
    Seq<(Seq<char>, u16)>,
    Seq<char>,
> {
    match r {
        Ok(v) => Ok(addrs(v@)),
        Err(e) => Err(e@),
    }
}

/// Split "host:port" into (host, port). Host may be a hostname or an IP.
pub fn parse_host_port(s: &str) -> (r: Result<(String, u16), String>)
    ensures
        addr_view(r) == host_and_port(s@),
{
    match text::split_last(s, ':') {
        None => Err("expected host:port, got ".to_owned().concat(text::quote(s).as_str())),
        Some((host, port)) => {
            let p: u16 = match read_port("bad port ", port, text::trim(port)) {
                Ok(p) => p,
                Err(e) => return Err(e),
            };
            let h = text::trim(host);
            if h.unicode_len() == 0 {
                return Err("empty host".to_owned());
            }
            Ok((h.to_owned(), p))
        },
    }
}

/// Address of "host:port" or, on `default_host`, of "port".
pub open spec fn local_item(s: Seq<char>, default_host: Seq<char>) -> Result<
    (Seq<char>, u16),
    Seq<char>,
> {
    let t = text::trimmed(s);
    match text::cut_last(t, ':') {
        Some((host, port)) => match port_of("bad port "@, port, text::trimmed(port)) {
            Err(e) => Err(e),
            Ok(p) => if text::trimmed(host).len() == 0 {
                Err("empty host in local addr"@)
            } else {
                Ok((text::trimmed(host), p))
            },
        },
        None => match port_of("bad local port "@, t, t) {
            Err(e) => Err(e),
            Ok(p) => Ok((default_host, p)),
        },
    }
}

/// `ports`, all on `host`.
pub open spec fn on_host(host: Seq<char>, ports: Seq<u16>) -> Seq<(Seq<char>, u16)> {
    ports.map_values(|p: u16| (host, p))
}

/// Is there a range in `s`?
pub open spec fn has_range(s: Seq<char>) -> bool {
    text::first_at(s, '-', 0) is Some
}

/// Addresses of "a-b" (on `default_host`), "host:a-b", "host:port" or "port".
pub open spec fn local_text(s: Seq<char>, default_host: Seq<char>) -> Result<
    Seq<(Seq<char>, u16)>,
    Seq<char>,
> {
    let t = text::trimmed(s);
    let (host, ports) = match text::cut_last(t, ':') {
        Some((host, ports)) => (Some(text::trimmed(host)), ports),
        None => (None, t),
    };
    if has_range(ports) {
        match range_ports(ports) {
            Err(e) => Err(e),
            Ok(ps) => match host {
                None => Ok(on_host(default_host, ps)),
                Some(h) => if h.len() == 0 {
                    Err("empty host in local addr"@)
                } else {
                    Ok(on_host(h, ps))
                },
            },
        }
    } else {
        match local_item(t, default_host) {
            Err(e) => Err(e),
            Ok(a) => Ok(seq![a]),
        }
    }
}

/// The address of one item of a list.
pub open spec fn item_addr(i: LocalItem, default_host: Seq<char>) -> Result<
    (Seq<char>, u16),
    Seq<char>,
> {
    match i {
        LocalItem::Num(p) => Ok((default_host, p)),
        LocalItem::Str(s) => local_item(s@, default_host),
    }
}

/// The addresses of all items in order, or the first complaint.
pub open spec fn items_addrs(items: Seq<LocalItem>, default_host: Seq<char>) -> Result<
    Seq<(Seq<char>, u16)>,
    Seq<char>,
>
    decreases items.len(),
{
    if items.len() == 0 {
        Ok(Seq::empty())
    } else {
        match items_addrs(items.drop_last(), default_host) {
            Err(e) => Err(e),
            Ok(a) => match item_addr(items.last(), default_host) {
                Err(e) => Err(e),
                Ok(b) => Ok(a.push(b)),
            },
        }
    }
}

/// The addresses of a local spec, in order.
pub open spec fn local_addrs(l: LocalSpec, default_host: Seq<char>) -> Result<
    Seq<(Seq<char>, u16)>,
    Seq<char>,
> {
    match l {
        LocalSpec::Num(p) => Ok(seq![(default_host, p)]),
        LocalSpec::Str(s) => local_text(s@, default_host),
        LocalSpec::Vec(v) => if v@.len() == 0 {
            Err("empty local list"@)
        } else {
            items_addrs(v@, default_host)
        },
    }
}

/// "host:port" | "port" -> (host, port).
pub fn parse_local_item(s: &str, default_host: &str) -> (r: Result<(String, u16), String>)
    ensures
        addr_view(r) == local_item(s@, default_host@),
{
    let t = text::trim(s);
    match text::split_last(t, ':') {
        Some((host, port)) => {
            let p: u16 = match read_port("bad port ", port, text::trim(port)) {
                Ok(p) => p,
                Err(e) => return Err(e),
            };
            let h = text::trim(host);
            if h.unicode_len() == 0 {
                return Err("empty host in local addr".to_owned());
            }
            Ok((h.to_owned(), p))
        },
        None => match read_port("bad local port ", t, t) {
            Ok(p) => Ok((default_host.to_owned(), p)),
            Err(e) => Err(e),
        },
    }
}

fn ports_on_host(host: &str, ports: &Vec<u16>) -> (r: Vec<(String, u16)>)
    ensures
        addrs(r@) == on_host(host@, ports@),
{
    let mut out: Vec<(String, u16)> = Vec::new();
    let mut i: usize = 0;
    while i < ports.len()
        invariant
            i <= ports@.len(),
            addrs(out@) =~= on_host(host@, ports@).take(i as int),
        decreases ports@.len() - i,
    {
        let ghost before = out@;
        out.push((host.to_owned(), ports[i]));
        assert(addrs(out@) =~= addrs(before).push((host@, ports@[i as int])));
        i = i + 1;
    }
    assert(addrs(out@) =~= on_host(host@, ports@));
    out
}

/// "a-b" (range, default host) | "host:a-b" | "host:port" | "port" ->
/// (host, port) pairs.
pub fn parse_local_str(s: &str, default_host: &str) -> (r: Result<Vec<(String, u16)>, String>)
    ensures
        addrs_view(r) == local_text(s@, default_host@),
{
    let t = text::trim(s);
    let (host, ports) = match text::split_last(t, ':') {
        Some((host, ports)) => (Some(text::trim(host)), ports),
        None => (None, t),
    };
    if text::split_first(ports, '-').is_some() {
        match parse_port_range(ports) {
            Ok(ps) => match host {
                None => Ok(ports_on_host(default_host, &ps)),
                Some(h) => if h.unicode_len() == 0 {
                    Err("empty host in local addr".to_owned())
                } else {
                    Ok(ports_on_host(h, &ps))
                },
            },
            Err(e) => Err(e),
        }
    } else {
        match parse_local_item(t, default_host) {
            Ok(a) => {
                let mut out: Vec<(String, u16)> = Vec::new();
                out.push(a);
                assert(addrs(out@) =~= seq![addr(a)]);
                Ok(out)
            },
            Err(e) => Err(e),
        }
    }
}

/// The first complaint is the complaint about the whole list.
proof fn lemma_addrs_error(items: Seq<LocalItem>, default_host: Seq<char>, k: int)
    requires
        0 <= k <= items.len(),
        items_addrs(items.take(k), default_host) is Err,
    ensures
        items_addrs(items, default_host) == items_addrs(items.take(k), default_host),
    decreases items.len() - k,
{
    if k < items.len() {
        assert(items.take(k + 1).drop_last() =~= items.take(k));
        lemma_addrs_error(items, default_host, k + 1);
    } else {
        assert(items.take(k) =~= items);
    }
}

fn resolve_local_items(v: &Vec<LocalItem>, default_host: &str) -> (r: Result<
    Vec<(String, u16)>,
    String,
>)
    ensures
        addrs_view(r) == items_addrs(v@, default_host@),
{
    let mut out: Vec<(String, u16)> = Vec::new();
    let mut i: usize = 0;
    assert(addrs(out@) =~= Seq::empty());
    while i < v.len()
        invariant
            i <= v@.len(),
            items_addrs(v@.take(i as int), default_host@) == Ok::<
                Seq<(Seq<char>, u16)>,
                Seq<char>,
            >(addrs(out@)),
        decreases v@.len() - i,
    {
        assert(v@.take(i + 1).drop_last() =~= v@.take(i as int));
        let item = match &v[i] {
            LocalItem::Num(p) => (default_host.to_owned(), *p),
            LocalItem::Str(s) => match parse_local_item(s.as_str(), default_host) {
                Ok(a) => a,
                Err(e) => {
                    proof {
                        lemma_addrs_error(v@, default_host@, i + 1);
                    }
                    return Err(e);
                },
            },
        };
        let ghost before = out@;
        out.push(item);
        assert(addrs(out@) =~= addrs(before).push(addr(item)));
        i = i + 1;
    }
    assert(v@.take(i as int) =~= v@);
    Ok(out)
}

impl LocalSpec {
    /// Expand to (host, port) pairs. Bare ports use `default_host`.
    pub fn resolve(&self, default_host: &str) -> (r: Result<Vec<(String, u16)>, String>)
        ensures
            addrs_view(r) == local_addrs(*self, default_host@),
    {
        match self {
            LocalSpec::Num(p) => {
                let mut out: Vec<(String, u16)> = Vec::new();
                out.push((default_host.to_owned(), *p));
                assert(addrs(out@) =~= seq![(default_host@, *p)]);
                Ok(out)
            },
            LocalSpec::Str(s) => parse_local_str(s.as_str(), default_host),
            LocalSpec::Vec(v) => if v.len() == 0 {
                Err("empty local list".to_owned())
            } else {
                resolve_local_items(v, default_host)
            },
        }
    }
}

// ---- services ----

/// The first host from `from` on that is too long for its length byte.
pub open spec fn long_host(locals: Seq<(Seq<char>, u16)>, from: int) -> Option<Seq<char>>
    decreases locals.len() - from,
{
    if from >= locals.len() {
        None
    } else if encode_utf8(locals[from].0).len() > 255 {
        Some(locals[from].0)
    } else {
        long_host(locals, from + 1)
    }
}

/// The local addresses of a service: what it says, or its public ports on
/// 127.0.0.1.
pub open spec fn spec_addrs(sp: ProxySpec, remotes: Seq<u16>) -> Result<
    Seq<(Seq<char>, u16)>,
    Seq<char>,
> {
    match sp.local {
        None => Ok(on_host("127.0.0.1"@, remotes)),
        Some(l) => local_addrs(l, "127.0.0.1"@),
    }
}

/// Public ports and local addresses, paired by position.
pub open spec fn paired(remotes: Seq<u16>, locals: Seq<(Seq<char>, u16)>) -> Seq<MappingView> {
    Seq::new(
        remotes.len(),
        |i: int|
            MappingView {
                remote: remotes[i],
                local_host: locals[i].0,
                local_port: locals[i].1,
            },
    )
}

/// The mappings of a service.
pub open spec fn expansion(sp: ProxySpec) -> Result<Seq<MappingView>, Seq<char>> {
    match policy_ports(sp.remote) {
        Err(e) => Err(e),
        Ok(remotes) => match spec_addrs(sp, remotes) {
            Err(e) => Err(e),
            Ok(locals) => match long_host(locals, 0) {
                Some(host) => Err(
                    "local host "@ + text::quoted_text(host) + " is "@ + text::decimal(
                        encode_utf8(host).len(),
                    ) + " bytes; the protocol limit is 255"@,
                ),
                None => if remotes.len() != locals.len() {
                    Err(
                        "`remote` has "@ + text::decimal(remotes.len())
                            + " port(s) but `local` has "@ + text::decimal(locals.len())
                            + " — they must map positionally (or omit `local`)"@,
                    )
                } else {
                    Ok(paired(remotes, locals))
                },
            },
        },
    }
}

/// What a list of mappings stands for.
pub open spec fn mapping_views(v: Seq<PortMapping>) -> Seq<MappingView> {
    v.map_values(|m: PortMapping| m@)
}

/// What a list of mappings or a complaint stands for.
pub open spec fn mappings_view(r: Result<Vec<PortMapping>, String>) -> Result<
    Seq<MappingView>,
    Seq<char>,
> {
    match r {
        Ok(v) => Ok(mapping_views(v@)),
        Err(e) => Err(e@),
    }
}

fn find_long_host(locals: &Vec<(String, u16)>) -> (r: Option<usize>)
    ensures
        match r {
            Some(i) => i < locals@.len() && long_host(addrs(locals@), 0) == Some(locals@[i as int].0@),
            None => long_host(addrs(locals@), 0) is None,
        },
{
    let mut i: usize = 0;
    while i < locals.len()
        invariant
            i <= locals@.len(),
            long_host(addrs(locals@), 0) == long_host(addrs(locals@), i as int),
        decreases locals@.len() - i,
    {
        if locals[i].0.as_str().as_bytes().len() > 255 {
            return Some(i);
        }
        i = i + 1;
    }
    None
}

impl ProxySpec {
    /// Expand to concrete (remote, local_host, local_port) tuples.
    pub fn expand(&self) -> (r: Result<Vec<PortMapping>, String>)
        ensures
            mappings_view(r) == expansion(*self),
    {
        let remotes = match self.remote.resolve() {
            Ok(v) => v,
            Err(e) => return Err(e),
        };
        let default_host = "127.0.0.1";
        let locals = match &self.local {
            None => ports_on_host(default_host, &remotes),
            Some(l) => match l.resolve(default_host) {
                Ok(v) => v,
                Err(e) => return Err(e),
            },
        };
        match find_long_host(&locals) {
            Some(i) => {
                let host = locals[i].0.as_str();
                return Err(
                    "local host ".to_owned().concat(text::quote(host).as_str()).concat(
                        " is ",
                    ).concat(text::number_text(host.as_bytes().len() as u64).as_str()).concat(
                        " bytes; the protocol limit is 255",
                    ),
                );
            },
            None => {},
        }
        if remotes.len() != locals.len() {
            return Err(
                "`remote` has ".to_owned().concat(
                    text::number_text(remotes.len() as u64).as_str(),
                ).concat(" port(s) but `local` has ").concat(
                    text::number_text(locals.len() as u64).as_str(),
                ).concat(" — they must map positionally (or omit `local`)"),
            );
        }
        let mut out: Vec<PortMapping> = Vec::new();
        let mut i: usize = 0;
        let ghost all = paired(remotes@, addrs(locals@));
        while i < remotes.len()
            invariant
                i <= remotes@.len(),
                remotes@.len() == locals@.len(),
                all == paired(remotes@, addrs(locals@)),
                mapping_views(out@) =~= all.take(i as int),
            decreases remotes@.len() - i,
        {
            let ghost before = out@;
            let m = PortMapping {
                remote: remotes[i],
                local_host: locals[i].0.clone(),
                local_port: locals[i].1,
            };
            assert(m@ == all[i as int]);
            out.push(m);
            assert(mapping_views(out@) =~= mapping_views(before).push(m@));
            i = i + 1;
        }
        assert(mapping_views(out@) =~= all);
        Ok(out)
    }
}

// ---- the two sides ----

/// The control address and the data port of a server whose `bind` was read as
/// `bind`.
pub open spec fn server_addrs(s: ServerConfig, bind: Result<ControlAddr, String>) -> Result<
    (ControlAddr, u16),
    Seq<char>,
> {
    match bind {
        Err(e) => Err("bad server.bind "@ + text::quoted_text(s.bind@) + ": "@ + e@),
        Ok(ctrl) => match s.data_port {
            Some(p) => if p == 0 {
                Err("server.data_port must be >= 1"@)
            } else if p == ctrl.port {
                Err(
                    "server.data_port "@ + text::decimal(p as nat)
                        + " must differ from the control port"@,
                )
            } else {
                Ok((ctrl, p))
            },
            None => if ctrl.port == u16::MAX {
                Err("control port is 65535; set server.data_port explicitly"@)
            } else {
                Ok((ctrl, (ctrl.port + 1) as u16))
            },
        },
    }
}

/// What a resolved server or a complaint stands for.
pub open spec fn server_view(r: Result<(ControlAddr, u16), String>) -> Result<
    (ControlAddr, u16),
    Seq<char>,
> {
    match r {
        Ok(a) => Ok(a),
        Err(e) => Err(e@),
    }
}

/// May `port` be exposed? Not where it is forbidden, and where `allow_ports` is
/// set, only if it is on that list. What cannot be read names no port: an
/// unreadable `allow_ports` allows none, and an item of `forbid_ports` that
/// cannot be read forbids none.
pub open spec fn permits(s: ServerConfig, port: u16) -> bool {
    &&& !forbidden(s.forbid_ports, port)
    &&& s.allow_ports is Some ==> listed(s.allow_ports, port)
}

/// Can `ports` be read, with `port` among them?
pub open spec fn names(ports: Result<Seq<u16>, Seq<char>>, port: u16) -> bool {
    match ports {
        Ok(ps) => ps.contains(port),
        Err(_) => false,
    }
}

/// Does the policy forbid `port`? An item of a list does so whether or not the
/// others can be read.
pub open spec fn forbidden(policy: Option<PortPolicy>, port: u16) -> bool {
    match policy {
        None => false,
        Some(PortPolicy::Num(p)) => p == port,
        Some(PortPolicy::Str(s)) => names(range_ports(s@), port),
        Some(PortPolicy::Vec(v)) => exists|i: int|
            0 <= i < v@.len() && names(item_ports(#[trigger] v@[i]), port),
    }
}

/// Is there a list of ports, with `port` on it?
pub open spec fn listed(policy: Option<PortPolicy>, port: u16) -> bool {
    policy matches Some(p) && policy_ports(p) matches Ok(ports) && ports.contains(port)
}

fn contains_port(ports: &Vec<u16>, port: u16) -> (r: bool)
    ensures
        r == ports@.contains(port),
{
    let mut i: usize = 0;
    while i < ports.len()
        invariant
            i <= ports@.len(),
            forall|k: int| 0 <= k < i ==> ports@[k] != port,
        decreases ports@.len() - i,
    {
        if ports[i] == port {
            return true;
        }
        i = i + 1;
    }
    false
}

fn names_port(ports: &Result<Vec<u16>, String>, port: u16) -> (r: bool)
    ensures
        r == names(ports_view(*ports), port),
{
    match ports {
        Ok(ps) => contains_port(ps, port),
        Err(_) => false,
    }
}

fn items_name(v: &Vec<PortItem>, port: u16) -> (r: bool)
    ensures
        r == exists|i: int| 0 <= i < v@.len() && names(item_ports(#[trigger] v@[i]), port),
{
    let mut i: usize = 0;
    while i < v.len()
        invariant
            i <= v@.len(),
            forall|k: int| 0 <= k < i ==> !names(item_ports(#[trigger] v@[k]), port),
        decreases v@.len() - i,
    {
        let named = match &v[i] {
            PortItem::Num(p) => {
                assert(seq![*p].contains(port) == (*p == port)) by {
                    assert(seq![*p][0] == *p);
                }
                *p == port
            },
            PortItem::Str(s) => names_port(&parse_port_range(s.as_str()), port),
        };
        assert(named == names(item_ports(v@[i as int]), port));
        if named {
            return true;
        }
        i = i + 1;
    }
    false
}

impl PortPolicy {
    /// Does this list, as a list of forbidden ports, forbid `port`?
    pub fn forbids(&self, port: u16) -> (r: bool)
        ensures
            r == forbidden(Some(*self), port),
    {
        match self {
            PortPolicy::Num(p) => *p == port,
            PortPolicy::Str(s) => names_port(&parse_port_range(s.as_str()), port),
            PortPolicy::Vec(v) => items_name(v, port),
        }
    }
}

impl ServerConfig {
    /// Resolve the control address + the shared data port, given what `bind`
    /// was read as.
    pub fn resolve(&self, bind: &Result<ControlAddr, String>) -> (r: Result<
        (ControlAddr, u16),
        String,
    >)
        ensures
            server_view(r) == server_addrs(*self, *bind),
    {
        let ctrl = match bind {
            Ok(a) => a,
            Err(e) => return Err(
                "bad server.bind ".to_owned().concat(text::quote(self.bind.as_str()).as_str()).concat(
                    ": ",
                ).concat(e.as_str()),
            ),
        };
        match self.data_port {
            Some(p) => if p == 0 {
                Err("server.data_port must be >= 1".to_owned())
            } else if p == ctrl.port {
                Err(
                    "server.data_port ".to_owned().concat(
                        text::number_text(p as u64).as_str(),
                    ).concat(" must differ from the control port"),
                )
            } else {
                Ok((ctrl.clone(), p))
            },
            None => if ctrl.port == u16::MAX {
                Err("control port is 65535; set server.data_port explicitly".to_owned())
            } else {
                Ok((ctrl.clone(), ctrl.port + 1))
            },
        }
    }

    /// Does the public-port policy permit `port` to be exposed?
    pub fn port_allowed(&self, port: u16) -> (r: bool)
        ensures
            r == permits(*self, port),
    {
        if let Some(f) = &self.forbid_ports {
            if f.forbids(port) {
                return false;
            }
        }
        if let Some(a) = &self.allow_ports {
            return match a.resolve() {
                Ok(ports) => contains_port(&ports, port),
                Err(_) => false,
            };
        }
        true
    }
}

/// The server address and the channel count of a client.
pub open spec fn client_addrs(c: ClientConfig) -> Result<(Seq<char>, u16, u8), Seq<char>> {
    match host_and_port(c.server@) {
        Err(e) => Err("bad client.server "@ + text::quoted_text(c.server@) + ": "@ + e),
        Ok((host, port)) => match c.channels {
            None => Ok((host, port, DEFAULT_DATA_CHANNELS)),
            Some(n) => if n == 0 {
                Err("client.channels must be >= 1"@)
            } else if n > MAX_DATA_CHANNELS {
                Err(
                    "client.channels "@ + text::decimal(n as nat) + " exceeds the maximum "@
                        + text::decimal(MAX_DATA_CHANNELS as nat),
                )
            } else {
                Ok((host, port, n))
            },
        },
    }
}

/// What a resolved client or a complaint stands for.
pub open spec fn client_view(r: Result<(String, u16, u8), String>) -> Result<
    (Seq<char>, u16, u8),
    Seq<char>,
> {
    match r {
        Ok((host, port, n)) => Ok((host@, port, n)),
        Err(e) => Err(e@),
    }
}

impl ClientConfig {
    /// Resolve the control (host, port) + the channel count. The host may be a
    /// hostname (resolved by the OS on connect).
    pub fn resolve(&self) -> (r: Result<(String, u16, u8), String>)
        ensures
            client_view(r) == client_addrs(*self),
    {
        let (host, port) = match parse_host_port(self.server.as_str()) {
            Ok(a) => a,
            Err(e) => return Err(
                "bad client.server ".to_owned().concat(
                    text::quote(self.server.as_str()).as_str(),
                ).concat(": ").concat(e.as_str()),
            ),
        };
        match self.channels {
            None => Ok((host, port, DEFAULT_DATA_CHANNELS)),
            Some(n) => if n == 0 {
                Err("client.channels must be >= 1".to_owned())
            } else if n > MAX_DATA_CHANNELS {
                Err(
                    "client.channels ".to_owned().concat(
                        text::number_text(n as u64).as_str(),
                    ).concat(" exceeds the maximum ").concat(
                        text::number_text(MAX_DATA_CHANNELS as u64).as_str(),
                    ),
                )
            } else {
                Ok((host, port, n))
            },
        }
    }
}

// ---- a whole file ----

/// Is every name there once?
pub open spec fn distinct_names(services: Seq<(String, ProxySpec)>) -> bool {
    forall|i: int, j: int|
        0 <= i < j < services.len() ==> (#[trigger] services[i]).0@ != (#[trigger] services[j]).0@
}

/// What is wrong with one service.
pub open spec fn service_complaint(side: Seq<char>, name: Seq<char>, sp: ProxySpec) -> Option<
    Seq<char>,
> {
    if encode_utf8(name).len() > 255 {
        Some(
            "service "@ + text::quoted_text(name) + ": name is "@ + text::decimal(
                encode_utf8(name).len(),
            ) + " bytes; the protocol limit is 255"@,
        )
    } else {
        match expansion(sp) {
            Err(e) => Some(side + " service "@ + name + ": "@ + e),
            Ok(_) => None,
        }
    }
}

/// What is wrong with the services from `from` on: the first complaint.
pub open spec fn services_complaint(
    side: Seq<char>,
    services: Seq<(String, ProxySpec)>,
    from: int,
) -> Option<Seq<char>>
    decreases services.len() - from,
{
    if from >= services.len() {
        None
    } else {
        match service_complaint(side, services[from].0@, services[from].1) {
            Some(e) => Some(e),
            None => services_complaint(side, services, from + 1),
        }
    }
}

/// The side that complaints about services name.
pub open spec fn side_name(c: Config) -> Seq<char> {
    if c.server is Some {
        "server"@
    } else {
        "client"@
    }
}

/// What is wrong with a config whose server's `bind` was read as `bind`.
pub open spec fn config_complaint(c: Config, bind: Result<ControlAddr, String>) -> Option<
    Seq<char>,
> {
    match services_complaint(side_name(c), c.services@, 0) {
        Some(e) => Some(e),
        None => match server_complaint(c.server, bind) {
            Some(e) => Some(e),
            None => client_complaint(c.client),
        },
    }
}

/// What is wrong with the server section.
pub open spec fn server_complaint(
    s: Option<ServerConfig>,
    bind: Result<ControlAddr, String>,
) -> Option<Seq<char>> {
    match s {
        Some(s) => match server_addrs(s, bind) {
            Err(e) => Some("server: "@ + e),
            Ok(_) => None,
        },
        None => None,
    }
}

/// What is wrong with the client section.
pub open spec fn client_complaint(c: Option<ClientConfig>) -> Option<Seq<char>> {
    match c {
        Some(c) => match client_addrs(c) {
            Err(e) => Some("client: "@ + e),
            Ok(_) => None,
        },
        None => None,
    }
}

fn check_service(side: &str, name: &str, sp: &ProxySpec) -> (r: Result<(), String>)
    ensures
        match r {
            Ok(_) => service_complaint(side@, name@, *sp) is None,
            Err(e) => service_complaint(side@, name@, *sp) == Some(e@),
        },
{
    let len: usize = name.as_bytes().len();
    if len > 255 {
        return Err(
            "service ".to_owned().concat(text::quote(name).as_str()).concat(": name is ").concat(
                text::number_text(len as u64).as_str(),
            ).concat(" bytes; the protocol limit is 255"),
        );
    }
    match sp.expand() {
        Ok(_) => Ok(()),
        Err(e) => Err(side.to_owned().concat(" service ").concat(name).concat(": ").concat(e.as_str())),
    }
}

impl Config {
    /// Every service name is there once.
    pub open spec fn wf(self) -> bool {
        distinct_names(self.services@)
    }

    /// Checks a config that was read, given what the server's `bind` was read
    /// as. Name and host lengths are single u8 bytes on the wire; overlong
    /// values are rejected here with a clear error rather than emitting a
    /// corrupt frame at runtime.
    pub fn validate(&self, bind: &Result<ControlAddr, String>) -> (r: Result<(), String>)
        ensures
            match r {
                Ok(_) => config_complaint(*self, *bind) is None,
                Err(e) => config_complaint(*self, *bind) == Some(e@),
            },
    {
        let side = if self.server.is_some() {
            "server"
        } else {
            "client"
        };
        let mut i: usize = 0;
        while i < self.services.len()
            invariant
                i <= self.services@.len(),
                side@ == side_name(*self),
                services_complaint(side@, self.services@, 0) == services_complaint(
                    side@,
                    self.services@,
                    i as int,
                ),
            decreases self.services@.len() - i,
        {
            match check_service(side, self.services[i].0.as_str(), &self.services[i].1) {
                Ok(_) => {},
                Err(e) => return Err(e),
            }
            i = i + 1;
        }
        if let Some(s) = &self.server {
            if let Err(e) = s.resolve(bind) {
                return Err("server: ".to_owned().concat(e.as_str()));
            }
        }
        if let Some(c) = &self.client {
            if let Err(e) = c.resolve() {
                return Err("client: ".to_owned().concat(e.as_str()));
            }
        }
        Ok(())
    }
}

// ---- a pair of files ----

/// The public ports of a service; none where it cannot be expanded.
pub open spec fn service_ports(sp: ProxySpec) -> Seq<u16> {
    match expansion(sp) {
        Ok(ms) => ms.map_values(|m: MappingView| m.remote),
        Err(_) => Seq::empty(),
    }
}

/// `ports` of the service `name`.
pub open spec fn uses_of(name: Seq<char>, ports: Seq<u16>) -> Seq<(Seq<char>, u16)> {
    ports.map_values(|p: u16| (name, p))
}

/// Every use of a public port, with the name of the service, in order.
pub open spec fn uses(services: Seq<(String, ProxySpec)>) -> Seq<(Seq<char>, u16)>
    decreases services.len(),
{
    if services.len() == 0 {
        Seq::empty()
    } else {
        uses(services.drop_last()) + uses_of(
            services.last().0@,
            service_ports(services.last().1),
        )
    }
}

/// The complaint about a port that the policy denies.
pub open spec fn denied_problem(name: Seq<char>, port: u16) -> Seq<char> {
    "service "@ + name + ": public port "@ + text::decimal(port as nat)
        + " not permitted by the server's allow/forbid policy"@
}

/// The complaint about a port that is the data port.
pub open spec fn collision_problem(name: Seq<char>, port: u16) -> Seq<char> {
    "service "@ + name + ": public port "@ + text::decimal(port as nat)
        + " collides with the server's data port"@
}

/// The complaint about a port that was used before.
pub open spec fn duplicate_problem(before: Seq<char>, name: Seq<char>, port: u16) -> Seq<char> {
    "services "@ + before + " and "@ + name + " both use public port "@ + text::decimal(
        port as nat,
    )
}

/// The complaints about one use of a port (a data port of 0 is unknown).
pub open spec fn use_problems(s: ServerConfig, data_port: u16, u: (Seq<char>, u16)) -> Seq<
    Seq<char>,
> {
    let denied = if permits(s, u.1) {
        Seq::empty()
    } else {
        seq![denied_problem(u.0, u.1)]
    };
    let collides = if data_port != 0 && u.1 == data_port {
        seq![collision_problem(u.0, u.1)]
    } else {
        Seq::empty()
    };
    denied + collides
}

/// The complaints about each use of a port, in order.
pub open spec fn policy_problems(
    s: ServerConfig,
    data_port: u16,
    us: Seq<(Seq<char>, u16)>,
) -> Seq<Seq<char>>
    decreases us.len(),
{
    if us.len() == 0 {
        Seq::empty()
    } else {
        policy_problems(s, data_port, us.drop_last()) + use_problems(s, data_port, us.last())
    }
}

/// The service that used `port` last.
pub open spec fn last_user(us: Seq<(Seq<char>, u16)>, port: u16) -> Option<Seq<char>>
    decreases us.len(),
{
    if us.len() == 0 {
        None
    } else if us.last().1 == port {
        Some(us.last().0)
    } else {
        last_user(us.drop_last(), port)
    }
}

/// The complaints about ports that are used more than once, across services or
/// within one.
pub open spec fn duplicate_problems(us: Seq<(Seq<char>, u16)>) -> Seq<Seq<char>>
    decreases us.len(),
{
    if us.len() == 0 {
        Seq::empty()
    } else {
        let earlier = duplicate_problems(us.drop_last());
        match last_user(us.drop_last(), us.last().1) {
            Some(before) => earlier.push(duplicate_problem(before, us.last().0, us.last().1)),
            None => earlier,
        }
    }
}

/// The data port of the server, or 0 where it has none.
pub open spec fn data_port_of(s: ServerConfig, bind: Result<ControlAddr, String>) -> u16 {
    match server_addrs(s, bind) {
        Ok((_, p)) => p,
        Err(_) => 0,
    }
}

/// All complaints about a server and a client with these services.
pub open spec fn pair_problems(
    server: ServerConfig,
    client: ClientConfig,
    services: Seq<(String, ProxySpec)>,
    bind: Result<ControlAddr, String>,
) -> Seq<Seq<char>> {
    let secrets = if server.secret@ == client.secret@ {
        Seq::empty()
    } else {
        seq!["secrets differ between the two configs"@]
    };
    secrets + policy_problems(server, data_port_of(server, bind), uses(services))
        + duplicate_problems(uses(services))
}

/// What a list of texts stands for.
pub open spec fn texts(v: Seq<String>) -> Seq<Seq<char>> {
    v.map_values(|s: String| s@)
}

/// One text more.
pub proof fn lemma_texts_push(v: Seq<String>, s: String)
    ensures
        texts(v.push(s)) == texts(v).push(s@),
{
    assert(texts(v.push(s)) =~= texts(v).push(s@));
}

fn push_uses(out: &mut Vec<(String, u16)>, name: &str, sp: &ProxySpec)
    ensures
        addrs(final(out)@) == addrs(old(out)@) + uses_of(name@, service_ports(*sp)),
{
    let ghost before = addrs(out@);
    match sp.expand() {
        Err(_) => {
            assert(addrs(out@) =~= before + uses_of(name@, service_ports(*sp)));
        },
        Ok(ms) => {
            let ghost all = uses_of(name@, service_ports(*sp));
            let mut i: usize = 0;
            while i < ms.len()
                invariant
                    i <= ms@.len(),
                    all == uses_of(name@, service_ports(*sp)),
                    mappings_view(Ok(ms)) == expansion(*sp),
                    addrs(out@) =~= before + all.take(i as int),
                decreases ms@.len() - i,
            {
                let ghost prev = out@;
                out.push((name.to_owned(), ms[i].remote));
                assert(addrs(out@) =~= addrs(prev).push((name@, ms@[i as int].remote)));
                assert(all[i as int] == (name@, ms@[i as int].remote));
                i = i + 1;
            }
            assert(addrs(out@) =~= before + all);
        },
    }
}

/// Every use of a public port, in order.
fn collect_uses(services: &Vec<(String, ProxySpec)>) -> (r: Vec<(String, u16)>)
    ensures
        addrs(r@) == uses(services@),
{
    let mut out: Vec<(String, u16)> = Vec::new();
    let mut i: usize = 0;
    assert(addrs(out@) =~= Seq::empty());
    while i < services.len()
        invariant
            i <= services@.len(),
            addrs(out@) == uses(services@.take(i as int)),
        decreases services@.len() - i,
    {
        push_uses(&mut out, services[i].0.as_str(), &services[i].1);
        assert(services@.take(i + 1).drop_last() =~= services@.take(i as int));
        i = i + 1;
    }
    assert(services@.take(i as int) =~= services@);
    out
}

fn service_port_text(name: &str, port: u16) -> (r: String)
    ensures
        r@ == "service "@ + name@ + ": public port "@ + text::decimal(port as nat),
{
    "service ".to_owned().concat(name).concat(": public port ").concat(
        text::number_text(port as u64).as_str(),
    )
}

fn push_policy_problems(
    problems: &mut Vec<String>,
    server: &ServerConfig,
    data_port: u16,
    us: &Vec<(String, u16)>,
)
    ensures
        texts(final(problems)@) == texts(old(problems)@) + policy_problems(
            *server,
            data_port,
            addrs(us@),
        ),
{
    let ghost before = texts(problems@);
    let ghost all = addrs(us@);
    let mut i: usize = 0;
    assert(before =~= before + policy_problems(*server, data_port, all.take(0)));
    while i < us.len()
        invariant
            i <= us@.len(),
            all == addrs(us@),
            texts(problems@) == before + policy_problems(*server, data_port, all.take(i as int)),
        decreases us@.len() - i,
    {
        let ghost start = texts(problems@);
        let ghost u = all[i as int];
        let name = us[i].0.as_str();
        let port: u16 = us[i].1;
        assert(all.take(i + 1).drop_last() =~= all.take(i as int));
        if !server.port_allowed(port) {
            let p = service_port_text(name, port).concat(
                " not permitted by the server's allow/forbid policy",
            );
            proof {
                lemma_texts_push(problems@, p);
            }
            problems.push(p);
        }
        if data_port != 0 && port == data_port {
            let p = service_port_text(name, port).concat(
                " collides with the server's data port",
            );
            proof {
                lemma_texts_push(problems@, p);
            }
            problems.push(p);
        }
        assert(texts(problems@) =~= start + use_problems(*server, data_port, u));
        i = i + 1;
        assert(texts(problems@) =~= before + policy_problems(
            *server,
            data_port,
            all.take(i as int),
        ));
    }
    assert(all.take(i as int) =~= all);
}

/// The table holds the last user of `p`.
spec fn user_known(users: Map<u16, String>, us: Seq<(Seq<char>, u16)>, p: u16) -> bool {
    match last_user(us, p) {
        Some(name) => users.contains_key(p) && users[p]@ == name,
        None => !users.contains_key(p),
    }
}

fn push_duplicate_problems(problems: &mut Vec<String>, us: &Vec<(String, u16)>)
    ensures
        texts(final(problems)@) == texts(old(problems)@) + duplicate_problems(addrs(us@)),
{
    broadcast use vstd::std_specs::hash::group_hash_axioms;

    let ghost before = texts(problems@);
    let ghost all = addrs(us@);
    let mut users: HashMap<u16, String> = HashMap::new();
    let mut i: usize = 0;
    assert(before =~= before + duplicate_problems(all.take(0)));
    while i < us.len()
        invariant
            i <= us@.len(),
            all == addrs(us@),
            texts(problems@) == before + duplicate_problems(all.take(i as int)),
            forall|p: u16| #[trigger] user_known(users@, all.take(i as int), p),
        decreases us@.len() - i,
    {
        let ghost start = texts(problems@);
        let ghost known = users@;
        let name = us[i].0.as_str();
        let port: u16 = us[i].1;
        assert(all.take(i + 1).drop_last() =~= all.take(i as int));
        assert(all[i as int] == (name@, port));
        assert(user_known(known, all.take(i as int), port));
        match users.insert(port, name.to_owned()) {
            Some(prev) => {
                let p = "services ".to_owned().concat(prev.as_str()).concat(" and ").concat(
                    name,
                ).concat(" both use public port ").concat(text::number_text(port as u64).as_str());
                proof {
                    lemma_texts_push(problems@, p);
                }
                problems.push(p);
            },
            None => {},
        }
        i = i + 1;
        assert(texts(problems@) =~= before + duplicate_problems(all.take(i as int)));
        assert forall|p: u16| #[trigger] user_known(users@, all.take(i as int), p) by {
            assert(user_known(known, all.take(i - 1), p));
        }
    }
    assert(all.take(i as int) =~= all);
}

/// Cross-validate a server + client config pair. With the shared data port the
/// two files no longer share any geometry (the data port is server-advertised,
/// the channel count is client-chosen), so this checks the remaining
/// cross-file facts: shared secret, the server's port policy, a service port
/// colliding with the data port, and duplicate public ports. Returns a list of
/// problems (empty = consistent). `bind` is what the server's `bind` was read
/// as.
pub fn validate_pair(
    server: &ServerConfig,
    client: &ClientConfig,
    services: &Vec<(String, ProxySpec)>,
    bind: &Result<ControlAddr, String>,
) -> (r: Vec<String>)
    ensures
        texts(r@) == pair_problems(*server, *client, services@, *bind),
{
    let mut problems: Vec<String> = Vec::new();
    if server.secret != client.secret {
        problems.push("secrets differ between the two configs".to_owned());
    }
    let ghost secrets = texts(problems@);
    assert(secrets =~= if server.secret@ == client.secret@ {
        Seq::empty()
    } else {
        seq!["secrets differ between the two configs"@]
    });
    let data_port: u16 = match server.resolve(bind) {
        Ok((_, p)) => p,
        Err(_) => 0,
    };
    let us = collect_uses(services);
    push_policy_problems(&mut problems, server, data_port, &us);
    push_duplicate_problems(&mut problems, &us);
    problems
}

} // verus!
