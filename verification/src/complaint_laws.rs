//! What complaints show: the text that could not be read, the numbers that do not
//! fit.
use crate::config::{ClientConfig, ControlAddr, LocalItem, LocalSpec, ProxySpec, ServerConfig};
use crate::config;
use crate::text;
use vstd::prelude::*;
use vstd::utf8::*;

verus! {

proof fn lemma_bad_port(label: Seq<char>, shown: Seq<char>, s: Seq<char>)
    ensures
        text::mentions(config::bad_port(label, shown, s), text::quoted_text(shown)),
        text::mentions(config::bad_port(label, shown, s), text::parse_error_text(s)),
{
    let e = config::bad_port(label, shown, s);
    let q = text::quoted_text(shown);
    let why = text::parse_error_text(s);
    let none = Seq::<char>::empty();
    assert(e =~= label + q + (": "@ + why));
    text::lemma_mentions(label, q, ": "@ + why, e);
    assert(e =~= (label + q + ": "@) + why + none);
    text::lemma_mentions(label + q + ": "@, why, none, e);
}

/// The complaint about a text that is no port shows the text and why it cannot be
/// read.
pub proof fn law_port_complaint(s: Seq<char>)
    requires
        !text::trimmed(s).contains('-'),
        config::range_ports(s) is Err,
    ensures
        text::mentions(config::range_ports(s)->Err_0, text::quoted_text(text::trimmed(s))),
        text::mentions(config::range_ports(s)->Err_0, text::parse_error_text(text::trimmed(s))),
{
    let t = text::trimmed(s);
    text::law_cut_first(t, '-');
    if let Some((a, b)) = text::cut_first(t, '-') {
        assert(t[a.len() as int] == '-');
    }
    lemma_bad_port("bad port "@, t, t);
}

/// The complaint about a range shows its first half that is no port, or both ports
/// where the first is above the second.
pub proof fn law_range_complaint(s: Seq<char>, a: Seq<char>, b: Seq<char>)
    requires
        text::cut_first(text::trimmed(s), '-') == Some((a, b)),
        config::range_ports(s) is Err,
    ensures
        ({
            let e = config::range_ports(s)->Err_0;
            match (text::port_number(text::trimmed(a)), text::port_number(text::trimmed(b))) {
                (None, _) => text::mentions(e, text::quoted_text(a)),
                (Some(_), None) => text::mentions(e, text::quoted_text(b)),
                (Some(x), Some(y)) => x > y && text::mentions(
                    e,
                    text::decimal(x as nat) + "-"@ + text::decimal(y as nat),
                ),
            }
        }),
{
    let e = config::range_ports(s)->Err_0;
    lemma_bad_port("bad port "@, a, text::trimmed(a));
    lemma_bad_port("bad port "@, b, text::trimmed(b));
    if let (Some(x), Some(y)) = (
        text::port_number(text::trimmed(a)),
        text::port_number(text::trimmed(b)),
    ) {
        let sub = text::decimal(x as nat) + "-"@ + text::decimal(y as nat);
        assert(e =~= "range "@ + sub + " is inverted"@);
        text::lemma_mentions("range "@, sub, " is inverted"@, e);
    }
}

/// The complaint about a text that is no host and port shows the text, where it
/// has no colon, or the port, where that cannot be read.
pub proof fn law_host_port_complaint(s: Seq<char>)
    requires
        config::host_and_port(s) is Err,
    ensures
        ({
            let e = config::host_and_port(s)->Err_0;
            match text::cut_last(s, ':') {
                None => text::mentions(e, text::quoted_text(s)),
                Some((_, port)) => text::port_number(text::trimmed(port)) is None
                    ==> text::mentions(e, text::quoted_text(port)),
            }
        }),
{
    let e = config::host_and_port(s)->Err_0;
    let none = Seq::<char>::empty();
    match text::cut_last(s, ':') {
        None => {
            let q = text::quoted_text(s);
            assert(e =~= "expected host:port, got "@ + q + none);
            text::lemma_mentions("expected host:port, got "@, q, none, e);
        },
        Some((_, port)) => lemma_bad_port("bad port "@, port, text::trimmed(port)),
    }
}

/// The complaint about a client shows the server text and what is wrong with it,
/// or the channel count that is too high and the highest one.
pub proof fn law_client_complaint(c: ClientConfig)
    ensures
        config::host_and_port(c.server@) matches Err(why) ==> {
            &&& config::client_addrs(c) matches Err(e)
            &&& text::mentions(e, text::quoted_text(c.server@))
            &&& text::mentions(e, why)
        },
        config::host_and_port(c.server@) is Ok ==> (c.channels matches Some(n) ==> (n > 64 ==> {
            &&& config::client_addrs(c) matches Err(e)
            &&& text::mentions(e, text::decimal(n as nat))
            &&& text::mentions(e, text::decimal(64))
        })),
{
    let none = Seq::<char>::empty();
    if let Err(why) = config::host_and_port(c.server@) {
        let e = config::client_addrs(c)->Err_0;
        let q = text::quoted_text(c.server@);
        assert(e =~= "bad client.server "@ + q + (": "@ + why));
        text::lemma_mentions("bad client.server "@, q, ": "@ + why, e);
        assert(e =~= ("bad client.server "@ + q + ": "@) + why + none);
        text::lemma_mentions("bad client.server "@ + q + ": "@, why, none, e);
    } else if let Some(n) = c.channels {
        if n > 64 {
            let e = config::client_addrs(c)->Err_0;
            let d = text::decimal(n as nat);
            let m = text::decimal(64);
            let mid = " exceeds the maximum "@;
            assert(e =~= "client.channels "@ + d + (mid + m));
            text::lemma_mentions("client.channels "@, d, mid + m, e);
            assert(e =~= ("client.channels "@ + d + mid) + m + none);
            text::lemma_mentions("client.channels "@ + d + mid, m, none, e);
        }
    }
}

/// The complaint about a server shows its `bind` and what is wrong with it, or the
/// data port that is the control port.
pub proof fn law_server_complaint(s: ServerConfig, bind: Result<ControlAddr, String>)
    ensures
        bind matches Err(why) ==> {
            &&& config::server_addrs(s, bind) matches Err(e)
            &&& text::mentions(e, text::quoted_text(s.bind@))
            &&& text::mentions(e, why@)
        },
        bind matches Ok(ctrl) ==> (s.data_port == Some(ctrl.port) && ctrl.port != 0 ==> {
            &&& config::server_addrs(s, bind) matches Err(e)
            &&& text::mentions(e, text::decimal(ctrl.port as nat))
        }),
{
    let none = Seq::<char>::empty();
    match bind {
        Err(why) => {
            let e = config::server_addrs(s, bind)->Err_0;
            let q = text::quoted_text(s.bind@);
            assert(e =~= "bad server.bind "@ + q + (": "@ + why@));
            text::lemma_mentions("bad server.bind "@, q, ": "@ + why@, e);
            assert(e =~= ("bad server.bind "@ + q + ": "@) + why@ + none);
            text::lemma_mentions("bad server.bind "@ + q + ": "@, why@, none, e);
        },
        Ok(ctrl) => {
            if s.data_port == Some(ctrl.port) && ctrl.port != 0 {
                let e = config::server_addrs(s, bind)->Err_0;
                let d = text::decimal(ctrl.port as nat);
                let tail = " must differ from the control port"@;
                text::lemma_mentions("server.data_port "@, d, tail, e);
            }
        },
    }
}

proof fn lemma_first_long_host(locals: Seq<(Seq<char>, u16)>, from: int, k: int)
    requires
        0 <= from <= k < locals.len(),
        encode_utf8(locals[k].0).len() > 255,
        forall|i: int| from <= i < k ==> encode_utf8((#[trigger] locals[i]).0).len() <= 255,
    ensures
        config::long_host(locals, from) == Some(locals[k].0),
    decreases k - from,
{
    if from < k {
        assert(encode_utf8(locals[from].0).len() <= 255);
        lemma_first_long_host(locals, from + 1, k);
    }
}

proof fn lemma_no_long_host(locals: Seq<(Seq<char>, u16)>, from: int)
    requires
        0 <= from <= locals.len(),
        forall|i: int|
            0 <= i < locals.len() ==> encode_utf8((#[trigger] locals[i]).0).len() <= 255,
    ensures
        config::long_host(locals, from) is None,
    decreases locals.len() - from,
{
    if from < locals.len() {
        assert(encode_utf8(locals[from].0).len() <= 255);
        lemma_no_long_host(locals, from + 1);
    }
}

/// A service whose public ports or local addresses cannot be read is complained
/// about as they are, the public ports first.
pub proof fn law_unreadable_service(sp: ProxySpec, l: LocalSpec)
    ensures
        config::policy_ports(sp.remote) matches Err(e) ==> config::expansion(sp) == Err::<
            Seq<config::MappingView>,
            Seq<char>,
        >(e),
        sp.local == Some(l) && config::policy_ports(sp.remote) is Ok ==> (config::local_addrs(
            l,
            "127.0.0.1"@,
        ) matches Err(e) ==> config::expansion(sp) == Err::<Seq<config::MappingView>, Seq<char>>(
            e,
        )),
{
}

/// The complaint about a service with a host that is too long shows the first such
/// host and its length.
pub proof fn law_long_host_complaint(sp: ProxySpec, l: LocalSpec, k: int)
    requires
        sp.local == Some(l),
        config::policy_ports(sp.remote) is Ok,
        config::local_addrs(l, "127.0.0.1"@) is Ok,
        0 <= k < config::local_addrs(l, "127.0.0.1"@)->Ok_0.len(),
        encode_utf8(config::local_addrs(l, "127.0.0.1"@)->Ok_0[k].0).len() > 255,
        forall|i: int|
            0 <= i < k ==> encode_utf8(
                (#[trigger] config::local_addrs(l, "127.0.0.1"@)->Ok_0[i]).0,
            ).len() <= 255,
    ensures
        ({
            let host = config::local_addrs(l, "127.0.0.1"@)->Ok_0[k].0;
            &&& config::expansion(sp) matches Err(e)
            &&& text::mentions(e, text::quoted_text(host))
            &&& text::mentions(e, text::decimal(encode_utf8(host).len()))
        }),
{
    let locals = config::local_addrs(l, "127.0.0.1"@)->Ok_0;
    let host = locals[k].0;
    lemma_first_long_host(locals, 0, k);
    let e = config::expansion(sp)->Err_0;
    let q = text::quoted_text(host);
    let d = text::decimal(encode_utf8(host).len());
    let tail = " bytes; the protocol limit is 255"@;
    assert(e =~= "local host "@ + q + (" is "@ + d + tail));
    text::lemma_mentions("local host "@, q, " is "@ + d + tail, e);
    text::lemma_mentions("local host "@ + q + " is "@, d, tail, e);
}

/// The complaint about a service with more public ports than local addresses, or
/// fewer, shows how many there are of each.
pub proof fn law_count_complaint(sp: ProxySpec, l: LocalSpec)
    requires
        sp.local == Some(l),
        config::policy_ports(sp.remote) is Ok,
        config::local_addrs(l, "127.0.0.1"@) is Ok,
        config::policy_ports(sp.remote)->Ok_0.len() != config::local_addrs(
            l,
            "127.0.0.1"@,
        )->Ok_0.len(),
        forall|i: int|
            0 <= i < config::local_addrs(l, "127.0.0.1"@)->Ok_0.len() ==> encode_utf8(
                (#[trigger] config::local_addrs(l, "127.0.0.1"@)->Ok_0[i]).0,
            ).len() <= 255,
    ensures
        ({
            let remotes = config::policy_ports(sp.remote)->Ok_0;
            let locals = config::local_addrs(l, "127.0.0.1"@)->Ok_0;
            &&& config::expansion(sp) matches Err(e)
            &&& text::mentions(e, text::decimal(remotes.len()))
            &&& text::mentions(e, text::decimal(locals.len()))
        }),
{
    let remotes = config::policy_ports(sp.remote)->Ok_0;
    let locals = config::local_addrs(l, "127.0.0.1"@)->Ok_0;
    lemma_no_long_host(locals, 0);
    let e = config::expansion(sp)->Err_0;
    let a = text::decimal(remotes.len());
    let b = text::decimal(locals.len());
    let head = "`remote` has "@;
    let mid = " port(s) but `local` has "@;
    let tail = " — they must map positionally (or omit `local`)"@;
    assert(e =~= head + a + (mid + b + tail));
    text::lemma_mentions(head, a, mid + b + tail, e);
    text::lemma_mentions(head + a + mid, b, tail, e);
}

/// The complaints that show nothing: a blank host, an empty list, a count or a port
/// of 0, and a control port that leaves no room for the data port.
pub proof fn law_bare_complaints(
    a: Seq<char>,
    b: Seq<char>,
    items: Vec<LocalItem>,
    default_host: Seq<char>,
    s: ServerConfig,
    ctrl: ControlAddr,
    c: ClientConfig,
)
    ensures
        !b.contains(':') && text::trimmed(a).len() == 0 && text::port_number(text::trimmed(b))
            is Some ==> config::host_and_port(a + seq![':'] + b) == Err::<
            (Seq<char>, u16),
            Seq<char>,
        >("empty host"@),
        items@.len() == 0 ==> config::local_addrs(LocalSpec::Vec(items), default_host) == Err::<
            Seq<(Seq<char>, u16)>,
            Seq<char>,
        >("empty local list"@),
        s.data_port == Some(0u16) ==> config::server_addrs(s, Ok(ctrl)) == Err::<
            (ControlAddr, u16),
            Seq<char>,
        >("server.data_port must be >= 1"@),
        s.data_port is None && ctrl.port == 65535 ==> config::server_addrs(s, Ok(ctrl)) == Err::<
            (ControlAddr, u16),
            Seq<char>,
        >("control port is 65535; set server.data_port explicitly"@),
        c.channels == Some(0u8) && config::host_and_port(c.server@) is Ok ==> config::client_addrs(
            c,
        ) == Err::<(Seq<char>, u16, u8), Seq<char>>("client.channels must be >= 1"@),
{
    if !b.contains(':') {
        text::law_cut_last_of(a, ':', b);
    }
}

/// The complaint about a local address shows the port that cannot be read; a blank
/// host is complained about where the port can be read.
pub proof fn law_local_complaint(s: Seq<char>, default_host: Seq<char>)
    requires
        config::local_item(s, default_host) is Err,
    ensures
        ({
            let e = config::local_item(s, default_host)->Err_0;
            match text::cut_last(text::trimmed(s), ':') {
                Some((_, port)) => if text::port_number(text::trimmed(port)) is None {
                    text::mentions(e, text::quoted_text(port))
                } else {
                    e == "empty host in local addr"@
                },
                None => text::mentions(e, text::quoted_text(text::trimmed(s))),
            }
        }),
{
    let t = text::trimmed(s);
    match text::cut_last(t, ':') {
        Some((_, port)) => lemma_bad_port("bad port "@, port, text::trimmed(port)),
        None => lemma_bad_port("bad local port "@, t, t),
    }
}

proof fn lemma_first_item(items: Seq<LocalItem>, default_host: Seq<char>, k: int)
    requires
        0 <= k < items.len(),
        config::item_addr(items[k], default_host) is Err,
        forall|i: int|
            0 <= i < k ==> config::item_addr(#[trigger] items[i], default_host) is Ok,
    ensures
        config::items_addrs(items, default_host) == Err::<Seq<(Seq<char>, u16)>, Seq<char>>(
            config::item_addr(items[k], default_host)->Err_0,
        ),
    decreases items.len(),
{
    let rest = items.drop_last();
    if k < rest.len() {
        assert(rest[k] == items[k]);
        assert forall|i: int| 0 <= i < k implies config::item_addr(
            #[trigger] rest[i],
            default_host,
        ) is Ok by {
            assert(rest[i] == items[i]);
        }
        lemma_first_item(rest, default_host, k);
    } else {
        lemma_items_fine(rest, items, default_host);
    }
}

proof fn lemma_items_fine(items: Seq<LocalItem>, all: Seq<LocalItem>, default_host: Seq<char>)
    requires
        items.len() <= all.len(),
        items == all.take(items.len() as int),
        forall|i: int|
            0 <= i < items.len() ==> config::item_addr(#[trigger] all[i], default_host) is Ok,
    ensures
        config::items_addrs(items, default_host) is Ok,
    decreases items.len(),
{
    if items.len() > 0 {
        let k = items.len() - 1;
        assert(items.last() == all[k]);
        assert(items.drop_last() =~= all.take(k));
        lemma_items_fine(items.drop_last(), all, default_host);
    }
}

/// The complaint about a list of local addresses is that about its first item that
/// cannot be read.
pub proof fn law_local_list_complaint(v: Vec<LocalItem>, default_host: Seq<char>, k: int)
    requires
        0 <= k < v@.len(),
        config::item_addr(v@[k], default_host) is Err,
        forall|i: int|
            0 <= i < k ==> config::item_addr(#[trigger] v@[i], default_host) is Ok,
    ensures
        config::local_addrs(LocalSpec::Vec(v), default_host) == Err::<
            Seq<(Seq<char>, u16)>,
            Seq<char>,
        >(config::item_addr(v@[k], default_host)->Err_0),
{
    lemma_first_item(v@, default_host, k);
}

} // verus!
