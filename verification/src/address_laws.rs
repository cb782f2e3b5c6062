//! What ports and addresses in texts stand for: the texts are taken apart and
//! put together again.
use crate::config::{ClientConfig, LocalItem, LocalSpec, PortItem, PortPolicy};
use crate::config;
use crate::text;
use vstd::prelude::*;

verus! {

proof fn lemma_decimal(p: u16)
    ensures
        ({
            let d = text::decimal(p as nat);
            &&& d.len() > 0
            &&& !text::is_white_space(d[0])
            &&& !text::is_white_space(d.last())
            &&& !d.contains('-')
            &&& !d.contains(':')
            &&& text::trimmed(d) == d
            &&& text::port_number(d) == Some(p)
        }),
{
    let d = text::decimal(p as nat);
    text::law_decimal(p as nat);
    text::law_port_text(p);
    assert(text::is_digit(d[0]) && text::is_digit(d.last()));
    assert forall|i: int| 0 <= i < d.len() implies d[i] != '-' && d[i] != ':' by {
        assert(text::is_digit(d[i]));
    }
    text::lemma_digits_trimmed(d);
}

/// The ports from `a` to `b`: each of them once, in order, and no other.
pub proof fn law_ports_between(a: u16, b: u16, p: u16)
    requires
        a <= b,
    ensures
        config::ports_between(a, b).len() == b - a + 1,
        forall|i: int|
            0 <= i <= b - a ==> #[trigger] config::ports_between(a, b)[i] == a + i,
        config::ports_between(a, b).contains(p) <==> a <= p <= b,
{
    let ps = config::ports_between(a, b);
    if a <= p <= b {
        assert(ps[p - a] == p);
    }
}

/// Are `ps` the ports from `a` to `b`, in order?
pub open spec fn runs_from_to(ps: Seq<u16>, a: u16, b: u16) -> bool {
    &&& a <= b
    &&& ps.len() == b - a + 1
    &&& forall|i: int| 0 <= i < ps.len() ==> #[trigger] ps[i] == a + i
}

/// "a-b" stands for all ports from `a` to `b`, both of them included, in order,
/// and for no other, whatever white space is around the numbers; it is refused
/// where `a` is above `b`.
pub proof fn law_range(
    a: u16,
    b: u16,
    w1: Seq<char>,
    w2: Seq<char>,
    w3: Seq<char>,
    w4: Seq<char>,
    p: u16,
)
    requires
        text::all_white(w1),
        text::all_white(w2),
        text::all_white(w3),
        text::all_white(w4),
    ensures
        ({
            let s = w1 + text::decimal(a as nat) + w2 + seq!['-'] + w3 + text::decimal(b as nat)
                + w4;
            &&& config::range_ports(s) is Ok <==> a <= b
            &&& config::range_ports(s) matches Ok(ps) ==> {
                &&& runs_from_to(ps, a, b)
                &&& ps[0] == a
                &&& ps.last() == b
                &&& ps.contains(p) <==> a <= p <= b
            }
        }),
{
    let x = text::decimal(a as nat);
    let y = text::decimal(b as nat);
    let left = x + w2;
    let right = w3 + y;
    let t = left + seq!['-'] + right;
    let s = w1 + x + w2 + seq!['-'] + w3 + y + w4;
    let none = Seq::<char>::empty();
    lemma_decimal(a);
    lemma_decimal(b);
    assert(s =~= w1 + t + w4);
    assert(t[0] == x[0] && t.last() == y.last());
    text::law_trim_between(w1, t, w4);
    assert(!left.contains('-')) by {
        assert forall|i: int| 0 <= i < left.len() implies left[i] != '-' by {
            if i < x.len() {
                assert(left[i] == x[i]);
            } else {
                assert(left[i] == w2[i - x.len()]);
            }
        }
    }
    text::law_cut_first_of(left, '-', right);
    assert(none + x + w2 =~= left);
    text::law_trim_between(none, x, w2);
    assert(w3 + y + none =~= right);
    text::law_trim_between(w3, y, none);
    if a <= b {
        law_ports_between(a, b, p);
    }
}

/// A single port stands for itself, whatever white space is around it.
pub proof fn law_single_port(p: u16, w1: Seq<char>, w2: Seq<char>)
    requires
        text::all_white(w1),
        text::all_white(w2),
    ensures
        config::range_ports(w1 + text::decimal(p as nat) + w2) == Ok::<Seq<u16>, Seq<char>>(
            seq![p],
        ),
{
    let d = text::decimal(p as nat);
    lemma_decimal(p);
    text::law_trim_between(w1, d, w2);
    text::law_cut_first(d, '-');
    if let Some((a, b)) = text::cut_first(d, '-') {
        assert(d[a.len() as int] == '-');
    }
}

/// What is read as ports is a run of ports: one number, or two with the second
/// no smaller.
pub proof fn law_range_read(s: Seq<char>) -> (r: (u16, u16))
    requires
        config::range_ports(s) is Ok,
    ensures
        runs_from_to(config::range_ports(s)->Ok_0, r.0, r.1),
        match text::cut_first(text::trimmed(s), '-') {
            Some((a, b)) => text::port_number(text::trimmed(a)) == Some(r.0) && text::port_number(
                text::trimmed(b),
            ) == Some(r.1),
            None => text::port_number(text::trimmed(s)) == Some(r.0) && r.0 == r.1,
        },
{
    let t = text::trimmed(s);
    match text::cut_first(t, '-') {
        Some((a, b)) => {
            let x = text::port_number(text::trimmed(a))->Some_0;
            let y = text::port_number(text::trimmed(b))->Some_0;
            law_ports_between(x, y, x);
            (x, y)
        },
        None => {
            let x = text::port_number(t)->Some_0;
            (x, x)
        },
    }
}

/// A text that holds no number where one belongs is refused.
pub proof fn law_range_refused(s: Seq<char>)
    ensures
        config::range_ports(s) is Err <==> match text::cut_first(text::trimmed(s), '-') {
            Some((a, b)) => {
                ||| text::port_number(text::trimmed(a)) is None
                ||| text::port_number(text::trimmed(b)) is None
                ||| text::port_number(text::trimmed(a))->Some_0 > text::port_number(
                    text::trimmed(b),
                )->Some_0
            },
            None => text::port_number(text::trimmed(s)) is None,
        },
{
}

// ---- lists of ports ----

/// The ports of an item.
pub proof fn law_item(p: u16, s: String)
    ensures
        config::item_ports(PortItem::Num(p)) == Ok::<Seq<u16>, Seq<char>>(seq![p]),
        config::item_ports(PortItem::Str(s)) == config::range_ports(s@),
        config::policy_ports(PortPolicy::Num(p)) == Ok::<Seq<u16>, Seq<char>>(seq![p]),
        config::policy_ports(PortPolicy::Str(s)) == config::range_ports(s@),
{
}

proof fn lemma_items_ok(items: Seq<PortItem>)
    ensures
        config::items_ports(items) is Ok <==> forall|i: int|
            0 <= i < items.len() ==> config::item_ports(#[trigger] items[i]) is Ok,
    decreases items.len(),
{
    if items.len() > 0 {
        let rest = items.drop_last();
        lemma_items_ok(rest);
        assert forall|i: int| 0 <= i < rest.len() implies rest[i] == items[i] by {}
        if config::items_ports(items) is Ok {
            assert forall|i: int| 0 <= i < items.len() implies config::item_ports(
                #[trigger] items[i],
            ) is Ok by {
                if i < rest.len() {
                    assert(rest[i] == items[i]);
                }
            }
        } else if config::items_ports(rest) is Err {
            let i = choose|i: int|
                0 <= i < rest.len() && config::item_ports(#[trigger] rest[i]) is Err;
            assert(items[i] == rest[i]);
        } else {
            assert(items[items.len() - 1] == items.last());
        }
    }
}

proof fn lemma_items_add(a: Seq<PortItem>, b: Seq<PortItem>)
    requires
        config::items_ports(a) is Ok,
        config::items_ports(b) is Ok,
    ensures
        config::items_ports(a + b) == Ok::<Seq<u16>, Seq<char>>(
            config::items_ports(a)->Ok_0 + config::items_ports(b)->Ok_0,
        ),
    decreases b.len(),
{
    let ps = config::items_ports(a)->Ok_0;
    if b.len() == 0 {
        assert(a + b =~= a);
        assert(ps + config::items_ports(b)->Ok_0 =~= ps);
    } else {
        assert((a + b).drop_last() =~= a + b.drop_last());
        lemma_items_add(a, b.drop_last());
        let qs = config::items_ports(b.drop_last())->Ok_0;
        let rs = config::item_ports(b.last())->Ok_0;
        assert(ps + qs + rs =~= ps + (qs + rs));
    }
}

proof fn lemma_items_one(x: PortItem)
    ensures
        config::items_ports(seq![x]) == config::item_ports(x),
{
    reveal_with_fuel(config::items_ports, 2);
    assert(seq![x].drop_last() =~= Seq::<PortItem>::empty());
    if let Ok(ps) = config::item_ports(x) {
        assert(Seq::<u16>::empty() + ps =~= ps);
    }
}

/// A list of ports can be read exactly where it is not empty and each of its
/// items can be read; then it gives the ports of the items, one item after the
/// other.
pub proof fn law_list(items: Vec<PortItem>, k: int)
    requires
        0 <= k < items@.len(),
    ensures
        config::policy_ports(PortPolicy::Vec(items)) is Ok <==> forall|i: int|
            0 <= i < items@.len() ==> config::item_ports(#[trigger] items@[i]) is Ok,
        config::policy_ports(PortPolicy::Vec(items)) matches Ok(ps) ==> {
            &&& config::items_ports(items@.take(k)) is Ok
            &&& config::items_ports(items@.skip(k + 1)) is Ok
            &&& ps == config::items_ports(items@.take(k))->Ok_0 + config::item_ports(
                items@[k],
            )->Ok_0 + config::items_ports(items@.skip(k + 1))->Ok_0
        },
{
    let all = items@;
    lemma_items_ok(all);
    if config::items_ports(all) is Ok {
        let a = all.take(k);
        let x = seq![all[k]];
        let b = all.skip(k + 1);
        lemma_items_ok(a);
        lemma_items_ok(b);
        assert forall|i: int| 0 <= i < a.len() implies config::item_ports(#[trigger] a[i]) is Ok by {
            assert(a[i] == all[i]);
        }
        assert forall|i: int| 0 <= i < b.len() implies config::item_ports(#[trigger] b[i]) is Ok by {
            assert(b[i] == all[k + 1 + i]);
        }
        lemma_items_one(all[k]);
        lemma_items_add(a, x);
        lemma_items_add(a + x, b);
        assert(a + x + b =~= all);
    }
}

/// An empty list of ports cannot be read, and a list of one is that one.
pub proof fn law_short_list(items: Vec<PortItem>)
    ensures
        items@.len() == 0 ==> config::policy_ports(PortPolicy::Vec(items)) == Err::<
            Seq<u16>,
            Seq<char>,
        >("empty port list"@),
        items@.len() == 1 ==> config::policy_ports(PortPolicy::Vec(items)) == config::item_ports(
            items@[0],
        ),
{
    if items@.len() == 1 {
        assert(items@ =~= seq![items@[0]]);
        lemma_items_one(items@[0]);
    }
}

/// The complaint about a list is that about its first item that cannot be read.
pub proof fn law_list_complaint(items: Vec<PortItem>, k: int)
    requires
        0 <= k < items@.len(),
        config::item_ports(items@[k]) is Err,
        forall|i: int| 0 <= i < k ==> config::item_ports(#[trigger] items@[i]) is Ok,
    ensures
        config::policy_ports(PortPolicy::Vec(items)) == config::item_ports(items@[k]),
{
    let head = items@.take(k);
    lemma_items_ok(head);
    assert forall|i: int| 0 <= i < head.len() implies config::item_ports(
        #[trigger] head[i],
    ) is Ok by {
        assert(head[i] == items@[i]);
    }
    lemma_first_complaint(items@, k + 1);
}

proof fn lemma_first_complaint(items: Seq<PortItem>, n: int)
    requires
        0 < n <= items.len(),
        config::items_ports(items.take(n - 1)) is Ok,
        config::item_ports(items[n - 1]) is Err,
    ensures
        config::items_ports(items) == config::item_ports(items[n - 1]),
    decreases items.len(),
{
    if n == items.len() {
        assert(items.drop_last() =~= items.take(n - 1));
    } else {
        let rest = items.drop_last();
        assert(rest.take(n - 1) =~= items.take(n - 1));
        lemma_first_complaint(rest, n);
    }
}

// ---- host and port ----

/// A text is read as host and port exactly where it is a host that is not blank,
/// a colon and a port; host and port are those, without the white space around
/// them.
pub proof fn law_host_and_port(a: Seq<char>, b: Seq<char>)
    requires
        !b.contains(':'),
    ensures
        config::host_and_port(a + seq![':'] + b) is Ok <==> text::trimmed(a).len() > 0
            && text::port_number(text::trimmed(b)) is Some,
        config::host_and_port(a + seq![':'] + b) matches Ok((h, p)) ==> h == text::trimmed(a)
            && text::port_number(text::trimmed(b)) == Some(p),
{
    text::law_cut_last_of(a, ':', b);
}

/// A text without a colon is no host and port.
pub proof fn law_no_colon(s: Seq<char>)
    requires
        !s.contains(':'),
    ensures
        config::host_and_port(s) is Err,
{
    text::law_cut_last(s, ':');
    if let Some((a, b)) = text::cut_last(s, ':') {
        assert(s[a.len() as int] == ':');
    }
}

/// A host and a port, written with a colon between them, are read back.
pub proof fn law_host_and_port_read_back(host: Seq<char>, p: u16)
    requires
        host.len() > 0,
        !text::is_white_space(host[0]),
        !text::is_white_space(host.last()),
    ensures
        config::host_and_port(host + seq![':'] + text::decimal(p as nat)) == Ok::<
            (Seq<char>, u16),
            Seq<char>,
        >((host, p)),
        config::host_and_port(text::host_port(host, p)) == Ok::<(Seq<char>, u16), Seq<char>>(
            (host, p),
        ),
{
    let none = Seq::<char>::empty();
    let d = text::decimal(p as nat);
    lemma_decimal(p);
    assert(none + host + none =~= host);
    text::law_trim_between(none, host, none);
    law_host_and_port(host, d);
    reveal_strlit(":");
    assert(text::host_port(host, p) =~= host + seq![':'] + d);
}

/// A client dials the host and the port that its config names, with as many
/// channels as it says, or 8.
pub proof fn law_client_dials(c: ClientConfig, host: Seq<char>, p: u16)
    requires
        host.len() > 0,
        !text::is_white_space(host[0]),
        !text::is_white_space(host.last()),
        c.server@ == host + seq![':'] + text::decimal(p as nat),
    ensures
        c.channels is None ==> config::client_addrs(c) == Ok::<(Seq<char>, u16, u8), Seq<char>>(
            (host, p, 8),
        ),
        c.channels matches Some(n) ==> (config::client_addrs(c) is Ok <==> 1 <= n <= 64),
        c.channels matches Some(n) ==> (1 <= n <= 64 ==> config::client_addrs(c) == Ok::<
            (Seq<char>, u16, u8),
            Seq<char>,
        >((host, p, n))),
{
    law_host_and_port_read_back(host, p);
}

/// A client can be resolved exactly where its server text can be read and its
/// channel count, if it has one, is in range; it gets what stands in the text.
pub proof fn law_client_resolved(c: ClientConfig)
    ensures
        config::client_addrs(c) is Ok <==> config::host_and_port(c.server@) is Ok && (
        c.channels matches Some(n) ==> 1 <= n <= 64),
        config::client_addrs(c) matches Ok((host, port, n)) ==> {
            &&& config::host_and_port(c.server@) == Ok::<(Seq<char>, u16), Seq<char>>((host, port))
            &&& n == (match c.channels {
                Some(k) => k,
                None => 8,
            })
        },
{
}

// ---- local addresses ----

proof fn lemma_is_trimmed(s: Seq<char>)
    requires
        s.len() > 0 ==> !text::is_white_space(s[0]) && !text::is_white_space(s.last()),
    ensures
        text::trimmed(s) == s,
{
    let none = Seq::<char>::empty();
    assert(none + s + none =~= s);
    text::law_trim_between(none, s, none);
}

proof fn lemma_dec_no_cut(p: u16)
    ensures
        text::cut_last(text::decimal(p as nat), ':') is None,
        text::first_at(text::decimal(p as nat), '-', 0) is None,
{
    let d = text::decimal(p as nat);
    lemma_decimal(p);
    text::law_cut_last(d, ':');
    if let Some((a, b)) = text::cut_last(d, ':') {
        assert(d[a.len() as int] == ':');
    }
    text::law_cut_first(d, '-');
    if let Some((a, b)) = text::cut_first(d, '-') {
        assert(d[a.len() as int] == '-');
    }
}

/// A bare port is on the default host; "host:port" is on its own.
pub proof fn law_local_item(host: Seq<char>, p: u16, default_host: Seq<char>)
    requires
        host.len() > 0,
        !text::is_white_space(host[0]),
        !text::is_white_space(host.last()),
    ensures
        config::local_item(text::decimal(p as nat), default_host) == Ok::<
            (Seq<char>, u16),
            Seq<char>,
        >((default_host, p)),
        config::local_item(host + seq![':'] + text::decimal(p as nat), default_host) == Ok::<
            (Seq<char>, u16),
            Seq<char>,
        >((host, p)),
{
    let d = text::decimal(p as nat);
    let s = host + seq![':'] + d;
    lemma_decimal(p);
    lemma_dec_no_cut(p);
    assert(s[0] == host[0] && s.last() == d.last());
    lemma_is_trimmed(s);
    lemma_is_trimmed(host);
    text::law_cut_last_of(host, ':', d);
}

/// What is read as the address of an item stands in it: the port, and the host or
/// the default host. It can be read exactly where the port can and a host that
/// is there is not blank.
pub proof fn law_local_item_read(s: Seq<char>, default_host: Seq<char>)
    ensures
        config::local_item(s, default_host) is Ok <==> match text::cut_last(
            text::trimmed(s),
            ':',
        ) {
            Some((a, b)) => text::trimmed(a).len() > 0 && text::port_number(text::trimmed(b))
                is Some,
            None => text::port_number(text::trimmed(s)) is Some,
        },
        config::local_item(s, default_host) matches Ok((h, p)) ==> match text::cut_last(
            text::trimmed(s),
            ':',
        ) {
            Some((a, b)) => h == text::trimmed(a) && h.len() > 0 && text::port_number(
                text::trimmed(b),
            ) == Some(p),
            None => h == default_host && text::port_number(text::trimmed(s)) == Some(p),
        },
{
}

proof fn lemma_dash_found(a: Seq<char>, b: Seq<char>)
    ensures
        config::has_range(a + seq!['-'] + b),
{
    let s = a + seq!['-'] + b;
    text::law_cut_first(s, '-');
    assert(s[a.len() as int] == '-');
}

proof fn lemma_no_cut(s: Seq<char>, c: char)
    requires
        !s.contains(c),
    ensures
        text::cut_last(s, c) is None,
        text::cut_first(s, c) is None,
{
    text::law_cut_last(s, c);
    text::law_cut_first(s, c);
    if let Some((a, b)) = text::cut_last(s, c) {
        assert(s[a.len() as int] == c);
    }
    if let Some((a, b)) = text::cut_first(s, c) {
        assert(s[a.len() as int] == c);
    }
}

/// Are `locals` the ports from `a` to `b`, in order, all on `host`?
pub open spec fn runs_on_host(
    locals: Seq<(Seq<char>, u16)>,
    host: Seq<char>,
    a: u16,
    b: u16,
) -> bool {
    &&& a <= b
    &&& locals.len() == b - a + 1
    &&& forall|i: int|
        0 <= i < locals.len() ==> (#[trigger] locals[i]).0 == host && locals[i].1 == a + i
}

/// The text of a local address: "a-b" is a range on the default host, "host:a-b"
/// one on its own host, "p" a port on the default host and "host:p" one on its
/// own host. A `-` in the host does not matter.
pub proof fn law_local_text(host: Seq<char>, a: u16, b: u16, default_host: Seq<char>)
    requires
        host.len() > 0,
        !text::is_white_space(host[0]),
        !text::is_white_space(host.last()),
        a <= b,
    ensures
        ({
            let x = text::decimal(a as nat);
            let range = x + seq!['-'] + text::decimal(b as nat);
            &&& config::local_text(range, default_host) matches Ok(v) && runs_on_host(
                v,
                default_host,
                a,
                b,
            )
            &&& config::local_text(host + seq![':'] + range, default_host) matches Ok(v)
                && runs_on_host(v, host, a, b)
            &&& config::local_text(x, default_host) == Ok::<Seq<(Seq<char>, u16)>, Seq<char>>(
                seq![(default_host, a)],
            )
            &&& config::local_text(host + seq![':'] + x, default_host) == Ok::<
                Seq<(Seq<char>, u16)>,
                Seq<char>,
            >(seq![(host, a)])
        }),
{
    let none = Seq::<char>::empty();
    let x = text::decimal(a as nat);
    let y = text::decimal(b as nat);
    let range = x + seq!['-'] + y;
    lemma_decimal(a);
    lemma_decimal(b);
    lemma_is_trimmed(host);
    law_range(a, b, none, none, none, none, a);
    assert(none + x + none + seq!['-'] + none + y + none =~= range);
    let ps = config::range_ports(range)->Ok_0;
    lemma_dash_found(x, y);
    // on the default host
    assert(range[0] == x[0] && range.last() == y.last());
    lemma_is_trimmed(range);
    assert(!range.contains(':')) by {
        assert forall|i: int| 0 <= i < range.len() implies range[i] != ':' by {
            if i < x.len() {
                assert(range[i] == x[i]);
            } else if i > x.len() {
                assert(range[i] == y[i - x.len() - 1]);
            }
        }
    }
    lemma_no_cut(range, ':');
    assert(runs_on_host(config::on_host(default_host, ps), default_host, a, b));
    // on its own host
    let s = host + seq![':'] + range;
    assert(s[0] == host[0] && s.last() == y.last());
    lemma_is_trimmed(s);
    text::law_cut_last_of(host, ':', range);
    assert(runs_on_host(config::on_host(host, ps), host, a, b));
    // a single port
    law_local_item(host, a, default_host);
    lemma_dec_no_cut(a);
    let t = host + seq![':'] + x;
    assert(t[0] == host[0] && t.last() == x.last());
    lemma_is_trimmed(t);
    text::law_cut_last_of(host, ':', x);
}

/// A local address is read as a range exactly where there is a `-` behind its last
/// colon, or anywhere where there is no colon: then it is the ports of the range,
/// in order, each on the host in front of the colon or on the default host.
/// Otherwise it is read as a single address.
pub proof fn law_local_text_read(s: Seq<char>, default_host: Seq<char>)
    ensures
        match text::cut_last(text::trimmed(s), ':') {
            Some((a, b)) => if b.contains('-') {
                let v = config::local_text(s, default_host);
                &&& v is Ok <==> config::range_ports(b) is Ok && text::trimmed(a).len() > 0
                &&& v matches Ok(locals) ==> {
                    let ps = config::range_ports(b)->Ok_0;
                    &&& locals.len() == ps.len()
                    &&& forall|i: int|
                        0 <= i < locals.len() ==> (#[trigger] locals[i]).0 == text::trimmed(a)
                            && locals[i].1 == ps[i]
                }
            } else {
                lone(config::local_text(s, default_host), config::local_item(s, default_host))
            },
            None => if text::trimmed(s).contains('-') {
                let v = config::local_text(s, default_host);
                &&& v is Ok <==> config::range_ports(s) is Ok
                &&& v matches Ok(locals) ==> {
                    let ps = config::range_ports(s)->Ok_0;
                    &&& locals.len() == ps.len()
                    &&& forall|i: int|
                        0 <= i < locals.len() ==> (#[trigger] locals[i]).0 == default_host
                            && locals[i].1 == ps[i]
                }
            } else {
                lone(config::local_text(s, default_host), config::local_item(s, default_host))
            },
        },
{
    let t = text::trimmed(s);
    lemma_trimmed_twice(s);
    match text::cut_last(t, ':') {
        Some((a, b)) => text::law_cut_first(b, '-'),
        None => text::law_cut_first(t, '-'),
    }
    let ports = match text::cut_last(t, ':') {
        Some((_, b)) => b,
        None => t,
    };
    if ports.contains('-') {
        lemma_dash_somewhere(ports);
    } else {
        lemma_no_cut(ports, '-');
    }
}

/// Is the list `all` the one address `one`, or an error where that is?
pub open spec fn lone(
    all: Result<Seq<(Seq<char>, u16)>, Seq<char>>,
    one: Result<(Seq<char>, u16), Seq<char>>,
) -> bool {
    match one {
        Ok(a) => all == Ok::<Seq<(Seq<char>, u16)>, Seq<char>>(seq![a]),
        Err(e) => all == Err::<Seq<(Seq<char>, u16)>, Seq<char>>(e),
    }
}

proof fn lemma_trimmed_twice(s: Seq<char>)
    ensures
        text::trimmed(text::trimmed(s)) == text::trimmed(s),
{
    text::law_trimmed(s);
    lemma_is_trimmed(text::trimmed(s));
}

proof fn lemma_dash_somewhere(s: Seq<char>)
    requires
        s.contains('-'),
    ensures
        config::has_range(s),
{
    text::law_cut_first(s, '-');
}

proof fn lemma_items_addrs(items: Seq<LocalItem>, default_host: Seq<char>)
    ensures
        config::items_addrs(items, default_host) is Ok <==> forall|i: int|
            0 <= i < items.len() ==> config::item_addr(#[trigger] items[i], default_host) is Ok,
        config::items_addrs(items, default_host) matches Ok(v) ==> v.len() == items.len()
            && forall|i: int|
            0 <= i < items.len() ==> config::item_addr(#[trigger] items[i], default_host) == Ok::<
                (Seq<char>, u16),
                Seq<char>,
            >(v[i]),
    decreases items.len(),
{
    if items.len() > 0 {
        let rest = items.drop_last();
        lemma_items_addrs(rest, default_host);
        if let Ok(v) = config::items_addrs(items, default_host) {
            let w = config::items_addrs(rest, default_host)->Ok_0;
            assert forall|i: int| 0 <= i < items.len() implies config::item_addr(
                #[trigger] items[i],
                default_host,
            ) == Ok::<(Seq<char>, u16), Seq<char>>(v[i]) by {
                if i < rest.len() {
                    assert(rest[i] == items[i]);
                    assert(v[i] == w[i]);
                }
            }
        } else if config::items_addrs(rest, default_host) is Err {
            let i = choose|i: int|
                0 <= i < rest.len() && config::item_addr(#[trigger] rest[i], default_host) is Err;
            assert(items[i] == rest[i]);
        } else {
            assert(items[items.len() - 1] == items.last());
        }
    }
}

/// A local address: a port is on the default host, and a list gives one address
/// for each of its items, in order; it can be read exactly where it is not
/// empty and each of its items can be read.
pub proof fn law_local_addrs(v: Vec<LocalItem>, p: u16, s: String, default_host: Seq<char>)
    ensures
        config::local_addrs(LocalSpec::Num(p), default_host) == Ok::<
            Seq<(Seq<char>, u16)>,
            Seq<char>,
        >(seq![(default_host, p)]),
        config::local_addrs(LocalSpec::Str(s), default_host) == config::local_text(
            s@,
            default_host,
        ),
        config::item_addr(LocalItem::Num(p), default_host) == Ok::<(Seq<char>, u16), Seq<char>>(
            (default_host, p),
        ),
        config::item_addr(LocalItem::Str(s), default_host) == config::local_item(s@, default_host),
        config::local_addrs(LocalSpec::Vec(v), default_host) is Ok <==> v@.len() > 0 && forall|
            i: int,
        |
            0 <= i < v@.len() ==> config::item_addr(#[trigger] v@[i], default_host) is Ok,
        config::local_addrs(LocalSpec::Vec(v), default_host) matches Ok(locals) ==> locals.len()
            == v@.len() && forall|i: int|
            0 <= i < v@.len() ==> config::item_addr(#[trigger] v@[i], default_host) == Ok::<
                (Seq<char>, u16),
                Seq<char>,
            >(locals[i]),
{
    lemma_items_addrs(v@, default_host);
}

} // verus!
