//! What holds of the client as a whole: the proxy list does not depend on the
//! order in which the services were walked, and retries stay in their bounds.
use crate::client::{MAX_BACKOFF, MIN_BACKOFF};
use crate::client;
use crate::config::{Config, ControlAddr, ProxySpec};
use crate::config;
use crate::config_laws;
use crate::protocol::{FrameView, ProxyRegView};
use crate::protocol;
use crate::wire_laws;
use vstd::prelude::*;
use vstd::utf8::*;

verus! {

/// Of two different texts of bytes exactly one comes first.
pub proof fn law_bytes_total(a: Seq<u8>, b: Seq<u8>)
    ensures
        !(client::bytes_less(a, b) && client::bytes_less(b, a)),
        a != b ==> client::bytes_less(a, b) || client::bytes_less(b, a),
        a == b ==> !client::bytes_less(a, b),
    decreases a.len(),
{
    if a.len() > 0 && b.len() > 0 && a[0] == b[0] {
        law_bytes_total(a.skip(1), b.skip(1));
        if a.skip(1) == b.skip(1) {
            assert(a =~= seq![a[0]] + a.skip(1));
            assert(b =~= seq![b[0]] + b.skip(1));
        }
    } else if a.len() == 0 && b.len() == 0 {
        assert(a =~= b);
    }
}

/// What does not come after something that does not come after a third does not
/// come after the third.
proof fn lemma_bytes_transitive(a: Seq<u8>, b: Seq<u8>, c: Seq<u8>)
    requires
        !client::bytes_less(b, a),
        !client::bytes_less(c, b),
    ensures
        !client::bytes_less(c, a),
    decreases a.len(),
{
    if a.len() > 0 && b.len() > 0 && c.len() > 0 && a[0] == b[0] && b[0] == c[0] {
        lemma_bytes_transitive(a.skip(1), b.skip(1), c.skip(1));
    }
}

/// Of two different names exactly one comes first.
pub proof fn law_names_total(a: Seq<char>, b: Seq<char>)
    ensures
        !(client::name_less(a, b) && client::name_less(b, a)),
        a != b ==> client::name_less(a, b) || client::name_less(b, a),
{
    law_bytes_total(encode_utf8(a), encode_utf8(b));
    encode_utf8_decode_utf8(a);
    encode_utf8_decode_utf8(b);
}

proof fn lemma_spot(sorted: Seq<(String, ProxySpec)>, name: Seq<char>, from: int)
    requires
        0 <= from <= sorted.len(),
    ensures
        from <= client::spot(sorted, name, from) <= sorted.len(),
        forall|i: int| from <= i < client::spot(sorted, name, from) ==> !client::name_less(name, (#[trigger] sorted[i]).0@),
        client::spot(sorted, name, from) < sorted.len() ==> client::name_less(
            name,
            sorted[client::spot(sorted, name, from)].0@,
        ),
    decreases sorted.len() - from,
{
    if from < sorted.len() && !client::name_less(name, sorted[from].0@) {
        lemma_spot(sorted, name, from + 1);
    }
}

/// No name comes before one that stands in front of it.
pub open spec fn ordered(services: Seq<(String, ProxySpec)>) -> bool {
    forall|i: int, j: int|
        0 <= i < j < services.len() ==> !client::name_less(
            (#[trigger] services[j]).0@,
            (#[trigger] services[i]).0@,
        )
}

/// The ordered services are the services, and they are ordered by name.
pub proof fn law_by_name_sorts(services: Seq<(String, ProxySpec)>)
    ensures
        client::by_name(services).to_multiset() == services.to_multiset(),
        client::by_name(services).len() == services.len(),
        ordered(client::by_name(services)),
    decreases services.len(),
{
    broadcast use vstd::seq_lib::group_to_multiset_ensures;

    if services.len() > 0 {
        let rest = services.drop_last();
        let x = services.last();
        let s = client::by_name(rest);
        law_by_name_sorts(rest);
        lemma_spot(s, x.0@, 0);
        let p = client::spot(s, x.0@, 0);
        let r = s.insert(p, x);
        assert(services =~= rest.push(x));
        vstd::seq_lib::to_multiset_insert(s, p, x);
        assert forall|i: int, j: int| 0 <= i < j < r.len() implies !client::name_less(
            (#[trigger] r[j]).0@,
            (#[trigger] r[i]).0@,
        ) by {
            let si = if i < p {
                i
            } else {
                i - 1
            };
            let sj = if j < p {
                j
            } else {
                j - 1
            };
            if i != p {
                assert(r[i] == s[si]);
            }
            if j != p {
                assert(r[j] == s[sj]);
            }
            if i == p {
                // `x` comes before what stands at `p`, and that does not come
                // after what follows it
                law_names_total(x.0@, s[p].0@);
                if sj > p {
                    lemma_bytes_transitive(
                        encode_utf8(x.0@),
                        encode_utf8(s[p].0@),
                        encode_utf8(s[sj].0@),
                    );
                }
            }
        }
    }
}

proof fn lemma_order_unique(a: Seq<(String, ProxySpec)>, b: Seq<(String, ProxySpec)>)
    requires
        a.to_multiset() == b.to_multiset(),
        ordered(a),
        ordered(b),
        config::distinct_names(a),
    ensures
        a == b,
    decreases a.len(),
{
    broadcast use vstd::seq_lib::group_to_multiset_ensures;

    vstd::seq_lib::to_multiset_len(a);
    vstd::seq_lib::to_multiset_len(b);
    assert(a.len() == b.len());
    if a.len() == 0 {
        assert(a =~= b);
    } else {
        let k = a.len() - 1;
        let x = a[k];
        let y = b[k];
        assert(a.contains(x));
        assert(b.to_multiset().count(x) > 0);
        assert(b.contains(x));
        let i = choose|i: int| 0 <= i < b.len() && b[i] == x;
        assert(b.contains(y));
        assert(a.to_multiset().count(y) > 0);
        assert(a.contains(y));
        let j = choose|j: int| 0 <= j < a.len() && a[j] == y;
        law_names_total(x.0@, y.0@);
        if i < k {
            assert(!client::name_less(b[k].0@, b[i].0@));
        }
        if j < k {
            assert(!client::name_less(a[k].0@, a[j].0@));
            assert(a[j].0@ != a[k].0@);
        }
        assert(x == y);
        assert(a.drop_last() =~= a.remove(k));
        assert(b.drop_last() =~= b.remove(k));
        vstd::seq_lib::to_multiset_remove(a, k);
        vstd::seq_lib::to_multiset_remove(b, k);
        lemma_order_unique(a.drop_last(), b.drop_last());
        assert(a =~= a.drop_last().push(x));
        assert(b =~= b.drop_last().push(y));
    }
}

proof fn lemma_distinct_kept(a: Seq<(String, ProxySpec)>, b: Seq<(String, ProxySpec)>)
    requires
        a.to_multiset() == b.to_multiset(),
        config::distinct_names(a),
    ensures
        config::distinct_names(b),
{
    broadcast use vstd::seq_lib::group_to_multiset_ensures;

    assert forall|i: int, j: int| 0 <= i < j < b.len() implies (#[trigger] b[i]).0@ != (
    #[trigger] b[j]).0@ by {
        if b[i].0@ == b[j].0@ {
            assert(b.contains(b[i]) && b.contains(b[j]));
            assert(a.to_multiset().count(b[i]) > 0);
            assert(a.contains(b[i]));
            assert(a.to_multiset().count(b[j]) > 0);
            assert(a.contains(b[j]));
            let p = choose|p: int| 0 <= p < a.len() && a[p] == b[i];
            let q = choose|q: int| 0 <= q < a.len() && a[q] == b[j];
            assert(p == q);
            assert(a.no_duplicates()) by {
                assert forall|m: int, n: int|
                    0 <= m < a.len() && 0 <= n < a.len() && m != n implies a[m] != a[n] by {
                    if m < n {
                        assert(a[m].0@ != a[n].0@);
                    } else {
                        assert(a[n].0@ != a[m].0@);
                    }
                }
            }
            a.lemma_multiset_has_no_duplicates();
            let x = b[i];
            assert(a.to_multiset().contains(x));
            assert(b.to_multiset().count(x) == 1);
            vstd::seq_lib::to_multiset_remove(b, i);
            assert(b.remove(i)[j - 1] == x);
            assert(b.remove(i).contains(x));
            assert(b.remove(i).to_multiset().count(x) > 0);
        }
    }
}

/// The proxy list does not depend on the order in which the services were
/// walked.
pub proof fn law_walk_order_irrelevant(a: Config, b: Config)
    requires
        a.wf(),
        a.services@.to_multiset() == b.services@.to_multiset(),
    ensures
        client::services_regs(client::by_name(a.services@)) == client::services_regs(
            client::by_name(b.services@),
        ),
{
    law_by_name_sorts(a.services@);
    law_by_name_sorts(b.services@);
    lemma_distinct_kept(a.services@, client::by_name(a.services@));
    lemma_order_unique(client::by_name(a.services@), client::by_name(b.services@));
}

/// A registration that the wire can carry.
pub open spec fn carried(r: ProxyRegView) -> bool {
    wire_laws::short_text(r.name) && wire_laws::short_text(r.local_host)
}

proof fn lemma_regs_carried(services: Seq<(String, ProxySpec)>)
    requires
        forall|i: int|
            0 <= i < services.len() ==> encode_utf8((#[trigger] services[i]).0@).len() <= 255
                && config::expansion(services[i].1) is Ok,
    ensures
        forall|k: int|
            0 <= k < client::services_regs(services).len() ==> carried(
                #[trigger] client::services_regs(services)[k],
            ),
    decreases services.len(),
{
    if services.len() > 0 {
        let rest = services.drop_last();
        let x = services.last();
        assert(services[services.len() - 1] == x);
        assert forall|i: int| 0 <= i < rest.len() implies encode_utf8(
            (#[trigger] rest[i]).0@,
        ).len() <= 255 && config::expansion(rest[i].1) is Ok by {
            assert(services[i] == rest[i]);
        }
        lemma_regs_carried(rest);
        config_laws::law_expand_positional(x.1);
        let maps = config::expansion(x.1)->Ok_0;
        let head = client::services_regs(rest);
        let all = client::services_regs(services);
        assert forall|k: int| 0 <= k < all.len() implies carried(#[trigger] all[k]) by {
            if k < head.len() {
                assert(all[k] == head[k]);
            } else {
                assert(all[k] == client::reg_of(x.0@, maps[k - head.len()]));
            }
        }
    }
}

/// The proxy list of a valid config can be carried by the wire if it fits a
/// frame: no name or host is too long for its length byte.
pub proof fn law_valid_config_encodable(c: Config, bind: Result<ControlAddr, String>)
    requires
        config::config_complaint(c, bind) is None,
    ensures
        ({
            let regs = client::services_regs(client::by_name(c.services@));
            wire_laws::encodable(FrameView::Proxies(regs)) <==> protocol::payload_of(
                FrameView::Proxies(regs),
            ).len() <= u16::MAX
        }),
{
    broadcast use vstd::seq_lib::group_to_multiset_ensures;

    let sorted = client::by_name(c.services@);
    config_laws::law_valid_services(c, bind);
    law_by_name_sorts(c.services@);
    assert forall|i: int| 0 <= i < sorted.len() implies encode_utf8(
        (#[trigger] sorted[i]).0@,
    ).len() <= 255 && config::expansion(sorted[i].1) is Ok by {
        assert(sorted.contains(sorted[i]));
        assert(c.services@.to_multiset().count(sorted[i]) > 0);
        assert(c.services@.contains(sorted[i]));
        let k = choose|k: int| 0 <= k < c.services@.len() && c.services@[k] == sorted[i];
        assert(encode_utf8(c.services@[k].0@).len() <= 255);
    }
    lemma_regs_carried(sorted);
    let regs = client::services_regs(sorted);
    assert forall|i: int| 0 <= i < regs.len() implies wire_laws::short_text(
        (#[trigger] regs[i]).name,
    ) && wire_laws::short_text(regs[i].local_host) by {
        assert(carried(regs[i]));
    }
}

/// The backoff after `k` failed attempts in a row.
pub open spec fn backoff_after(k: nat) -> u64
    decreases k,
{
    if k == 0 {
        MIN_BACKOFF
    } else {
        client::next_backoff(backoff_after((k - 1) as nat), false)
    }
}

/// The backoff doubles with every failure, from `MIN_BACKOFF` up to
/// `MAX_BACKOFF`, where it stays.
pub proof fn law_backoff_doubles(k: nat)
    ensures
        MIN_BACKOFF <= backoff_after(k) <= MAX_BACKOFF,
        backoff_after(k) <= backoff_after(k + 1),
        backoff_after(k + 1) == 2 * backoff_after(k) || backoff_after(k + 1) == MAX_BACKOFF,
        k >= 7 ==> backoff_after(k) == MAX_BACKOFF,
    decreases k,
{
    if k > 0 {
        law_backoff_doubles((k - 1) as nat);
    }
    if k <= 7 {
        reveal_with_fuel(backoff_after, 9);
    }
}

/// After any number of failures, a connection that ran is retried as promptly as
/// the first time, and the backoff starts over.
pub proof fn law_prompt_after_run(k: nat)
    ensures
        client::delay_base(backoff_after(k), false) == backoff_after(k),
        client::delay_base(backoff_after(k), true) == MIN_BACKOFF,
        client::next_backoff(backoff_after(k), true) == backoff_after(0),
{
}

} // verus!
