//! Server discovery: the order of the answers to the service lookup, with a fallback list behind
//! it. Resolve at start and again between the first attempt and the second, never persist.

use vstd::prelude::*;

use super::sorting::{is_sorted, sort, Ranked};
use crate::text;
use crate::text::{in_dictionary_order, strings, stripped_end};

verus! {

/// One answer to the service lookup, the fields the ordering needs.
#[derive(Debug, Clone, PartialEq, Eq)]
pub struct SrvRecord {
    pub priority: u16,
    pub weight: u16,
    pub port: u16,
    pub target: String,
}

/// The order to try servers in: lower priority first, then higher weight, then name.
pub open spec fn tried_before(a: SrvRecord, b: SrvRecord) -> bool {
    if a.priority != b.priority {
        a.priority < b.priority
    } else if a.weight != b.weight {
        a.weight > b.weight
    } else {
        in_dictionary_order(a.target@, b.target@)
    }
}

impl Ranked for SrvRecord {
    open spec fn may_precede(a: SrvRecord, b: SrvRecord) -> bool {
        tried_before(a, b)
    }

    proof fn is_total(a: SrvRecord, b: SrvRecord) {
        text::dictionary_order_is_total(a.target@, b.target@);
    }

    proof fn is_transitive(a: SrvRecord, b: SrvRecord, c: SrvRecord) {
        if in_dictionary_order(a.target@, b.target@) && in_dictionary_order(b.target@, c.target@) {
            text::dictionary_order_is_transitive(a.target@, b.target@, c.target@);
        }
    }

    fn precedes(&self, other: &SrvRecord) -> (r: bool) {
        if self.priority != other.priority {
            self.priority < other.priority
        } else if self.weight != other.weight {
            self.weight > other.weight
        } else {
            text::not_after(self.target.as_str(), other.target.as_str())
        }
    }
}

/// The hosts for when the lookup brings nothing.
pub open spec fn fallbacks() -> Seq<Seq<char>> {
    seq!["de1.api.radio-browser.info"@, "all.api.radio-browser.info"@]
}

pub fn fallback_hosts() -> (hosts: Vec<String>)
    ensures
        strings(hosts@) == fallbacks(),
{
    let mut hosts: Vec<String> = Vec::new();
    hosts.push("de1.api.radio-browser.info".to_owned());
    hosts.push("all.api.radio-browser.info".to_owned());
    assert(strings(hosts@) =~= fallbacks());
    hosts
}

/// The hosts of the records, without the dot at their end.
pub open spec fn hosts_of(records: Seq<SrvRecord>) -> Seq<Seq<char>> {
    records.map_values(|r: SrvRecord| stripped_end(r.target@, '.'))
}

/// `s` without what repeats the one before it.
pub open spec fn undoubled(s: Seq<Seq<char>>) -> Seq<Seq<char>>
    decreases s.len(),
{
    if s.len() <= 1 {
        s
    } else if s.last() == s[s.len() - 2] {
        undoubled(s.drop_last())
    } else {
        undoubled(s.drop_last()).push(s.last())
    }
}

/// `hosts` are the hosts of the records in the order to try them in.
pub open spec fn is_order(records: Seq<SrvRecord>, hosts: Seq<Seq<char>>) -> bool {
    exists|sorted: Seq<SrvRecord>| #[trigger]
        is_sorted(sorted) && sorted.to_multiset() == records.to_multiset() && hosts == undoubled(
            hosts_of(sorted),
        )
}

/// Hosts in the order to try: lower priority first, then higher weight, then name. Targets are
/// returned without their trailing dot. No records: the fallback list.
pub fn order(records: Vec<SrvRecord>) -> (hosts: Vec<String>)
    ensures
        records@.len() == 0 ==> strings(hosts@) == fallbacks(),
        records@.len() > 0 ==> is_order(records@, strings(hosts@)),
        hosts@.len() > 0,
{
    if records.len() == 0 {
        let hosts = fallback_hosts();
        assert(strings(hosts@).len() == hosts@.len());
        return hosts;
    }
    let sorted = sort(records);
    let ghost all = hosts_of(sorted@);
    let mut hosts: Vec<String> = Vec::new();
    let mut i: usize = 0;
    assert(strings(hosts@) =~= undoubled(all.take(0)));
    while i < sorted.len()
        invariant
            i <= sorted.len(),
            all == hosts_of(sorted@),
            strings(hosts@) == undoubled(all.take(i as int)),
            i > 0 ==> hosts@.len() > 0 && hosts@.last()@ == all[i - 1],
        decreases sorted.len() - i,
    {
        let target = text::chars_of(sorted[i].target.as_str());
        let host = text::string_of(text::strip_end(&target, '.'));
        let n: usize = hosts.len();
        let ghost before = hosts@;
        proof {
            assert(host@ == all[i as int]);
            assert(all.take(i + 1).drop_last() =~= all.take(i as int));
            assert(all.take(i + 1).last() == host@);
            assert(strings(before).len() == before.len());
            if i > 0 {
                assert(all.take(i + 1)[i - 1] == all[i - 1]);
            }
        }
        if n == 0 || hosts[n - 1] != host {
            hosts.push(host);
            assert(strings(hosts@) =~= strings(before).push(all[i as int]));
            assert(i == 0 ==> before.len() == 0);
            assert(strings(hosts@) =~= undoubled(all.take(i + 1)));
        }
        i = i + 1;
    }
    assert(all.take(all.len() as int) =~= all);
    hosts
}

/// A server of lower priority number, or of more weight at the same, is tried before another.
pub proof fn better_servers_come_first(sorted: Seq<SrvRecord>, i: int, j: int)
    requires
        is_sorted(sorted),
        0 <= i < j < sorted.len(),
    ensures
        sorted[i].priority <= sorted[j].priority,
        sorted[i].priority == sorted[j].priority ==> sorted[i].weight >= sorted[j].weight,
{
    assert(SrvRecord::may_precede(sorted[i], sorted[j]));
}

/// The order to try servers in does not depend on the order of the answers.
pub proof fn the_order_of_answers_does_not_matter(
    a: Seq<SrvRecord>,
    b: Seq<SrvRecord>,
    hosts: Seq<Seq<char>>,
    others: Seq<Seq<char>>,
)
    requires
        a.to_multiset() == b.to_multiset(),
        is_order(a, hosts),
        is_order(b, others),
    ensures
        hosts == others,
{
    let s = choose|s: Seq<SrvRecord>| #[trigger]
        is_sorted(s) && s.to_multiset() == a.to_multiset() && hosts == undoubled(hosts_of(s));
    let t = choose|t: Seq<SrvRecord>| #[trigger]
        is_sorted(t) && t.to_multiset() == b.to_multiset() && others == undoubled(hosts_of(t));
    sorted_alike(s, t);
}

proof fn sorted_alike(s: Seq<SrvRecord>, t: Seq<SrvRecord>)
    requires
        is_sorted(s),
        is_sorted(t),
        s.to_multiset() == t.to_multiset(),
    ensures
        hosts_of(s) == hosts_of(t),
    decreases s.len(),
{
    s.to_multiset_ensures();
    t.to_multiset_ensures();
    if s.len() > 0 {
        let x = s[0];
        assert(s.contains(x));
        assert(t.to_multiset().count(x) > 0);
        assert(t.contains(x));
        let p = choose|p: int| 0 <= p < t.len() && t[p] == x;
        assert forall|i: int| 0 <= i < p implies (#[trigger] t[i]).target@ == x.target@ by {
            assert(SrvRecord::may_precede(t[i], t[p]));
            assert(t.contains(t[i]));
            assert(s.to_multiset().count(t[i]) > 0);
            assert(s.contains(t[i]));
            let q = choose|q: int| 0 <= q < s.len() && s[q] == t[i];
            if q > 0 {
                assert(SrvRecord::may_precede(s[0], s[q]));
            } else {
                SrvRecord::is_total(s[0], s[0]);
            }
            text::dictionary_order_is_antisymmetric(t[i].target@, x.target@);
        }
        let (u, v) = (s.remove(0), t.remove(p));
        assert forall|i: int, j: int| 0 <= i < j < u.len() implies SrvRecord::may_precede(
            #[trigger] u[i],
            #[trigger] u[j],
        ) by {
            assert(u[i] == s[i + 1] && u[j] == s[j + 1]);
        }
        assert forall|i: int, j: int| 0 <= i < j < v.len() implies SrvRecord::may_precede(
            #[trigger] v[i],
            #[trigger] v[j],
        ) by {
            let (y, z) = (
                if i < p {
                    i
                } else {
                    i + 1
                },
                if j < p {
                    j
                } else {
                    j + 1
                },
            );
            assert(v[i] == t[y] && v[j] == t[z]);
        }
        sorted_alike(u, v);
        let (hs, ht) = (hosts_of(s), hosts_of(t));
        assert forall|i: int| 0 <= i < s.len() implies hs[i] == ht[i] by {
            if i == 0 {
                assert(t[0].target@ == x.target@);
            } else {
                assert(hosts_of(u)[i - 1] == hs[i]);
                assert(hosts_of(v)[i - 1] == hs[i]);
                if i <= p {
                    assert(v[i - 1] == t[i - 1]);
                    assert(t[i - 1].target@ == x.target@);
                    assert(t[i].target@ == x.target@);
                } else {
                    assert(v[i - 1] == t[i]);
                }
            }
        }
        assert(hs =~= ht);
    } else {
        assert(hosts_of(s) =~= hosts_of(t));
    }
}

/// Servers are tried by priority, the lowest number first; of one priority by weight, the heaviest
/// first; and of one weight by name.
pub proof fn how_servers_are_tried(a: SrvRecord, b: SrvRecord)
    requires
        tried_before(a, b),
    ensures
        a.priority <= b.priority,
        a.priority == b.priority ==> a.weight >= b.weight,
        a.priority == b.priority && a.weight == b.weight ==> in_dictionary_order(
            a.target@,
            b.target@,
        ),
{
}

/// Every server that answered is tried, under its name without the dot at its end, and nothing else
/// is.
pub proof fn every_server_is_tried(records: Seq<SrvRecord>, hosts: Seq<Seq<char>>, i: int, k: int)
    requires
        is_order(records, hosts),
    ensures
        0 <= i < records.len() ==> hosts.contains(stripped_end(records[i].target@, '.')),
        0 <= k < hosts.len() ==> exists|j: int|
            0 <= j < records.len() && hosts[k] == stripped_end((#[trigger] records[j]).target@, '.'),
        0 <= k < hosts.len() - 1 ==> hosts[k] != hosts[k + 1],
{
    let s = choose|s: Seq<SrvRecord>| #[trigger]
        is_sorted(s) && s.to_multiset() == records.to_multiset() && hosts == undoubled(hosts_of(s));
    let all = hosts_of(s);
    s.to_multiset_ensures();
    records.to_multiset_ensures();
    undoubled_keeps_all(all);
    if 0 <= i < records.len() {
        assert(records.contains(records[i]));
        assert(s.to_multiset().count(records[i]) > 0);
        assert(s.contains(records[i]));
        let x = choose|x: int| 0 <= x < s.len() && s[x] == records[i];
        assert(all[x] == stripped_end(records[i].target@, '.'));
        assert(all.contains(all[x]));
    }
    if 0 <= k < hosts.len() {
        assert(hosts.contains(hosts[k]));
        assert(all.contains(hosts[k]));
        let x = choose|x: int| 0 <= x < all.len() && all[x] == hosts[k];
        assert(s.contains(s[x]));
        assert(records.to_multiset().count(s[x]) > 0);
        assert(records.contains(s[x]));
        let j = choose|j: int| 0 <= j < records.len() && records[j] == s[x];
        assert(hosts[k] == stripped_end(records[j].target@, '.'));
    }
}

proof fn undoubled_keeps_all(s: Seq<Seq<char>>)
    ensures
        forall|x: Seq<char>| #[trigger] undoubled(s).contains(x) <==> s.contains(x),
        forall|k: int| 0 <= k < undoubled(s).len() - 1 ==> #[trigger] undoubled(s)[k] != undoubled(
            s,
        )[k + 1],
        s.len() > 0 ==> undoubled(s).len() > 0 && undoubled(s).last() == s.last(),
    decreases s.len(),
{
    if s.len() > 1 {
        let d = s.drop_last();
        let u = undoubled(d);
        let n = undoubled(s);
        undoubled_keeps_all(d);
        assert(d.last() == s[s.len() - 2]);
        assert forall|x: Seq<char>| #[trigger] n.contains(x) <==> s.contains(x) by {
            if n.contains(x) {
                let k = choose|k: int| 0 <= k < n.len() && n[k] == x;
                if k < u.len() {
                    assert(u[k] == x);
                    assert(u.contains(x));
                    let m = choose|m: int| 0 <= m < d.len() && d[m] == x;
                    assert(s[m] == x);
                } else {
                    assert(s[s.len() - 1] == x);
                }
            }
            if s.contains(x) {
                let m = choose|m: int| 0 <= m < s.len() && s[m] == x;
                if m < d.len() {
                    assert(d[m] == x);
                    assert(d.contains(x));
                    assert(u.contains(x));
                    let k = choose|k: int| 0 <= k < u.len() && u[k] == x;
                    assert(n[k] == x);
                } else {
                    assert(n[n.len() - 1] == x);
                }
            }
        }
        assert forall|k: int| 0 <= k < n.len() - 1 implies #[trigger] n[k] != n[k + 1] by {
            if k + 1 < u.len() {
                assert(u[k] != u[k + 1]);
            }
        }
    }
}

} // verus!
