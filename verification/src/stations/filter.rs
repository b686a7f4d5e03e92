//! Filter, dedupe, sort, cap: the one place a station is dropped or ordered (locally, never by
//! the server's limit, which would cap before the filter).

use vstd::prelude::*;

use super::model::Station;
use super::sorting::{is_sorted, sort, Ranked};
use crate::outside::{to_unicode_lower, unicode_lower};
use crate::text;
use crate::text::{dictionary_order_is_antisymmetric, in_dictionary_order, strings, trimmed};

verus! {

/// Per-country cap.
pub const CAP: usize = 750;

/// The name half of the key that tells duplicates: trimmed, in Unicode lower case.
pub fn fold(name: &str) -> (r: String)
    ensures
        r@ == unicode_lower(trimmed(name@)),
{
    let chars = text::chars_of(name);
    to_unicode_lower(text::string_of(text::trim(&chars)).as_str())
}

/// A station that can play: its last check was good and it has a URL.
pub open spec fn playable(s: Station) -> bool {
    s.last_check_ok && s.url@.len() > 0
}

/// The order of a list: votes, most first; a known bitrate before an unknown one; click trend,
/// highest first; the identifier.
pub open spec fn ranks_before(a: Station, b: Station) -> bool {
    if a.votes != b.votes {
        a.votes > b.votes
    } else if (a.bitrate_kbps is None) != (b.bitrate_kbps is None) {
        b.bitrate_kbps is None
    } else if a.click_trend != b.click_trend {
        a.click_trend > b.click_trend
    } else {
        in_dictionary_order(a.uuid@, b.uuid@)
    }
}

/// Rows `i` and `j` are the same stream under the same folded name.
pub open spec fn same_key(rows: Seq<Station>, names: Seq<Seq<char>>, i: int, j: int) -> bool {
    names[i] == names[j] && rows[i].url@ == rows[j].url@
}

/// Of the first `n` rows, row `j` is playable and the best of its duplicates: the one with the
/// most votes, and the earliest of those.
pub open spec fn survives(rows: Seq<Station>, names: Seq<Seq<char>>, n: int, j: int) -> bool {
    &&& 0 <= j < n
    &&& playable(rows[j])
    &&& forall|i: int|
        0 <= i < n && i != j && playable(rows[i]) && #[trigger] same_key(rows, names, i, j) ==> {
            ||| rows[i].votes < rows[j].votes
            ||| rows[i].votes == rows[j].votes && j < i
        }
}

/// `order` lists the rows that survive, each once, best first.
pub open spec fn is_ranking(rows: Seq<Station>, names: Seq<Seq<char>>, order: Seq<int>) -> bool {
    &&& order.no_duplicates()
    &&& forall|j: int|
        #[trigger] order.contains(j) <==> survives(rows, names, rows.len() as int, j)
    &&& forall|a: int, b: int|
        0 <= a < b < order.len() ==> ranks_before(rows[#[trigger] order[a]], rows[
            #[trigger] order[b]
        ])
}

/// The rows of an order, up to the cap.
pub open spec fn listed(rows: Seq<Station>, order: Seq<int>, cap: int) -> Seq<Station> {
    order.take(
        if order.len() <= cap {
            order.len() as int
        } else {
            cap
        },
    ).map_values(|j: int| rows[j])
}

/// A row that is a candidate for the list.
struct Candidate {
    index: usize,
    name: String,
    station: Station,
}

impl Ranked for Candidate {
    closed spec fn may_precede(a: Candidate, b: Candidate) -> bool {
        ranks_before(a.station, b.station)
    }

    proof fn is_total(a: Candidate, b: Candidate) {
        text::dictionary_order_is_total(a.station.uuid@, b.station.uuid@);
    }

    proof fn is_transitive(a: Candidate, b: Candidate, c: Candidate) {
        let (x, y, z) = (a.station.uuid@, b.station.uuid@, c.station.uuid@);
        if in_dictionary_order(x, y) && in_dictionary_order(y, z) {
            text::dictionary_order_is_transitive(x, y, z);
        }
    }

    fn precedes(&self, other: &Candidate) -> (r: bool) {
        let a = &self.station;
        let b = &other.station;
        if a.votes != b.votes {
            a.votes > b.votes
        } else if a.bitrate_kbps.is_none() != b.bitrate_kbps.is_none() {
            b.bitrate_kbps.is_none()
        } else if a.click_trend != b.click_trend {
            a.click_trend > b.click_trend
        } else {
            text::not_after(a.uuid.as_str(), b.uuid.as_str())
        }
    }
}

/// `kept` holds the rows that survive among the first `n`, each once.
spec fn holds_survivors(
    kept: Seq<Candidate>,
    rows: Seq<Station>,
    names: Seq<Seq<char>>,
    n: int,
) -> bool {
    &&& forall|k: int|
        0 <= k < kept.len() ==> is_candidate(#[trigger] kept[k], rows, names) && survives(
            rows,
            names,
            n,
            kept[k].index as int,
        )
    &&& forall|j: int|
        #[trigger] survives(rows, names, n, j) ==> exists|k: int|
            0 <= k < kept.len() && (#[trigger] kept[k]).index == j
    &&& forall|i: int|
        0 <= i < n && playable(#[trigger] rows[i]) ==> exists|k: int|
            0 <= k < kept.len() && same_key(rows, names, i, (#[trigger] kept[k]).index as int)
    &&& forall|a: int, b: int|
        0 <= a < b < kept.len() ==> (#[trigger] kept[a]).index != (#[trigger] kept[b]).index
}

spec fn is_candidate(c: Candidate, rows: Seq<Station>, names: Seq<Seq<char>>) -> bool {
    &&& c.index < rows.len()
    &&& c.name@ == names[c.index as int]
    &&& c.station == rows[c.index as int]
}

/// A row that cannot play changes nothing.
proof fn unplayable_is_passed_over(
    kept: Seq<Candidate>,
    rows: Seq<Station>,
    names: Seq<Seq<char>>,
    n: int,
)
    requires
        0 <= n < rows.len(),
        !playable(rows[n]),
        holds_survivors(kept, rows, names, n),
    ensures
        holds_survivors(kept, rows, names, n + 1),
{
    assert forall|j: int| #[trigger] survives(rows, names, n + 1, j) implies exists|k: int|
        0 <= k < kept.len() && (#[trigger] kept[k]).index == j by {
        assert(survives(rows, names, n, j));
    }
}

/// A duplicate with no more votes than the row that is kept changes nothing.
proof fn duplicate_is_passed_over(
    kept: Seq<Candidate>,
    rows: Seq<Station>,
    names: Seq<Seq<char>>,
    n: int,
    k: int,
)
    requires
        0 <= n < rows.len(),
        playable(rows[n]),
        holds_survivors(kept, rows, names, n),
        0 <= k < kept.len(),
        same_key(rows, names, n, kept[k].index as int),
        kept[k].station.votes >= rows[n].votes,
    ensures
        holds_survivors(kept, rows, names, n + 1),
{
    let best = kept[k].index as int;
    assert(is_candidate(kept[k], rows, names));
    assert forall|m: int| 0 <= m < kept.len() implies is_candidate(#[trigger] kept[m], rows, names)
        && survives(rows, names, n + 1, kept[m].index as int) by {
        let j = kept[m].index as int;
        assert(survives(rows, names, n, j));
        assert forall|i: int|
            0 <= i < n + 1 && i != j && playable(rows[i]) && #[trigger] same_key(
                rows,
                names,
                i,
                j,
            ) implies (rows[i].votes < rows[j].votes || rows[i].votes == rows[j].votes && j < i) by {
            if i == n && j != best {
                assert(same_key(rows, names, best, j));
                assert(same_key(rows, names, j, best));
                assert(survives(rows, names, n, best));
            }
        }
    }
    assert forall|j: int| #[trigger] survives(rows, names, n + 1, j) implies exists|m: int|
        0 <= m < kept.len() && (#[trigger] kept[m]).index == j by {
        if j == n {
            assert(same_key(rows, names, best, n));
            assert(playable(rows[best]));
        } else {
            assert(survives(rows, names, n, j));
        }
    }
    assert forall|i: int| 0 <= i < n + 1 && playable(#[trigger] rows[i]) implies exists|m: int|
        0 <= m < kept.len() && same_key(rows, names, i, (#[trigger] kept[m]).index as int) by {
        if i == n {
            assert(same_key(rows, names, n, kept[k].index as int));
        }
    }
}

/// A duplicate with more votes takes the place of the row that was kept.
proof fn better_duplicate_replaces(
    kept: Seq<Candidate>,
    after: Seq<Candidate>,
    rows: Seq<Station>,
    names: Seq<Seq<char>>,
    n: int,
    k: int,
)
    requires
        0 <= n < rows.len(),
        playable(rows[n]),
        holds_survivors(kept, rows, names, n),
        0 <= k < kept.len(),
        same_key(rows, names, n, kept[k].index as int),
        kept[k].station.votes < rows[n].votes,
        after == kept.update(k, after[k]),
        is_candidate(after[k], rows, names),
        after[k].index == n,
    ensures
        holds_survivors(after, rows, names, n + 1),
{
    let best = kept[k].index as int;
    assert(is_candidate(kept[k], rows, names));
    assert(survives(rows, names, n, best));
    assert forall|m: int| 0 <= m < after.len() implies is_candidate(#[trigger] after[m], rows, names)
        && survives(rows, names, n + 1, after[m].index as int) by {
        if m == k {
            assert forall|i: int|
                0 <= i < n + 1 && i != n && playable(rows[i]) && #[trigger] same_key(
                    rows,
                    names,
                    i,
                    n,
                ) implies (rows[i].votes < rows[n].votes || rows[i].votes == rows[n].votes && n
                < i) by {
                if i != best {
                    assert(same_key(rows, names, i, best));
                }
            }
        } else {
            let j = kept[m].index as int;
            assert(after[m] == kept[m]);
            assert(is_candidate(kept[m], rows, names));
            assert(survives(rows, names, n, j));
            assert(j != best) by {
                if m < k {
                    assert(kept[m].index != kept[k].index);
                } else {
                    assert(kept[k].index != kept[m].index);
                }
            }
            assert forall|i: int|
                0 <= i < n + 1 && i != j && playable(rows[i]) && #[trigger] same_key(
                    rows,
                    names,
                    i,
                    j,
                ) implies (rows[i].votes < rows[j].votes || rows[i].votes == rows[j].votes && j
                < i) by {
                if i == n {
                    assert(same_key(rows, names, best, j));
                    assert(same_key(rows, names, j, best));
                }
            }
        }
    }
    assert forall|j: int| #[trigger] survives(rows, names, n + 1, j) implies exists|m: int|
        0 <= m < after.len() && (#[trigger] after[m]).index == j by {
        if j == n {
            assert(after[k].index == n);
        } else {
            assert(survives(rows, names, n, j));
            let m = choose|m: int| 0 <= m < kept.len() && (#[trigger] kept[m]).index == j;
            if m == k {
                assert(same_key(rows, names, n, j));
            } else {
                assert(after[m] == kept[m]);
            }
        }
    }
    assert forall|i: int| 0 <= i < n + 1 && playable(#[trigger] rows[i]) implies exists|m: int|
        0 <= m < after.len() && same_key(rows, names, i, (#[trigger] after[m]).index as int) by {
        if i == n {
            assert(same_key(rows, names, n, after[k].index as int));
        } else {
            let m = choose|m: int|
                0 <= m < kept.len() && same_key(rows, names, i, (#[trigger] kept[m]).index as int);
            if m == k {
                assert(same_key(rows, names, i, after[k].index as int));
            } else {
                assert(after[m] == kept[m]);
                assert(same_key(rows, names, i, after[m].index as int));
            }
        }
    }
    assert forall|a: int, b: int| 0 <= a < b < after.len() implies (#[trigger] after[a]).index != (
    #[trigger] after[b]).index by {
        if a != k {
            assert(after[a] == kept[a]);
            assert(is_candidate(kept[a], rows, names) && survives(
                rows,
                names,
                n,
                kept[a].index as int,
            ));
        }
        if b != k {
            assert(after[b] == kept[b]);
            assert(is_candidate(kept[b], rows, names) && survives(
                rows,
                names,
                n,
                kept[b].index as int,
            ));
        }
    }
}

/// A row with a key of its own is kept.
proof fn new_key_is_kept(
    kept: Seq<Candidate>,
    c: Candidate,
    rows: Seq<Station>,
    names: Seq<Seq<char>>,
    n: int,
)
    requires
        0 <= n < rows.len(),
        playable(rows[n]),
        holds_survivors(kept, rows, names, n),
        is_candidate(c, rows, names),
        c.index == n,
        forall|k: int|
            0 <= k < kept.len() ==> !same_key(rows, names, n, (#[trigger] kept[k]).index as int),
    ensures
        holds_survivors(kept.push(c), rows, names, n + 1),
{
    let after = kept.push(c);
    assert forall|i: int| 0 <= i < n && playable(rows[i]) implies !#[trigger] same_key(
        rows,
        names,
        i,
        n,
    ) by {
        let m = choose|m: int|
            0 <= m < kept.len() && same_key(rows, names, i, (#[trigger] kept[m]).index as int);
        assert(!same_key(rows, names, n, kept[m].index as int));
    }
    assert forall|m: int| 0 <= m < after.len() implies is_candidate(#[trigger] after[m], rows, names)
        && survives(rows, names, n + 1, after[m].index as int) by {
        if m < kept.len() {
            let j = kept[m].index as int;
            assert(after[m] == kept[m]);
            assert(is_candidate(kept[m], rows, names));
            assert(survives(rows, names, n, j));
            assert(!same_key(rows, names, n, j));
        }
    }
    assert forall|j: int| #[trigger] survives(rows, names, n + 1, j) implies exists|m: int|
        0 <= m < after.len() && (#[trigger] after[m]).index == j by {
        if j == n {
            assert(after[kept.len() as int].index == n);
        } else {
            assert(survives(rows, names, n, j));
            let m = choose|m: int| 0 <= m < kept.len() && (#[trigger] kept[m]).index == j;
            assert(after[m] == kept[m]);
        }
    }
    assert forall|i: int| 0 <= i < n + 1 && playable(#[trigger] rows[i]) implies exists|m: int|
        0 <= m < after.len() && same_key(rows, names, i, (#[trigger] after[m]).index as int) by {
        if i == n {
            assert(same_key(rows, names, n, after[kept.len() as int].index as int));
        } else {
            let m = choose|m: int|
                0 <= m < kept.len() && same_key(rows, names, i, (#[trigger] kept[m]).index as int);
            assert(after[m] == kept[m]);
            assert(same_key(rows, names, i, after[m].index as int));
        }
    }
    assert forall|a: int, b: int| 0 <= a < b < after.len() implies (#[trigger] after[a]).index != (
    #[trigger] after[b]).index by {
        assert(after[a] == kept[a]);
        assert(survives(rows, names, n, kept[a].index as int));
        if b < kept.len() {
            assert(after[b] == kept[b]);
        }
    }
}

/// Where `kept` holds a candidate with this key.
fn find_key(kept: &Vec<Candidate>, name: &String, url: &String) -> (r: Option<usize>)
    ensures
        r matches Some(k) ==> k < kept@.len() && kept@[k as int].name@ == name@ && kept@[k as int]
            .station.url@ == url@,
        r is None ==> forall|k: int|
            0 <= k < kept@.len() ==> !((#[trigger] kept@[k]).name@ == name@ && kept@[k].station.url@
                == url@),
{
    let mut k: usize = 0;
    while k < kept.len()
        invariant
            k <= kept.len(),
            forall|i: int|
                0 <= i < k ==> !((#[trigger] kept@[i]).name@ == name@ && kept@[i].station.url@
                    == url@),
        decreases kept.len() - k,
    {
        if kept[k].name == *name && kept[k].station.url == *url {
            return Some(k);
        }
        k = k + 1;
    }
    None
}

/// Ranks rows whose names are already folded; `names` has one for each row.
pub fn rank_folded(stations: Vec<Station>, names: Vec<String>, cap: usize) -> (out: Vec<Station>)
    requires
        names@.len() == stations@.len(),
    ensures
        exists|order: Seq<int>| #[trigger]
            is_ranking(stations@, strings(names@), order) && out@ == listed(
                stations@,
                order,
                cap as int,
            ),
{
    let ghost rows = stations@;
    let ghost folded = strings(names@);
    let mut kept: Vec<Candidate> = Vec::new();
    let total: usize = names.len();
    let mut n: usize = 0;
    for s in it: stations
        invariant
            total == rows.len(),
            it.seq() == rows,
            n == it.index(),
            folded == strings(names@),
            names@.len() == rows.len(),
            holds_survivors(kept@, rows, folded, n as int),
    {
        let ghost before = kept@;
        assert(s == rows[n as int]);
        assert(folded[n as int] == names@[n as int]@);
        if !s.last_check_ok || s.url.as_str().is_empty() {
            proof {
                unplayable_is_passed_over(before, rows, folded, n as int);
            }
        } else {
            match find_key(&kept, &names[n], &s.url) {
                Some(k) => {
                    assert(is_candidate(before[k as int], rows, folded));
                    assert(same_key(rows, folded, n as int, before[k as int].index as int));
                    if kept[k].station.votes >= s.votes {
                        proof {
                            duplicate_is_passed_over(before, rows, folded, n as int, k as int);
                        }
                    } else {
                        kept.set(k, Candidate { index: n, name: names[n].clone(), station: s });
                        proof {
                            assert(kept@ =~= before.update(k as int, kept@[k as int]));
                            better_duplicate_replaces(
                                before,
                                kept@,
                                rows,
                                folded,
                                n as int,
                                k as int,
                            );
                        }
                    }
                },
                None => {
                    let c = Candidate { index: n, name: names[n].clone(), station: s };
                    proof {
                        assert forall|k: int| 0 <= k < before.len() implies !same_key(
                            rows,
                            folded,
                            n as int,
                            (#[trigger] before[k]).index as int,
                        ) by {
                            assert(is_candidate(before[k], rows, folded));
                        }
                        new_key_is_kept(before, c, rows, folded, n as int);
                    }
                    kept.push(c);
                },
            }
        }
        n = n + 1;
    }
    let ghost survivors = kept@;
    let sorted = sort(kept);
    let ghost order = sorted@.map_values(|c: Candidate| c.index as int);
    proof {
        sorted_survivors_are_a_ranking(survivors, sorted@, rows, folded);
    }
    let mut out: Vec<Station> = Vec::new();
    let ghost best = listed(rows, order, cap as int);
    for c in it: sorted
        invariant
            it.seq() == sorted@,
            order == sorted@.map_values(|c: Candidate| c.index as int),
            best == listed(rows, order, cap as int),
            forall|k: int| 0 <= k < sorted@.len() ==> is_candidate(#[trigger] sorted@[k], rows, folded),
            out@ == best.take(
                if it.index() <= best.len() {
                    it.index() as int
                } else {
                    best.len() as int
                },
            ),
            best.len() == (if sorted@.len() <= cap {
                sorted@.len() as int
            } else {
                cap as int
            }),
    {
        let ghost i = it.index() as int;
        assert(c == sorted@[i]);
        assert(is_candidate(sorted@[i], rows, folded));
        if out.len() < cap {
            assert(best[i] == c.station);
            out.push(c.station);
            assert(best.take(i + 1) =~= best.take(i).push(best[i]));
        }
    }
    assert(best.take(best.len() as int) =~= best);
    out
}

/// The survivors, sorted, are a ranking of their rows.
proof fn sorted_survivors_are_a_ranking(
    kept: Seq<Candidate>,
    sorted: Seq<Candidate>,
    rows: Seq<Station>,
    names: Seq<Seq<char>>,
)
    requires
        holds_survivors(kept, rows, names, rows.len() as int),
        is_sorted(sorted),
        sorted.to_multiset() == kept.to_multiset(),
        sorted.len() == kept.len(),
    ensures
        is_ranking(rows, names, sorted.map_values(|c: Candidate| c.index as int)),
        forall|k: int| 0 <= k < sorted.len() ==> is_candidate(#[trigger] sorted[k], rows, names),
{
    let order = sorted.map_values(|c: Candidate| c.index as int);
    sorted.to_multiset_ensures();
    kept.to_multiset_ensures();
    assert(kept.no_duplicates()) by {
        assert forall|a: int, b: int| 0 <= a < kept.len() && 0 <= b < kept.len() && a
            != b implies kept[a] != kept[b] by {
            if a < b {
                assert(kept[a].index != kept[b].index);
            } else {
                assert(kept[b].index != kept[a].index);
            }
        }
    }
    kept.lemma_multiset_has_no_duplicates();
    sorted.lemma_multiset_has_no_duplicates_conv();
    assert forall|k: int| 0 <= k < sorted.len() implies kept.contains(#[trigger] sorted[k]) by {
        assert(sorted.contains(sorted[k]));
        assert(sorted.to_multiset().count(sorted[k]) > 0);
    }
    assert forall|k: int| 0 <= k < sorted.len() implies is_candidate(
        #[trigger] sorted[k],
        rows,
        names,
    ) by {
        assert(kept.contains(sorted[k]));
    }
    assert(order.no_duplicates()) by {
        assert forall|a: int, b: int| 0 <= a < order.len() && 0 <= b < order.len() && a
            != b implies order[a] != order[b] by {
            let x = choose|x: int| 0 <= x < kept.len() && kept[x] == sorted[a];
            let y = choose|y: int| 0 <= y < kept.len() && kept[y] == sorted[b];
            assert(kept.contains(sorted[a]) && kept.contains(sorted[b]));
            assert(sorted[a] != sorted[b]);
            if x < y {
                assert(kept[x].index != kept[y].index);
            } else {
                assert(kept[y].index != kept[x].index);
            }
        }
    }
    assert forall|j: int| #[trigger] order.contains(j) <==> survives(
        rows,
        names,
        rows.len() as int,
        j,
    ) by {
        if order.contains(j) {
            let a = choose|a: int| 0 <= a < order.len() && order[a] == j;
            assert(kept.contains(sorted[a]));
            let x = choose|x: int| 0 <= x < kept.len() && kept[x] == sorted[a];
            assert(is_candidate(kept[x], rows, names) && survives(
                rows,
                names,
                rows.len() as int,
                kept[x].index as int,
            ));
        }
        if survives(rows, names, rows.len() as int, j) {
            let x = choose|x: int| 0 <= x < kept.len() && (#[trigger] kept[x]).index == j;
            assert(kept.contains(kept[x]));
            assert(sorted.to_multiset().count(kept[x]) > 0);
            assert(sorted.contains(kept[x]));
            let a = choose|a: int| 0 <= a < sorted.len() && sorted[a] == kept[x];
            assert(order[a] == j);
        }
    }
    assert forall|a: int, b: int| 0 <= a < b < order.len() implies ranks_before(
        rows[#[trigger] order[a]],
        rows[#[trigger] order[b]],
    ) by {
        assert(Candidate::may_precede(sorted[a], sorted[b]));
        assert(is_candidate(sorted[a], rows, names) && is_candidate(sorted[b], rows, names));
    }
}

/// The folded name of each row.
pub open spec fn folded_names(rows: Seq<Station>) -> Seq<Seq<char>> {
    rows.map_values(|s: Station| unicode_lower(trimmed(s.name@)))
}

/// Drops what cannot play, merges duplicates, orders, caps.
///
/// - drop what failed its last check;
/// - drop an empty URL: nothing to play;
/// - of the rows with the same folded name and URL keep the one with the most votes;
/// - sort by votes, then **known bitrate before unknown** (a zero bitrate is unknown, not
///   broken), click trend, and identifier for a stable order;
/// - truncate to `cap`.
pub fn rank(stations: Vec<Station>, cap: usize) -> (out: Vec<Station>)
    ensures
        exists|order: Seq<int>| #[trigger]
            is_ranking(stations@, folded_names(stations@), order) && out@ == listed(
                stations@,
                order,
                cap as int,
            ),
{
    let mut names: Vec<String> = Vec::new();
    let mut i: usize = 0;
    while i < stations.len()
        invariant
            i <= stations.len(),
            strings(names@) == folded_names(stations@).take(i as int),
        decreases stations.len() - i,
    {
        let ghost before = names@;
        let name = fold(stations[i].name.as_str());
        names.push(name);
        proof {
            assert(strings(names@) =~= strings(before).push(name@));
            assert(folded_names(stations@).take(i + 1) =~= folded_names(stations@).take(
                i as int,
            ).push(folded_names(stations@)[i as int]));
        }
        i = i + 1;
    }
    proof {
        assert(folded_names(stations@).take(stations@.len() as int) =~= folded_names(stations@));
        assert(strings(names@).len() == names@.len());
    }
    rank_folded(stations, names, cap)
}

/// What is listed is playable, in order, no longer than the cap, and holds no stream twice under
/// one folded name.
pub proof fn a_list_is_clean(
    rows: Seq<Station>,
    names: Seq<Seq<char>>,
    order: Seq<int>,
    cap: int,
)
    requires
        names.len() == rows.len(),
        cap >= 0,
        is_ranking(rows, names, order),
    ensures
        ({
            let out = listed(rows, order, cap);
            &&& out.len() <= cap
            &&& out.len() <= rows.len()
            &&& forall|a: int| 0 <= a < out.len() ==> playable(#[trigger] out[a])
            &&& forall|a: int, b: int|
                0 <= a < b < out.len() ==> ranks_before(#[trigger] out[a], #[trigger] out[b])
                    && !same_key(rows, names, order[a], order[b])
        }),
{
    let out = listed(rows, order, cap);
    assert forall|a: int| 0 <= a < order.len() implies survives(
        rows,
        names,
        rows.len() as int,
        #[trigger] order[a],
    ) by {
        assert(order.contains(order[a]));
    }
    assert forall|a: int, b: int| 0 <= a < b < out.len() implies ranks_before(
        #[trigger] out[a],
        #[trigger] out[b],
    ) && !same_key(rows, names, order[a], order[b]) by {
        assert(ranks_before(rows[order[a]], rows[order[b]]));
        let (i, j) = (order[a], order[b]);
        assert(i != j);
        assert(survives(rows, names, rows.len() as int, i));
        assert(survives(rows, names, rows.len() as int, j));
        if same_key(rows, names, i, j) {
            assert(same_key(rows, names, j, i));
        }
    }
    assert(order.len() <= rows.len()) by {
        let all = Seq::new(rows.len(), |i: int| i);
        vstd::seq_lib::seq_to_set_is_finite(order);
        order.unique_seq_to_set();
        vstd::set_lib::lemma_int_range(0, rows.len() as int);
        assert(order.to_set().subset_of(vstd::set_lib::set_int_range(0, rows.len() as int)));
        vstd::set_lib::lemma_len_subset(
            order.to_set(),
            vstd::set_lib::set_int_range(0, rows.len() as int),
        );
    }
}

/// Ranking a ranked list again, to the same cap, changes nothing, as long as no two of its
/// stations share an identifier: those would be free to change places.
pub proof fn ranking_again_changes_nothing(
    rows: Seq<Station>,
    order: Seq<int>,
    again: Seq<int>,
    cap: int,
)
    requires
        cap >= 0,
        is_ranking(rows, folded_names(rows), order),
        ({
            let out = listed(rows, order, cap);
            &&& is_ranking(out, folded_names(out), again)
            &&& forall|i: int, j: int|
                0 <= i < j < out.len() ==> (#[trigger] out[i]).uuid@ != (#[trigger] out[j]).uuid@
        }),
    ensures
        listed(listed(rows, order, cap), again, cap) == listed(rows, order, cap),
{
    let out = listed(rows, order, cap);
    let (names, folded) = (folded_names(rows), folded_names(out));
    a_list_is_clean(rows, names, order, cap);
    assert forall|a: int| 0 <= a < out.len() implies folded[a] == names[order[a]] && out[a]
        == rows[order[a]] by {
        assert(order.contains(order[a]));
        assert(survives(rows, names, rows.len() as int, order[a]));
    }
    // Every row of a list survives: none has a duplicate there.
    assert forall|j: int| 0 <= j < out.len() implies again.contains(j) by {
        assert(playable(out[j]));
        assert forall|i: int|
            0 <= i < out.len() && i != j && playable(out[i]) && #[trigger] same_key(
                out,
                folded,
                i,
                j,
            ) implies false by {
            assert(same_key(rows, names, order[i], order[j]));
            assert(same_key(rows, names, order[j], order[i]));
            let (lo, hi) = if i < j {
                (i, j)
            } else {
                (j, i)
            };
            assert(ranks_before(out[lo], out[hi]) && !same_key(rows, names, order[lo], order[hi]));
        }
        assert(survives(out, folded, out.len() as int, j));
    }
    assert forall|a: int| 0 <= a < again.len() implies 0 <= #[trigger] again[a] < out.len() by {
        assert(again.contains(again[a]));
    }
    assert forall|a: int, b: int| 0 <= a < b < again.len() implies #[trigger] again[a]
        < #[trigger] again[b] by {
        let (i, j) = (again[a], again[b]);
        assert(ranks_before(out[i], out[j]));
        if i > j {
            assert(ranks_before(out[j], out[i]));
            dictionary_order_is_antisymmetric(out[i].uuid@, out[j].uuid@);
        }
        assert(i != j);
    }
    climbing_is_counting(again, out.len() as int);
    assert(listed(out, again, cap) =~= out);
}

/// Numbers that only climb and are all those below `n` are just those, in turn.
proof fn climbing_is_counting(s: Seq<int>, n: int)
    requires
        n >= 0,
        forall|a: int, b: int| 0 <= a < b < s.len() ==> #[trigger] s[a] < #[trigger] s[b],
        forall|a: int| 0 <= a < s.len() ==> 0 <= #[trigger] s[a] < n,
        forall|j: int| 0 <= j < n ==> s.contains(j),
    ensures
        s.len() == n,
        forall|a: int| 0 <= a < n ==> #[trigger] s[a] == a,
    decreases n,
{
    if n == 0 {
        if s.len() > 0 {
            assert(s[0] < 0);
        }
    } else {
        assert(s.contains(n - 1));
        let p = choose|p: int| 0 <= p < s.len() && s[p] == n - 1;
        if p < s.len() - 1 {
            assert(s[p] < s[s.len() - 1]);
        }
        let rest = s.drop_last();
        assert forall|a: int| 0 <= a < rest.len() implies 0 <= #[trigger] rest[a] < n - 1 by {
            assert(s[a] < s[s.len() - 1]);
        }
        assert forall|j: int| 0 <= j < n - 1 implies rest.contains(j) by {
            assert(s.contains(j));
            let q = choose|q: int| 0 <= q < s.len() && s[q] == j;
            assert(rest[q] == j);
        }
        climbing_is_counting(rest, n - 1);
        assert forall|a: int| 0 <= a < n implies #[trigger] s[a] == a by {
            if a < n - 1 {
                assert(rest[a] == s[a]);
            }
        }
    }
}

/// A station can play when its last check was good and it has an address; nothing else decides.
pub proof fn what_can_play(s: Station)
    ensures
        playable(s) <==> s.last_check_ok && s.url@ != Seq::<char>::empty(),
{
    if s.url@.len() == 0 {
        assert(s.url@ =~= Seq::<char>::empty());
    }
}

/// No stream that can play is lost: for every row that can, the list has one with the same folded
/// name and address, with as many votes or more.
pub proof fn no_stream_is_lost(
    rows: Seq<Station>,
    names: Seq<Seq<char>>,
    order: Seq<int>,
    i: int,
)
    requires
        is_ranking(rows, names, order),
        0 <= i < rows.len(),
        playable(rows[i]),
    ensures
        exists|a: int|
            0 <= a < order.len() && names[#[trigger] order[a]] == names[i] && rows[order[a]].url@
                == rows[i].url@ && rows[order[a]].votes >= rows[i].votes,
{
    let j = best_duplicate(rows, names, rows.len() as int, i);
    assert(order.contains(j));
    let a = choose|a: int| 0 <= a < order.len() && order[a] == j;
    assert(same_key(rows, names, j, i));
    assert(names[order[a]] == names[i]);
}

/// Of the rows below `n` that are the same stream as row `i`, the one that survives.
proof fn best_duplicate(rows: Seq<Station>, names: Seq<Seq<char>>, n: int, i: int) -> (j: int)
    requires
        0 <= i < rows.len(),
        i < n <= rows.len(),
        playable(rows[i]),
    ensures
        survives(rows, names, n, j),
        same_key(rows, names, j, i),
        rows[j].votes >= rows[i].votes,
    decreases n,
{
    if n == i + 1 {
        // The row itself, or the best of those before it that are the same stream.
        if exists|k: int|
            0 <= k < i && playable(rows[k]) && #[trigger] same_key(rows, names, k, i) && rows[k].votes
                >= rows[i].votes {
            let k = choose|k: int|
                0 <= k < i && playable(rows[k]) && #[trigger] same_key(rows, names, k, i)
                    && rows[k].votes >= rows[i].votes;
            let j = best_duplicate(rows, names, i, k);
            assert(survives(rows, names, n, j)) by {
                assert forall|x: int|
                    0 <= x < n && x != j && playable(rows[x]) && #[trigger] same_key(
                        rows,
                        names,
                        x,
                        j,
                    ) implies rows[x].votes < rows[j].votes || rows[x].votes == rows[j].votes && j
                    < x by {}
            }
            j
        } else {
            assert(survives(rows, names, n, i));
            i
        }
    } else {
        let j = best_duplicate(rows, names, n - 1, i);
        let m = n - 1;
        if playable(rows[m]) && same_key(rows, names, m, j) && rows[m].votes > rows[j].votes {
            assert(survives(rows, names, n, m)) by {
                assert forall|x: int|
                    0 <= x < n && x != m && playable(rows[x]) && #[trigger] same_key(
                        rows,
                        names,
                        x,
                        m,
                    ) implies rows[x].votes < rows[m].votes || rows[x].votes == rows[m].votes && m
                    < x by {
                    assert(same_key(rows, names, x, j));
                }
            }
            m
        } else {
            assert(survives(rows, names, n, j));
            j
        }
    }
}

/// A list is in order: the most votes first; of as many, those with a known bitrate; of those, the
/// higher click trend; and of those, by identifier.
pub proof fn what_comes_first_in_a_list(
    rows: Seq<Station>,
    names: Seq<Seq<char>>,
    order: Seq<int>,
    a: int,
    b: int,
)
    requires
        is_ranking(rows, names, order),
        0 <= a < b < order.len(),
    ensures
        ({
            let (x, y) = (rows[order[a]], rows[order[b]]);
            &&& x.votes >= y.votes
            &&& x.votes == y.votes ==> x.bitrate_kbps is Some || y.bitrate_kbps is None
            &&& x.votes == y.votes && (x.bitrate_kbps is Some) == (y.bitrate_kbps is Some)
                ==> x.click_trend >= y.click_trend
            &&& x.votes == y.votes && (x.bitrate_kbps is Some) == (y.bitrate_kbps is Some)
                && x.click_trend == y.click_trend ==> in_dictionary_order(x.uuid@, y.uuid@)
        }),
{
    assert(ranks_before(rows[order[a]], rows[order[b]]));
}

/// Up to the cap, the list is the whole order, each row as it came.
pub proof fn a_list_is_the_first_of_the_order(rows: Seq<Station>, order: Seq<int>, cap: int)
    requires
        cap >= 0,
    ensures
        listed(rows, order, cap).len() == (if order.len() < cap {
            order.len() as int
        } else {
            cap
        }),
        forall|a: int|
            0 <= a < listed(rows, order, cap).len() ==> #[trigger] listed(rows, order, cap)[a]
                == rows[order[a]],
{
}

/// Two names are folded alike when they are alike in Unicode's small letters, whatever white space
/// is around them.
pub proof fn names_are_folded_without_their_white_space(
    rows: Seq<Station>,
    i: int,
    pre: Seq<char>,
    name: Seq<char>,
    post: Seq<char>,
)
    requires
        0 <= i < rows.len(),
        rows[i].name@ == pre + name + post,
        forall|k: int| 0 <= k < pre.len() ==> text::white(#[trigger] pre[k]),
        forall|k: int| 0 <= k < post.len() ==> text::white(#[trigger] post[k]),
        name.len() > 0 ==> !text::white(name[0]) && !text::white(name.last()),
    ensures
        folded_names(rows).len() == rows.len(),
        folded_names(rows)[i] == unicode_lower(name),
{
    text::trimming_takes_the_white_off(pre, name, post);
}

} // verus!
