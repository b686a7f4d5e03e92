//! Favourites and recently played. Both keep the whole station, so that an entry stays playable
//! after its country list is replaced or the station drops out of the cap.
//!
//! Recents: **20 entries, a replay moves the entry to the top**. The same station is never listed
//! twice, and the list is ordered by last play.

use vstd::prelude::*;

use super::model::{station_views, Station, StationView};

verus! {

pub const RECENTS_CAP: usize = 20;

/// A station with the time it was added or played. A table holds its entries in the order in
/// which they were put in, each station once.
#[derive(Debug, Clone, PartialEq, Eq)]
pub struct Entry {
    /// Unix seconds.
    pub at: i64,
    pub station: Station,
}

pub struct EntryView {
    pub at: i64,
    pub station: StationView,
}

impl View for Entry {
    type V = EntryView;

    open spec fn view(&self) -> EntryView {
        EntryView { at: self.at, station: self.station@ }
    }
}

pub open spec fn entry_views(v: Seq<Entry>) -> Seq<EntryView> {
    v.map_values(|e: Entry| e@)
}

/// No station stands twice.
pub open spec fn entries_differ(v: Seq<EntryView>) -> bool {
    forall|i: int, j: int|
        0 <= i < j < v.len() ==> (#[trigger] v[i]).station.uuid != (#[trigger] v[j]).station.uuid
}

// ---------------------------------------------------------------------------------------------
// Order

/// `x` put among the sorted, before all that are not newer.
pub open spec fn inserted(sorted: Seq<EntryView>, x: EntryView) -> Seq<EntryView>
    decreases sorted.len(),
{
    if sorted.len() == 0 || sorted[0].at <= x.at {
        seq![x] + sorted
    } else {
        seq![sorted[0]] + inserted(sorted.skip(1), x)
    }
}

/// The entries by their time, newest first, and of those of one time the one last put in first.
pub open spec fn newest_first(rows: Seq<EntryView>) -> Seq<EntryView>
    decreases rows.len(),
{
    if rows.len() == 0 {
        Seq::empty()
    } else {
        inserted(newest_first(rows.drop_last()), rows.last())
    }
}

/// The first of them, up to a number.
pub open spec fn at_most(s: Seq<EntryView>, n: int) -> Seq<EntryView> {
    if s.len() <= n {
        s
    } else {
        s.take(n)
    }
}

pub open spec fn stations_in(s: Seq<EntryView>) -> Seq<StationView> {
    s.map_values(|e: EntryView| e.station)
}

proof fn inserted_at(sorted: Seq<EntryView>, x: EntryView, p: int)
    requires
        0 <= p <= sorted.len(),
        forall|i: int| 0 <= i < p ==> (#[trigger] sorted[i]).at > x.at,
        p < sorted.len() ==> sorted[p].at <= x.at,
    ensures
        inserted(sorted, x) == sorted.insert(p, x),
    decreases sorted.len(),
{
    if p == 0 {
        assert(seq![x] + sorted =~= sorted.insert(0, x));
    } else {
        let rest = sorted.skip(1);
        assert forall|i: int| 0 <= i < p - 1 implies (#[trigger] rest[i]).at > x.at by {
            assert(rest[i] == sorted[i + 1]);
        }
        inserted_at(rest, x, p - 1);
        assert(sorted[0].at > x.at);
        assert(seq![sorted[0]] + rest.insert(p - 1, x) =~= sorted.insert(p, x));
    }
}

/// Sorting keeps every entry, and puts no older one before a newer.
pub proof fn newest_first_is_sorted(rows: Seq<EntryView>)
    ensures
        newest_first(rows).len() == rows.len(),
        newest_first(rows).to_multiset() == rows.to_multiset(),
        forall|i: int, j: int|
            0 <= i < j < rows.len() ==> (#[trigger] newest_first(rows)[i]).at >= (
            #[trigger] newest_first(rows)[j]).at,
    decreases rows.len(),
{
    if rows.len() > 0 {
        let x = rows.last();
        let s = newest_first(rows.drop_last());
        newest_first_is_sorted(rows.drop_last());
        let p = insert_position(s, x);
        inserted_at(s, x, p);
        let n = s.insert(p, x);
        vstd::seq_lib::to_multiset_insert(s, p, x);
        vstd::seq_lib::to_multiset_build(rows.drop_last(), x);
        assert(rows.drop_last().push(x) =~= rows);
        assert forall|i: int, j: int| 0 <= i < j < n.len() implies (#[trigger] n[i]).at >= (
        #[trigger] n[j]).at by {
            let (a, b) = (if i < p { i } else { i - 1 }, if j < p { j } else { j - 1 });
            if i != p && j != p {
                assert(n[i] == s[a] && n[j] == s[b]);
            } else if i == p {
                assert(n[j] == s[j - 1]);
                if j - 1 > p {
                    assert(s[p].at >= s[j - 1].at);
                }
            } else {
                assert(n[i] == s[i]);
            }
        }
    } else {
        assert(newest_first(rows) =~= rows);
    }
}

/// Where an entry goes among the sorted.
spec fn position_for(s: Seq<EntryView>, x: EntryView, p: int) -> bool {
    &&& 0 <= p <= s.len()
    &&& forall|i: int| 0 <= i < p ==> (#[trigger] s[i]).at > x.at
    &&& p < s.len() ==> s[p].at <= x.at
}

proof fn insert_position(s: Seq<EntryView>, x: EntryView) -> (p: int)
    ensures
        position_for(s, x, p),
    decreases s.len(),
{
    if s.len() == 0 || s[0].at <= x.at {
        0
    } else {
        let q = insert_position(s.skip(1), x);
        assert forall|i: int| 0 <= i < q + 1 implies (#[trigger] s[i]).at > x.at by {
            if i > 0 {
                assert(s[i] == s.skip(1)[i - 1]);
            }
        }
        q + 1
    }
}

/// The entries, newest first.
fn sorted_entries(rows: &Vec<Entry>) -> (out: Vec<Entry>)
    ensures
        entry_views(out@) == newest_first(entry_views(rows@)),
{
    let ghost all = entry_views(rows@);
    let mut out: Vec<Entry> = Vec::new();
    let mut i: usize = 0;
    assert(entry_views(out@) =~= newest_first(all.take(0)));
    while i < rows.len()
        invariant
            i <= rows.len(),
            all == entry_views(rows@),
            entry_views(out@) == newest_first(all.take(i as int)),
        decreases rows.len() - i,
    {
        let x = Entry { at: rows[i].at, station: rows[i].station.clone() };
        let ghost before = out@;
        let mut p: usize = 0;
        while p < out.len() && out[p].at > x.at
            invariant
                p <= out.len(),
                out@ == before,
                forall|k: int| 0 <= k < p ==> (#[trigger] entry_views(before)[k]).at > x.at,
            decreases out.len() - p,
        {
            assert(entry_views(before)[p as int].at == out@[p as int].at);
            p = p + 1;
        }
        out.insert(p, x);
        proof {
            assert(all.take(i + 1).drop_last() =~= all.take(i as int));
            assert(all.take(i + 1).last() == x@);
            if p < before.len() {
                assert(entry_views(before)[p as int].at == before[p as int].at);
            }
            inserted_at(entry_views(before), x@, p as int);
            assert(entry_views(out@) =~= entry_views(before).insert(p as int, x@));
        }
        i = i + 1;
    }
    assert(all.take(all.len() as int) =~= all);
    out
}

/// The stations of the first `n` entries.
fn first_stations(sorted: &Vec<Entry>, n: usize) -> (out: Vec<Station>)
    ensures
        station_views(out@) == stations_in(at_most(entry_views(sorted@), n as int)),
{
    let ghost wanted = stations_in(at_most(entry_views(sorted@), n as int));
    let mut out: Vec<Station> = Vec::new();
    let mut i: usize = 0;
    assert(station_views(out@) =~= wanted.take(0));
    while i < sorted.len() && i < n
        invariant
            i <= sorted.len(),
            i <= n,
            wanted == stations_in(at_most(entry_views(sorted@), n as int)),
            wanted.len() == (if sorted@.len() <= n {
                sorted@.len() as int
            } else {
                n as int
            }),
            station_views(out@) == wanted.take(i as int),
        decreases sorted.len() - i,
    {
        let ghost before = out@;
        let s = sorted[i].station.clone();
        out.push(s);
        proof {
            assert(station_views(out@) =~= station_views(before).push(s@));
            assert(wanted[i as int] == s@);
            assert(wanted.take(i + 1) =~= wanted.take(i as int).push(wanted[i as int]));
        }
        i = i + 1;
    }
    assert(wanted.take(wanted.len() as int) =~= wanted);
    out
}

// ---------------------------------------------------------------------------------------------
// Changes

/// Where a station's entry stands; the number of entries when it has none.
pub open spec fn entry_at(rows: Seq<EntryView>, uuid: Seq<char>) -> int
    decreases rows.len(),
{
    if rows.len() == 0 || rows[0].station.uuid == uuid {
        0
    } else {
        1 + entry_at(rows.skip(1), uuid)
    }
}

pub proof fn entry_at_is_first(rows: Seq<EntryView>, uuid: Seq<char>)
    ensures
        0 <= entry_at(rows, uuid) <= rows.len(),
        entry_at(rows, uuid) < rows.len() ==> rows[entry_at(rows, uuid)].station.uuid == uuid,
        forall|i: int| 0 <= i < entry_at(rows, uuid) ==> (#[trigger] rows[i]).station.uuid != uuid,
    decreases rows.len(),
{
    if rows.len() > 0 && rows[0].station.uuid != uuid {
        entry_at_is_first(rows.skip(1), uuid);
        assert forall|i: int| 0 <= i < entry_at(rows, uuid) implies (#[trigger] rows[i]).station.uuid
            != uuid by {
            if i > 0 {
                assert(rows[i] == rows.skip(1)[i - 1]);
            }
        }
    }
}

proof fn entry_at_is(rows: Seq<EntryView>, uuid: Seq<char>, n: int)
    requires
        0 <= n <= rows.len(),
        n < rows.len() ==> rows[n].station.uuid == uuid,
        forall|i: int| 0 <= i < n ==> (#[trigger] rows[i]).station.uuid != uuid,
    ensures
        entry_at(rows, uuid) == n,
{
    entry_at_is_first(rows, uuid);
    let p = entry_at(rows, uuid);
    if p < n {
        assert(rows[p].station.uuid != uuid);
    }
    if n < p {
        assert(rows[n].station.uuid != uuid);
    }
}

fn find_entry(rows: &Vec<Entry>, uuid: &str) -> (i: usize)
    ensures
        i == entry_at(entry_views(rows@), uuid@),
        i <= rows@.len(),
{
    let ghost all = entry_views(rows@);
    let wanted = uuid.to_owned();
    let mut i: usize = 0;
    while i < rows.len() && rows[i].station.uuid != wanted
        invariant
            i <= rows.len(),
            wanted@ == uuid@,
            all == entry_views(rows@),
            forall|k: int| 0 <= k < i ==> (#[trigger] all[k]).station.uuid != uuid@,
        decreases rows.len() - i,
    {
        assert(all[i as int].station.uuid == rows@[i as int].station.uuid@);
        i = i + 1;
    }
    proof {
        assert(all.len() == rows@.len());
        if i < all.len() {
            assert(all[i as int].station.uuid == rows@[i as int].station.uuid@);
        }
        entry_at_is(all, uuid@, i as int);
    }
    i
}

/// The favourites with a station added: one that is there keeps its place and its time, and takes
/// the new snapshot.
pub open spec fn with_favourite(rows: Seq<EntryView>, station: StationView, now: i64) -> Seq<
    EntryView,
> {
    let i = entry_at(rows, station.uuid);
    if i < rows.len() {
        rows.update(i, EntryView { at: rows[i].at, station })
    } else {
        rows.push(EntryView { at: now, station })
    }
}

/// The entries without the station's own.
pub open spec fn without(rows: Seq<EntryView>, uuid: Seq<char>) -> Seq<EntryView> {
    let i = entry_at(rows, uuid);
    if i < rows.len() {
        rows.remove(i)
    } else {
        rows
    }
}

/// The recents with a play noted: the station's old entry goes, and the new one is put in last.
pub open spec fn with_play(rows: Seq<EntryView>, station: StationView, now: i64) -> Seq<EntryView> {
    without(rows, station.uuid).push(EntryView { at: now, station })
}

/// The station has an entry.
pub open spec fn has_entry(rows: Seq<EntryView>, uuid: Seq<char>) -> bool {
    entry_at(rows, uuid) < rows.len()
}

/// Of the entries, those among the newest.
pub open spec fn kept_entries(rows: Seq<EntryView>, newest: Seq<EntryView>) -> Seq<EntryView>
    decreases rows.len(),
{
    if rows.len() == 0 {
        Seq::empty()
    } else if has_entry(newest, rows.last().station.uuid) {
        kept_entries(rows.drop_last(), newest).push(rows.last())
    } else {
        kept_entries(rows.drop_last(), newest)
    }
}

/// The recents after a play: the play noted, and the oldest out past the cap.
pub open spec fn played(rows: Seq<EntryView>, station: StationView, now: i64) -> Seq<EntryView> {
    let noted = with_play(rows, station, now);
    kept_entries(noted, at_most(newest_first(noted), RECENTS_CAP as int))
}

/// Favourites, most recently added first.
pub fn list_favourites(rows: &Vec<Entry>) -> (out: Vec<Station>)
    ensures
        station_views(out@) == stations_in(newest_first(entry_views(rows@))),
{
    let sorted = sorted_entries(rows);
    let n: usize = sorted.len();
    assert(at_most(entry_views(sorted@), n as int) =~= entry_views(sorted@));
    first_stations(&sorted, n)
}

/// Adds (or refreshes the snapshot of) a favourite. Idempotent on the station.
pub fn add_favourite(rows: &mut Vec<Entry>, station: &Station, now: i64)
    ensures
        entry_views(final(rows)@) == with_favourite(entry_views(old(rows)@), station@, now),
{
    let ghost before = rows@;
    let i: usize = find_entry(rows, station.uuid.as_str());
    assert(entry_views(before).len() == before.len());
    if i < rows.len() {
        let at: i64 = rows[i].at;
        rows.set(i, Entry { at, station: station.clone() });
    } else {
        rows.push(Entry { at: now, station: station.clone() });
    }
    assert(entry_views(rows@) =~= with_favourite(entry_views(before), station@, now));
}

/// Removes a favourite: whether it was one.
pub fn remove_favourite(rows: &mut Vec<Entry>, uuid: &str) -> (removed: bool)
    ensures
        removed == has_entry(entry_views(old(rows)@), uuid@),
        entry_views(final(rows)@) == without(entry_views(old(rows)@), uuid@),
{
    let ghost before = rows@;
    let i: usize = find_entry(rows, uuid);
    assert(entry_views(before).len() == before.len());
    if i < rows.len() {
        let _ = rows.remove(i);
        assert(entry_views(rows@) =~= entry_views(before).remove(i as int));
        true
    } else {
        false
    }
}

pub fn is_favourite(rows: &Vec<Entry>, uuid: &str) -> (r: bool)
    ensures
        r == has_entry(entry_views(rows@), uuid@),
{
    assert(entry_views(rows@).len() == rows@.len());
    find_entry(rows, uuid) < rows.len()
}

/// Recents, most recently played first, at most [`RECENTS_CAP`].
pub fn list_recents(rows: &Vec<Entry>) -> (out: Vec<Station>)
    ensures
        station_views(out@) == stations_in(
            at_most(newest_first(entry_views(rows@)), RECENTS_CAP as int),
        ),
{
    let sorted = sorted_entries(rows);
    first_stations(&sorted, RECENTS_CAP)
}

/// Records a play: a replay of a listed station moves it to the top (its time and snapshot
/// updated, no second entry); the list is trimmed to [`RECENTS_CAP`], oldest out.
pub fn record_played(rows: &mut Vec<Entry>, station: &Station, now: i64)
    ensures
        entry_views(final(rows)@) == played(entry_views(old(rows)@), station@, now),
{
    let ghost before = rows@;
    let i: usize = find_entry(rows, station.uuid.as_str());
    assert(entry_views(before).len() == before.len());
    if i < rows.len() {
        let _ = rows.remove(i);
    }
    assert(entry_views(rows@) =~= without(entry_views(before), station.uuid@));
    rows.push(Entry { at: now, station: station.clone() });
    let ghost noted = with_play(entry_views(before), station@, now);
    assert(entry_views(rows@) =~= noted);
    let mut newest = sorted_entries(rows);
    newest.truncate(RECENTS_CAP);
    let ghost top = at_most(newest_first(noted), RECENTS_CAP as int);
    assert(entry_views(newest@) =~= top);
    let mut kept: Vec<Entry> = Vec::new();
    let mut k: usize = 0;
    assert(entry_views(kept@) =~= kept_entries(noted.take(0), top));
    while k < rows.len()
        invariant
            k <= rows.len(),
            entry_views(rows@) == noted,
            entry_views(newest@) == top,
            entry_views(kept@) == kept_entries(noted.take(k as int), top),
        decreases rows.len() - k,
    {
        let ghost was = kept@;
        proof {
            assert(noted.take(k + 1).drop_last() =~= noted.take(k as int));
            assert(noted.take(k + 1).last() == rows@[k as int]@);
            assert(top.len() == newest@.len());
        }
        if find_entry(&newest, rows[k].station.uuid.as_str()) < newest.len() {
            let e = Entry { at: rows[k].at, station: rows[k].station.clone() };
            kept.push(e);
            assert(entry_views(kept@) =~= entry_views(was).push(e@));
        }
        k = k + 1;
    }
    assert(noted.take(noted.len() as int) =~= noted);
    *rows = kept;
}

// ---------------------------------------------------------------------------------------------
// What the tables keep

/// Adding a favourite again changes nothing: not its place, not its time.
pub proof fn adding_again_changes_nothing(
    rows: Seq<EntryView>,
    station: StationView,
    now: i64,
    later: i64,
)
    ensures
        with_favourite(with_favourite(rows, station, now), station, later) == with_favourite(
            rows,
            station,
            now,
        ),
{
    entry_at_is_first(rows, station.uuid);
    let once = with_favourite(rows, station, now);
    let i = entry_at(rows, station.uuid);
    entry_at_is(once, station.uuid, i);
    assert(with_favourite(once, station, later) =~= once);
}

/// What is added is a favourite, what is removed is none, and neither changes what any other
/// station is.
pub proof fn favourites_are_what_was_added(
    rows: Seq<EntryView>,
    station: StationView,
    now: i64,
    other: Seq<char>,
)
    requires
        entries_differ(rows),
    ensures
        entries_differ(with_favourite(rows, station, now)),
        has_entry(with_favourite(rows, station, now), station.uuid),
        other != station.uuid ==> has_entry(with_favourite(rows, station, now), other) == has_entry(
            rows,
            other,
        ),
        has_entry(rows, station.uuid) ==> ({
            let left = rows.remove(entry_at(rows, station.uuid));
            &&& entries_differ(left)
            &&& !has_entry(left, station.uuid)
            &&& other != station.uuid ==> has_entry(left, other) == has_entry(rows, other)
        }),
{
    let i = entry_at(rows, station.uuid);
    entry_at_is_first(rows, station.uuid);
    entry_at_is_first(rows, other);
    let o = entry_at(rows, other);
    let more = with_favourite(rows, station, now);
    entry_at_is(more, station.uuid, i);
    assert forall|a: int, b: int| 0 <= a < b < more.len() implies (#[trigger] more[a]).station.uuid
        != (#[trigger] more[b]).station.uuid by {
        if b < rows.len() {
            assert(rows[a].station.uuid != rows[b].station.uuid);
        } else {
            assert(rows[a].station.uuid != station.uuid);
        }
    }
    if other != station.uuid {
        if o < rows.len() {
            entry_at_is(more, other, o);
        } else {
            entry_at_is(more, other, more.len() as int);
        }
    }
    if i < rows.len() {
        let left = rows.remove(i);
        assert forall|a: int, b: int| 0 <= a < b < left.len() implies (#[trigger] left[a]).station.uuid
            != (#[trigger] left[b]).station.uuid by {
            let (x, y) = (if a < i { a } else { a + 1 }, if b < i { b } else { b + 1 });
            assert(left[a] == rows[x] && left[b] == rows[y]);
            assert(rows[x].station.uuid != rows[y].station.uuid);
        }
        assert forall|a: int| 0 <= a < left.len() implies (#[trigger] left[a]).station.uuid
            != station.uuid by {
            let x = if a < i {
                a
            } else {
                a + 1
            };
            assert(left[a] == rows[x]);
            if x < i {
                assert(rows[x].station.uuid != rows[i].station.uuid);
            } else {
                assert(rows[i].station.uuid != rows[x].station.uuid);
            }
        }
        entry_at_is(left, station.uuid, left.len() as int);
        if other != station.uuid {
            if o < rows.len() {
                let x = if o < i {
                    o
                } else {
                    o - 1
                };
                assert(left[x] == rows[o]);
                assert forall|a: int| 0 <= a < x implies (#[trigger] left[a]).station.uuid
                    != other by {
                    let y = if a < i {
                        a
                    } else {
                        a + 1
                    };
                    assert(left[a] == rows[y]);
                }
                entry_at_is(left, other, x);
            } else {
                assert forall|a: int| 0 <= a < left.len() implies (#[trigger] left[a]).station.uuid
                    != other by {
                    let y = if a < i {
                        a
                    } else {
                        a + 1
                    };
                    assert(left[a] == rows[y]);
                }
                entry_at_is(left, other, left.len() as int);
            }
        }
    }
}

proof fn kept_are_rows(rows: Seq<EntryView>, newest: Seq<EntryView>)
    requires
        entries_differ(rows),
    ensures
        entries_differ(kept_entries(rows, newest)),
        forall|i: int|
            0 <= i < kept_entries(rows, newest).len() ==> rows.contains(
                #[trigger] kept_entries(rows, newest)[i],
            ) && has_entry(newest, kept_entries(rows, newest)[i].station.uuid),
        forall|i: int|
            0 <= i < rows.len() && has_entry(newest, (#[trigger] rows[i]).station.uuid)
                ==> kept_entries(rows, newest).contains(rows[i]),
    decreases rows.len(),
{
    if rows.len() > 0 {
        let before = rows.drop_last();
        let k = kept_entries(before, newest);
        let now = kept_entries(rows, newest);
        assert(entries_differ(before)) by {
            assert forall|i: int, j: int| 0 <= i < j < before.len() implies (
            #[trigger] before[i]).station.uuid != (#[trigger] before[j]).station.uuid by {
                assert(before[i] == rows[i] && before[j] == rows[j]);
            }
        }
        kept_are_rows(before, newest);
        assert forall|i: int| 0 <= i < now.len() implies rows.contains(#[trigger] now[i])
            && has_entry(newest, now[i].station.uuid) by {
            if i < k.len() {
                assert(now[i] == k[i]);
                assert(before.contains(k[i]));
                let x = choose|x: int| 0 <= x < before.len() && before[x] == k[i];
                assert(rows[x] == k[i]);
            } else {
                assert(rows[rows.len() - 1] == now[i]);
            }
        }
        assert forall|i: int, j: int| 0 <= i < j < now.len() implies (#[trigger] now[i]).station.uuid
            != (#[trigger] now[j]).station.uuid by {
            if j < k.len() {
                assert(now[i] == k[i] && now[j] == k[j]);
            } else {
                assert(now[i] == k[i]);
                assert(before.contains(k[i]));
                let x = choose|x: int| 0 <= x < before.len() && before[x] == k[i];
                assert(rows[x].station.uuid != rows[rows.len() - 1].station.uuid);
            }
        }
        assert forall|i: int|
            0 <= i < rows.len() && has_entry(newest, (#[trigger] rows[i]).station.uuid) implies now.contains(
        rows[i]) by {
            if i < before.len() {
                assert(before[i] == rows[i]);
                assert(k.contains(before[i]));
                let x = choose|x: int| 0 <= x < k.len() && k[x] == before[i];
                assert(now[x] == rows[i]);
            } else {
                assert(now[now.len() - 1] == rows[i]);
            }
        }
    }
}

/// Distinct entries that are all among the newest are no more than those.
proof fn kept_are_no_more(kept: Seq<EntryView>, newest: Seq<EntryView>)
    requires
        entries_differ(kept),
        forall|i: int| 0 <= i < kept.len() ==> has_entry(newest, (#[trigger] kept[i]).station.uuid),
    ensures
        kept.len() <= newest.len(),
{
    let ids = kept.map_values(|e: EntryView| e.station.uuid);
    let top = newest.map_values(|e: EntryView| e.station.uuid);
    assert(ids.no_duplicates()) by {
        assert forall|a: int, b: int| 0 <= a < ids.len() && 0 <= b < ids.len() && a
            != b implies ids[a] != ids[b] by {
            if a < b {
                assert(kept[a].station.uuid != kept[b].station.uuid);
            } else {
                assert(kept[b].station.uuid != kept[a].station.uuid);
            }
        }
    }
    ids.unique_seq_to_set();
    vstd::seq_lib::seq_to_set_is_finite(ids);
    vstd::seq_lib::seq_to_set_is_finite(top);
    assert(ids.to_set().subset_of(top.to_set())) by {
        assert forall|u: Seq<char>| ids.to_set().contains(u) implies top.to_set().contains(u) by {
            let a = choose|a: int| 0 <= a < ids.len() && ids[a] == u;
            assert(ids.contains(u));
            assert(has_entry(newest, kept[a].station.uuid));
            entry_at_is_first(newest, u);
            assert(top[entry_at(newest, u)] == u);
            assert(top.contains(u));
        }
    }
    vstd::set_lib::lemma_len_subset(ids.to_set(), top.to_set());
    top.lemma_cardinality_of_set();
}

/// An entry that is put in last, and is not older than any, comes first.
pub proof fn the_newest_comes_first(rows: Seq<EntryView>, x: EntryView)
    requires
        forall|i: int| 0 <= i < rows.len() ==> (#[trigger] rows[i]).at <= x.at,
    ensures
        newest_first(rows.push(x)) == seq![x] + newest_first(rows),
{
    let sorted = newest_first(rows);
    assert(rows.push(x).drop_last() =~= rows);
    newest_first_is_sorted(rows);
    if sorted.len() > 0 {
        sorted.to_multiset_ensures();
        rows.to_multiset_ensures();
        assert(sorted.contains(sorted[0]));
        assert(rows.to_multiset().count(sorted[0]) > 0);
        assert(rows.contains(sorted[0]));
        let i = choose|i: int| 0 <= i < rows.len() && rows[i] == sorted[0];
        assert(rows[i].at <= x.at);
    }
}

/// Taking a station's entry out leaves the others, and none of that station.
proof fn without_leaves_the_others(rows: Seq<EntryView>, uuid: Seq<char>)
    requires
        entries_differ(rows),
    ensures
        entries_differ(without(rows, uuid)),
        forall|i: int|
            0 <= i < without(rows, uuid).len() ==> rows.contains(
                #[trigger] without(rows, uuid)[i],
            ) && without(rows, uuid)[i].station.uuid != uuid,
{
    entry_at_is_first(rows, uuid);
    let at = entry_at(rows, uuid);
    let left = without(rows, uuid);
    assert forall|i: int| 0 <= i < left.len() implies rows.contains(#[trigger] left[i])
        && left[i].station.uuid != uuid by {
        let y = if i < at {
            i
        } else {
            i + 1
        };
        assert(left[i] == rows[y]);
        if i >= at {
            assert(rows[at].station.uuid != rows[y].station.uuid);
        }
    }
    assert forall|i: int, j: int| 0 <= i < j < left.len() implies (#[trigger] left[i]).station.uuid
        != (#[trigger] left[j]).station.uuid by {
        let (y, z) = (
            if i < at {
                i
            } else {
                i + 1
            },
            if j < at {
                j
            } else {
                j + 1
            },
        );
        assert(left[i] == rows[y] && left[j] == rows[z]);
    }
}

/// Recents never list a station twice and never grow past the cap; and a play that is not earlier
/// than any other puts its station at the top.
pub proof fn recents_stay_short(rows: Seq<EntryView>, station: StationView, now: i64)
    requires
        entries_differ(rows),
    ensures
        entries_differ(played(rows, station, now)),
        played(rows, station, now).len() <= RECENTS_CAP,
        (forall|i: int| 0 <= i < rows.len() ==> (#[trigger] rows[i]).at <= now) ==> has_entry(
            played(rows, station, now),
            station.uuid,
        ) && newest_first(played(rows, station, now))[0] == (EntryView { at: now, station }),
{
    let left = without(rows, station.uuid);
    let noted = with_play(rows, station, now);
    let top = at_most(newest_first(noted), RECENTS_CAP as int);
    let after = played(rows, station, now);
    let new = EntryView { at: now, station };
    without_leaves_the_others(rows, station.uuid);
    assert(entries_differ(noted));
    kept_are_rows(noted, top);
    kept_are_no_more(after, top);
    newest_first_is_sorted(noted);
    if forall|k: int| 0 <= k < rows.len() ==> (#[trigger] rows[k]).at <= now {
        assert forall|k: int| 0 <= k < left.len() implies (#[trigger] left[k]).at <= now by {
            assert(rows.contains(left[k]));
        }
        the_newest_comes_first(left, new);
        assert(top[0] == new);
        entry_at_is(top, station.uuid, 0);
        assert(noted.drop_last() =~= left);
        let kept = kept_entries(left, top);
        assert(after == kept.push(new));
        kept_are_rows(left, top);
        assert forall|k: int| 0 <= k < kept.len() implies (#[trigger] kept[k]).at <= now
            && kept[k].station.uuid != station.uuid by {
            assert(left.contains(kept[k]));
            let x = choose|x: int| 0 <= x < left.len() && left[x] == kept[k];
            assert(left[x].at <= now);
        }
        the_newest_comes_first(kept, new);
        entry_at_is(after, station.uuid, kept.len() as int);
    }
}

/// The entries stand in the order of their times.
pub open spec fn in_order_of_time(rows: Seq<EntryView>) -> bool {
    forall|i: int, j: int|
        0 <= i < j < rows.len() ==> (#[trigger] rows[i]).at <= (#[trigger] rows[j]).at
}

/// While the clock does not go back, recents are listed in the order of their last plays, the
/// latest first, plays of one second too: the table stays in the order of the plays, and the list
/// is the table read from its end.
pub proof fn recents_are_in_order_of_play(rows: Seq<EntryView>, station: StationView, now: i64)
    requires
        entries_differ(rows),
        in_order_of_time(rows),
        forall|i: int| 0 <= i < rows.len() ==> (#[trigger] rows[i]).at <= now,
    ensures
        in_order_of_time(played(rows, station, now)),
        newest_first(played(rows, station, now)) == played(rows, station, now).reverse(),
        played(rows, station, now).last() == (EntryView { at: now, station }),
{
    let left = without(rows, station.uuid);
    let noted = with_play(rows, station, now);
    let top = at_most(newest_first(noted), RECENTS_CAP as int);
    let new = EntryView { at: now, station };
    without_leaves_the_others(rows, station.uuid);
    entry_at_is_first(rows, station.uuid);
    assert forall|k: int| 0 <= k < left.len() implies (#[trigger] left[k]).at <= now by {
        assert(rows.contains(left[k]));
    }
    assert(in_order_of_time(noted));
    assert(entries_differ(noted));
    kept_stay_in_order(noted, top);
    the_newest_comes_first(left, new);
    newest_first_is_sorted(noted);
    assert(top[0] == new);
    entry_at_is(top, station.uuid, 0);
    assert(noted.drop_last() =~= left);
    in_order_is_listed_from_the_end(played(rows, station, now));
}

/// While the clock does not go back, what is kept after a play are the last twenty plays, or all
/// where there are fewer, each station by its last: nothing else leaves the list, and everything
/// else stays as it was.
pub proof fn the_last_twenty_plays_are_kept(rows: Seq<EntryView>, station: StationView, now: i64)
    requires
        entries_differ(rows),
        in_order_of_time(rows),
        forall|i: int| 0 <= i < rows.len() ==> (#[trigger] rows[i]).at <= now,
    ensures
        ({
            let plays = without(rows, station.uuid).push(EntryView { at: now, station });
            let n = plays.len() as int;
            let kept = played(rows, station, now);
            kept == (if n <= 20 {
                plays
            } else {
                plays.skip(n - 20)
            })
        }),
        has_entry(rows, station.uuid) ==> without(rows, station.uuid).len() == rows.len() - 1,
        !has_entry(rows, station.uuid) ==> without(rows, station.uuid) == rows,
{
    let new = EntryView { at: now, station };
    let left = without(rows, station.uuid);
    let plays = left.push(new);
    let n = plays.len() as int;
    without_leaves_the_others(rows, station.uuid);
    entry_at_is_first(rows, station.uuid);
    assert forall|k: int| 0 <= k < left.len() implies (#[trigger] left[k]).at <= now by {
        assert(rows.contains(left[k]));
    }
    assert(in_order_of_time(plays));
    in_order_is_listed_from_the_end(plays);
    let top = at_most(newest_first(plays), 20);
    let cut = if n <= 20 {
        0
    } else {
        n - 20
    };
    assert forall|i: int| 0 <= i < n implies (has_entry(top, (#[trigger] plays[i]).station.uuid)
        <==> i >= cut) by {
        if i >= cut {
            assert(top[n - 1 - i] == plays[i]);
            entry_at_is_first(top, plays[i].station.uuid);
            if entry_at(top, plays[i].station.uuid) == top.len() {
                assert(top[n - 1 - i].station.uuid != plays[i].station.uuid);
            }
        } else {
            entry_at_is_first(top, plays[i].station.uuid);
            let x = entry_at(top, plays[i].station.uuid);
            if x < top.len() {
                assert(top[x] == plays[n - 1 - x]);
                assert(plays[i].station.uuid != plays[n - 1 - x].station.uuid);
            }
        }
    }
    kept_from(plays, top, cut);
}

proof fn kept_from(rows: Seq<EntryView>, newest: Seq<EntryView>, cut: int)
    requires
        0 <= cut <= rows.len(),
        forall|i: int|
            0 <= i < rows.len() ==> (has_entry(newest, (#[trigger] rows[i]).station.uuid) <==> i
                >= cut),
    ensures
        kept_entries(rows, newest) == rows.skip(cut),
    decreases rows.len(),
{
    if rows.len() > 0 {
        let before = rows.drop_last();
        assert(has_entry(newest, rows[rows.len() - 1].station.uuid) <==> rows.len() - 1 >= cut);
        if cut == rows.len() {
            kept_from(before, newest, cut - 1);
        } else {
            kept_from(before, newest, cut);
        }
        assert(kept_entries(rows, newest) =~= rows.skip(cut));
    } else {
        assert(kept_entries(rows, newest) =~= rows.skip(cut));
    }
}

/// A favourite that is added goes in last, with the time of its adding; one that is there keeps its
/// place and its time, and takes the new snapshot; no other changes.
pub proof fn a_favourite_keeps_its_place(rows: Seq<EntryView>, station: StationView, now: i64)
    ensures
        ({
            let after = with_favourite(rows, station, now);
            &&& !has_entry(rows, station.uuid) ==> after == rows.push(EntryView { at: now, station })
            &&& has_entry(rows, station.uuid) ==> {
                &&& after.len() == rows.len()
                &&& forall|i: int|
                    0 <= i < rows.len() ==> (#[trigger] after[i]).at == rows[i].at
                        && after[i].station.uuid == rows[i].station.uuid
                &&& exists|i: int| 0 <= i < rows.len() && (#[trigger] after[i]).station == station
                &&& forall|i: int|
                    0 <= i < rows.len() && rows[i].station.uuid != station.uuid
                        ==> #[trigger] after[i] == rows[i]
            }
        }),
{
    entry_at_is_first(rows, station.uuid);
    let after = with_favourite(rows, station, now);
    let i = entry_at(rows, station.uuid);
    if i < rows.len() {
        assert(after[i].station == station);
    }
}

/// A list shows the stations of its entries, in their order, up to its length.
pub proof fn a_list_shows_its_entries(rows: Seq<EntryView>, n: int)
    requires
        n >= 0,
    ensures
        stations_in(at_most(rows, n)).len() == (if rows.len() < n {
            rows.len() as int
        } else {
            n
        }),
        forall|i: int|
            0 <= i < stations_in(at_most(rows, n)).len() ==> #[trigger] stations_in(
                at_most(rows, n),
            )[i] == rows[i].station,
{
}

proof fn kept_stay_in_order(rows: Seq<EntryView>, newest: Seq<EntryView>)
    requires
        entries_differ(rows),
        in_order_of_time(rows),
    ensures
        in_order_of_time(kept_entries(rows, newest)),
    decreases rows.len(),
{
    if rows.len() > 0 {
        let before = rows.drop_last();
        let kept = kept_entries(before, newest);
        kept_stay_in_order(before, newest);
        kept_are_rows(before, newest);
        assert forall|k: int| 0 <= k < kept.len() implies (#[trigger] kept[k]).at
            <= rows.last().at by {
            assert(before.contains(kept[k]));
            let x = choose|x: int| 0 <= x < before.len() && before[x] == kept[k];
            assert(rows[x].at <= rows[rows.len() - 1].at);
        }
    }
}

proof fn in_order_is_listed_from_the_end(rows: Seq<EntryView>)
    requires
        in_order_of_time(rows),
    ensures
        newest_first(rows) == rows.reverse(),
    decreases rows.len(),
{
    if rows.len() > 0 {
        let before = rows.drop_last();
        in_order_is_listed_from_the_end(before);
        the_newest_comes_first(before, rows.last());
        assert(before.push(rows.last()) =~= rows);
        assert(seq![rows.last()] + before.reverse() =~= rows.reverse());
    } else {
        assert(newest_first(rows) =~= rows.reverse());
    }
}

} // verus!
