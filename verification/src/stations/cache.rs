//! The cache: the countries and the per-country station lists with their fetch time. The caller
//! keeps it on disk: it loads the rows, and writes them back after each change.
//!
//! What the cache decides: whether a stored list is **fresh** (within its time to live) or
//! **expired**. What it never does: drop an expired list. An expired list is served while a
//! refresh runs, and with no age ceiling when the network is down.

use vstd::prelude::*;

use super::model::{
    copy_countries, country_views, station_views, Country, CountryView, Station, StationView,
};
use super::sorting::{is_sorted, sort, Ranked};
use crate::text;
use crate::text::{holds, lowered, trimmed};

verus! {

/// The countries list changes by units: a week.
pub const TTL_COUNTRIES: i64 = 7 * 24 * 3600;

/// radio-browser checks every station roughly daily: a day.
pub const TTL_STATIONS: i64 = 24 * 3600;

/// How many steps the schema has; a database holds the number of those applied to it.
pub const SCHEMA_VERSION: u32 = 1;

/// The versions that a database at version `current` has yet to go through, in order. Each is a
/// step and its stamp in one transaction.
pub fn pending_migrations(current: u32) -> (steps: Vec<u32>)
    ensures
        steps@.len() == (if current < SCHEMA_VERSION {
            SCHEMA_VERSION - current
        } else {
            0
        }),
        forall|i: int| 0 <= i < steps@.len() ==> #[trigger] steps@[i] == current + 1 + i,
{
    let mut steps: Vec<u32> = Vec::new();
    let mut v: u32 = current;
    while v < SCHEMA_VERSION
        invariant
            current <= v,
            v <= SCHEMA_VERSION || v == current,
            steps@.len() == v - current,
            forall|i: int| 0 <= i < steps@.len() ==> #[trigger] steps@[i] == current + 1 + i,
        decreases SCHEMA_VERSION - v,
    {
        v = v + 1;
        steps.push(v);
    }
    steps
}

#[derive(Debug, Clone, PartialEq, Eq)]
pub enum CacheError {
    /// The database refused, in its own words.
    Sqlite(String),
    /// A stored station cannot be read, in the parser's words.
    Json(String),
}

pub open spec fn cache_text(e: CacheError) -> Seq<char> {
    match e {
        CacheError::Sqlite(m) => "sqlite: "@ + m@,
        CacheError::Json(m) => "stored station is not valid JSON: "@ + m@,
    }
}

impl CacheError {
    pub fn message(&self) -> (m: String)
        ensures
            m@ == cache_text(*self),
    {
        match self {
            CacheError::Sqlite(m) => "sqlite: ".to_owned().concat(m.as_str()),
            CacheError::Json(m) => "stored station is not valid JSON: ".to_owned().concat(
                m.as_str(),
            ),
        }
    }
}

/// A stored list with its age. `expired` is the cache's one judgement: as old as its time to live,
/// or older.
#[derive(Debug, Clone, PartialEq, Eq)]
pub struct Stored<T> {
    pub items: T,
    pub fetched_at: i64,
    pub age_secs: u64,
    pub expired: bool,
}

/// How old something fetched at `fetched_at` is; nothing when the clock went back.
pub open spec fn age(fetched_at: i64, now: i64) -> u64 {
    if now > fetched_at {
        (now - fetched_at) as u64
    } else {
        0
    }
}

/// A list fetched at `fetched_at`, judged at `now`.
pub fn stored<T>(items: T, fetched_at: i64, now: i64, ttl: i64) -> (s: Stored<T>)
    ensures
        s == (Stored {
            items,
            fetched_at,
            age_secs: age(fetched_at, now),
            expired: age(fetched_at, now) >= ttl,
        }),
{
    let age_secs: u64 = if now > fetched_at {
        (now as i128 - fetched_at as i128) as u64
    } else {
        0
    };
    Stored { items, fetched_at, age_secs, expired: age_secs as i128 >= ttl as i128 }
}

impl<T> Stored<T> {
    /// A list that was fetched and written just now.
    pub fn just_fetched(items: T, fetched_at: i64) -> (s: Stored<T>)
        ensures
            s == (Stored { items, fetched_at, age_secs: 0, expired: false }),
    {
        Stored { items, fetched_at, age_secs: 0, expired: false }
    }
}

// ---------------------------------------------------------------------------------------------
// The tables

/// A stored station, under the country it was listed for.
#[derive(Debug, Clone, PartialEq, Eq)]
pub struct StationRow {
    pub cc: String,
    pub station: Station,
}

/// When a country's list was fetched, how many rows were served, and how many kept.
#[derive(Debug, Clone, PartialEq, Eq)]
pub struct ListRow {
    pub cc: String,
    pub fetched_at: i64,
    pub source_rows: usize,
    pub kept_rows: usize,
}

#[derive(Debug, Clone, PartialEq, Eq)]
pub struct Cache {
    /// In the order they were served.
    pub countries: Vec<Country>,
    pub countries_fetched_at: i64,
    pub lists: Vec<ListRow>,
    /// Each country's in the order of their rank.
    pub stations: Vec<StationRow>,
}

pub struct ListView {
    pub cc: Seq<char>,
    pub fetched_at: i64,
    pub source_rows: usize,
    pub kept_rows: usize,
}

pub struct CacheView {
    pub countries: Seq<CountryView>,
    pub countries_fetched_at: i64,
    pub lists: Seq<ListView>,
    pub stations: Seq<(Seq<char>, StationView)>,
}

pub open spec fn row_views(rows: Seq<StationRow>) -> Seq<(Seq<char>, StationView)> {
    rows.map_values(|r: StationRow| (r.cc@, r.station@))
}

pub open spec fn list_views(rows: Seq<ListRow>) -> Seq<ListView> {
    rows.map_values(
        |r: ListRow|
            ListView {
                cc: r.cc@,
                fetched_at: r.fetched_at,
                source_rows: r.source_rows,
                kept_rows: r.kept_rows,
            },
    )
}

impl View for Cache {
    type V = CacheView;

    open spec fn view(&self) -> CacheView {
        CacheView {
            countries: country_views(self.countries@),
            countries_fetched_at: self.countries_fetched_at,
            lists: list_views(self.lists@),
            stations: row_views(self.stations@),
        }
    }
}

/// A list's items by their views.
pub open spec fn stored_countries(s: Option<Stored<Vec<Country>>>) -> Option<
    Stored<Seq<CountryView>>,
> {
    match s {
        Some(s) => Some(
            Stored {
                items: country_views(s.items@),
                fetched_at: s.fetched_at,
                age_secs: s.age_secs,
                expired: s.expired,
            },
        ),
        None => None,
    }
}

pub open spec fn stored_stations(s: Option<Stored<Vec<Station>>>) -> Option<
    Stored<Seq<StationView>>,
> {
    match s {
        Some(s) => Some(
            Stored {
                items: station_views(s.items@),
                fetched_at: s.fetched_at,
                age_secs: s.age_secs,
                expired: s.expired,
            },
        ),
        None => None,
    }
}

/// The stored countries.
pub open spec fn countries_in(c: CacheView, now: i64) -> Option<Stored<Seq<CountryView>>> {
    if c.countries.len() == 0 {
        None
    } else {
        Some(
            Stored {
                items: c.countries,
                fetched_at: c.countries_fetched_at,
                age_secs: age(c.countries_fetched_at, now),
                expired: age(c.countries_fetched_at, now) >= TTL_COUNTRIES,
            },
        )
    }
}

/// A country's published number of stations.
pub open spec fn count_for(countries: Seq<CountryView>, cc: Seq<char>) -> Option<u32>
    decreases countries.len(),
{
    if countries.len() == 0 {
        None
    } else if countries[0].code == cc {
        Some(countries[0].station_count)
    } else {
        count_for(countries.skip(1), cc)
    }
}

/// Where a country's list is noted; the number of lists when it is not.
pub open spec fn list_at(lists: Seq<ListView>, cc: Seq<char>) -> int
    decreases lists.len(),
{
    if lists.len() == 0 || lists[0].cc == cc {
        0
    } else {
        1 + list_at(lists.skip(1), cc)
    }
}

proof fn list_at_is_first(lists: Seq<ListView>, cc: Seq<char>)
    ensures
        0 <= list_at(lists, cc) <= lists.len(),
        list_at(lists, cc) < lists.len() ==> lists[list_at(lists, cc)].cc == cc,
        forall|i: int| 0 <= i < list_at(lists, cc) ==> (#[trigger] lists[i]).cc != cc,
    decreases lists.len(),
{
    if lists.len() > 0 && lists[0].cc != cc {
        list_at_is_first(lists.skip(1), cc);
        assert forall|i: int| 0 <= i < list_at(lists, cc) implies (#[trigger] lists[i]).cc != cc by {
            if i > 0 {
                assert(lists[i] == lists.skip(1)[i - 1]);
            }
        }
    }
}

proof fn list_at_is(lists: Seq<ListView>, cc: Seq<char>, n: int)
    requires
        0 <= n <= lists.len(),
        n < lists.len() ==> lists[n].cc == cc,
        forall|i: int| 0 <= i < n ==> (#[trigger] lists[i]).cc != cc,
    ensures
        list_at(lists, cc) == n,
{
    list_at_is_first(lists, cc);
    let p = list_at(lists, cc);
    if p < n {
        assert(lists[p].cc != cc);
    }
    if n < p {
        assert(lists[n].cc != cc);
    }
}

/// The stations stored for a country, in order.
pub open spec fn stations_of(rows: Seq<(Seq<char>, StationView)>, cc: Seq<char>) -> Seq<
    StationView,
>
    decreases rows.len(),
{
    if rows.len() == 0 {
        Seq::empty()
    } else if rows.last().0 == cc {
        stations_of(rows.drop_last(), cc).push(rows.last().1)
    } else {
        stations_of(rows.drop_last(), cc)
    }
}

/// The rows of every other country, in order.
pub open spec fn rows_without(rows: Seq<(Seq<char>, StationView)>, cc: Seq<char>) -> Seq<
    (Seq<char>, StationView),
>
    decreases rows.len(),
{
    if rows.len() == 0 {
        Seq::empty()
    } else if rows.last().0 == cc {
        rows_without(rows.drop_last(), cc)
    } else {
        rows_without(rows.drop_last(), cc).push(rows.last())
    }
}

/// A country's stored list.
pub open spec fn stations_in(c: CacheView, cc: Seq<char>, now: i64) -> Option<
    Stored<Seq<StationView>>,
> {
    let i = list_at(c.lists, cc);
    if i < c.lists.len() {
        let fetched_at = c.lists[i].fetched_at;
        Some(
            Stored {
                items: stations_of(c.stations, cc),
                fetched_at,
                age_secs: age(fetched_at, now),
                expired: age(fetched_at, now) >= TTL_STATIONS,
            },
        )
    } else {
        None
    }
}

/// The cache with a country's list replaced.
pub open spec fn with_stations(
    c: CacheView,
    cc: Seq<char>,
    ranked: Seq<StationView>,
    source_rows: usize,
    fetched_at: i64,
) -> CacheView {
    let noted = ListView { cc, fetched_at, source_rows, kept_rows: ranked.len() as usize };
    let i = list_at(c.lists, cc);
    CacheView {
        lists: if i < c.lists.len() {
            c.lists.update(i, noted)
        } else {
            c.lists.push(noted)
        },
        stations: rows_without(c.stations, cc) + ranked.map_values(|s: StationView| (cc, s)),
        ..c
    }
}

/// No identifier stands twice.
pub open spec fn uuids_differ(v: Seq<StationView>) -> bool {
    forall|i: int, j: int| 0 <= i < j < v.len() ==> (#[trigger] v[i]).uuid != (#[trigger] v[j]).uuid
}

/// No code stands twice.
pub open spec fn codes_differ(v: Seq<CountryView>) -> bool {
    forall|i: int, j: int| 0 <= i < j < v.len() ==> (#[trigger] v[i]).code != (#[trigger] v[j]).code
}

fn check_uuids(v: &Vec<Station>) -> (r: bool)
    ensures
        r == uuids_differ(station_views(v@)),
{
    let ghost views = station_views(v@);
    let mut j: usize = 0;
    while j < v.len()
        invariant
            j <= v.len(),
            views == station_views(v@),
            forall|a: int, b: int|
                0 <= a < b < j ==> (#[trigger] views[a]).uuid != (#[trigger] views[b]).uuid,
        decreases v.len() - j,
    {
        let mut i: usize = 0;
        while i < j
            invariant
                i <= j,
                j < v.len(),
                views == station_views(v@),
                forall|a: int| 0 <= a < i ==> (#[trigger] views[a]).uuid != views[j as int].uuid,
            decreases j - i,
        {
            assert(views[i as int] == v@[i as int]@ && views[j as int] == v@[j as int]@);
            if v[i].uuid == v[j].uuid {
                return false;
            }
            i = i + 1;
        }
        j = j + 1;
    }
    true
}

fn check_codes(v: &Vec<Country>) -> (r: bool)
    ensures
        r == codes_differ(country_views(v@)),
{
    let ghost views = country_views(v@);
    let mut j: usize = 0;
    while j < v.len()
        invariant
            j <= v.len(),
            views == country_views(v@),
            forall|a: int, b: int|
                0 <= a < b < j ==> (#[trigger] views[a]).code != (#[trigger] views[b]).code,
        decreases v.len() - j,
    {
        let mut i: usize = 0;
        while i < j
            invariant
                i <= j,
                j < v.len(),
                views == country_views(v@),
                forall|a: int| 0 <= a < i ==> (#[trigger] views[a]).code != views[j as int].code,
            decreases j - i,
        {
            assert(views[i as int] == v@[i as int]@ && views[j as int] == v@[j as int]@);
            if v[i].code == v[j].code {
                return false;
            }
            i = i + 1;
        }
        j = j + 1;
    }
    true
}

impl Cache {
    /// A cache that nothing was ever stored in.
    pub fn new() -> (c: Cache)
        ensures
            c@.countries.len() == 0,
            c@.countries_fetched_at == 0,
            c@.lists.len() == 0,
            c@.stations.len() == 0,
    {
        Cache {
            countries: Vec::new(),
            countries_fetched_at: 0,
            lists: Vec::new(),
            stations: Vec::new(),
        }
    }

    /// The countries list, if one was ever stored, in the order it was served.
    pub fn countries(&self, now: i64) -> (r: Option<Stored<Vec<Country>>>)
        ensures
            stored_countries(r) == countries_in(self@, now),
    {
        assert(self@.countries.len() == self.countries@.len());
        if self.countries.len() == 0 {
            return None;
        }
        Some(
            stored(
                copy_countries(&self.countries),
                self.countries_fetched_at,
                now,
                TTL_COUNTRIES,
            ),
        )
    }

    /// Replaces the countries list. A code that stands twice is refused, and nothing changes.
    pub fn put_countries(&mut self, items: &Vec<Country>, fetched_at: i64) -> (r: Result<
        (),
        CacheError,
    >)
        ensures
            if codes_differ(country_views(items@)) {
                &&& r is Ok
                &&& final(self)@ == (CacheView {
                    countries: country_views(items@),
                    countries_fetched_at: fetched_at,
                    ..old(self)@
                })
            } else {
                &&& r matches Err(CacheError::Sqlite(m))
                &&& m@ == "UNIQUE constraint failed: countries.code"@
                &&& final(self)@ == old(self)@
            },
    {
        if !check_codes(items) {
            return Err(
                CacheError::Sqlite("UNIQUE constraint failed: countries.code".to_owned()),
            );
        }
        self.countries = copy_countries(items);
        self.countries_fetched_at = fetched_at;
        Ok(())
    }

    /// The published station count for a code, for the truncation guard.
    pub fn station_count(&self, cc: &str) -> (r: Option<u32>)
        ensures
            r == count_for(self@.countries, cc@),
    {
        let ghost all = self@.countries;
        let mut i: usize = 0;
        assert(all.skip(0) =~= all);
        while i < self.countries.len()
            invariant
                i <= self.countries.len(),
                all == self@.countries,
                count_for(all.skip(i as int), cc@) == count_for(all, cc@),
            decreases self.countries.len() - i,
        {
            assert(all.skip(i as int)[0] == self.countries@[i as int]@);
            if text::is(&text::chars_of(self.countries[i].code.as_str()), cc) {
                return Some(self.countries[i].station_count);
            }
            assert(all.skip(i as int).skip(1) =~= all.skip(i + 1));
            i = i + 1;
        }
        None
    }

    /// Where a country's list is noted.
    fn find_list(&self, cc: &String) -> (i: usize)
        ensures
            i == list_at(self@.lists, cc@),
            i <= self.lists@.len(),
    {
        let ghost all = self@.lists;
        let mut i: usize = 0;
        while i < self.lists.len() && self.lists[i].cc != *cc
            invariant
                i <= self.lists.len(),
                all == self@.lists,
                forall|j: int| 0 <= j < i ==> (#[trigger] all[j]).cc != cc@,
            decreases self.lists.len() - i,
        {
            assert(all[i as int].cc == self.lists@[i as int].cc@);
            i = i + 1;
        }
        proof {
            assert(all.len() == self.lists@.len());
            if i < all.len() {
                assert(all[i as int].cc == self.lists@[i as int].cc@);
            }
            list_at_is(all, cc@, i as int);
        }
        i
    }

    /// One country's ranked list, if stored, in the order of rank.
    pub fn stations(&self, cc: &String, now: i64) -> (r: Option<Stored<Vec<Station>>>)
        ensures
            stored_stations(r) == stations_in(self@, cc@, now),
    {
        let at: usize = self.find_list(cc);
        assert(self@.lists.len() == self.lists@.len());
        if at == self.lists.len() {
            return None;
        }
        let ghost rows = self@.stations;
        let mut items: Vec<Station> = Vec::new();
        let mut i: usize = 0;
        assert(station_views(items@) =~= stations_of(rows.take(0), cc@));
        while i < self.stations.len()
            invariant
                i <= self.stations.len(),
                rows == self@.stations,
                station_views(items@) == stations_of(rows.take(i as int), cc@),
            decreases self.stations.len() - i,
        {
            let ghost before = items@;
            proof {
                assert(rows.take(i + 1).drop_last() =~= rows.take(i as int));
                assert(rows.take(i + 1).last() == rows[i as int]);
            }
            if self.stations[i].cc == *cc {
                let s = self.stations[i].station.clone();
                items.push(s);
                assert(station_views(items@) =~= station_views(before).push(s@));
            }
            i = i + 1;
        }
        assert(rows.take(rows.len() as int) =~= rows);
        let fetched_at: i64 = self.lists[at].fetched_at;
        Some(stored(items, fetched_at, now, TTL_STATIONS))
    }

    /// Replaces one country's list (already ranked and capped). An identifier that stands twice is
    /// refused, and nothing changes.
    pub fn put_stations(
        &mut self,
        cc: &String,
        ranked: &Vec<Station>,
        source_rows: usize,
        fetched_at: i64,
    ) -> (r: Result<(), CacheError>)
        ensures
            if uuids_differ(station_views(ranked@)) {
                &&& r is Ok
                &&& final(self)@ == with_stations(
                    old(self)@,
                    cc@,
                    station_views(ranked@),
                    source_rows,
                    fetched_at,
                )
            } else {
                &&& r matches Err(CacheError::Sqlite(m))
                &&& m@ == "UNIQUE constraint failed: stations.cc, stations.uuid"@
                &&& final(self)@ == old(self)@
            },
    {
        if !check_uuids(ranked) {
            return Err(
                CacheError::Sqlite(
                    "UNIQUE constraint failed: stations.cc, stations.uuid".to_owned(),
                ),
            );
        }
        let ghost before = self@;
        let at: usize = self.find_list(cc);
        let noted = ListRow {
            cc: cc.clone(),
            fetched_at,
            source_rows,
            kept_rows: ranked.len(),
        };
        let mut kept: Vec<StationRow> = Vec::new();
        let mut i: usize = 0;
        assert(row_views(kept@) =~= rows_without(before.stations.take(0), cc@));
        while i < self.stations.len()
            invariant
                i <= self.stations.len(),
                self@ == before,
                row_views(kept@) == rows_without(before.stations.take(i as int), cc@),
            decreases self.stations.len() - i,
        {
            let ghost was = kept@;
            proof {
                assert(before.stations.take(i + 1).drop_last() =~= before.stations.take(i as int));
                assert(before.stations.take(i + 1).last() == before.stations[i as int]);
            }
            if self.stations[i].cc != *cc {
                let row = StationRow {
                    cc: self.stations[i].cc.clone(),
                    station: self.stations[i].station.clone(),
                };
                kept.push(row);
                assert(row_views(kept@) =~= row_views(was).push((row.cc@, row.station@)));
            }
            i = i + 1;
        }
        assert(before.stations.take(before.stations.len() as int) =~= before.stations);
        let ghost others = rows_without(before.stations, cc@);
        let ghost added = station_views(ranked@).map_values(|s: StationView| (cc@, s));
        let mut k: usize = 0;
        assert(row_views(kept@) =~= others + added.take(0));
        while k < ranked.len()
            invariant
                k <= ranked.len(),
                added == station_views(ranked@).map_values(|s: StationView| (cc@, s)),
                row_views(kept@) == others + added.take(k as int),
            decreases ranked.len() - k,
        {
            let ghost was = kept@;
            let row = StationRow { cc: cc.clone(), station: ranked[k].clone() };
            kept.push(row);
            proof {
                assert(row_views(kept@) =~= row_views(was).push((row.cc@, row.station@)));
                assert(added.take(k + 1) =~= added.take(k as int).push(added[k as int]));
                assert(added[k as int] == (row.cc@, row.station@));
                assert(row_views(kept@) =~= others + added.take(k + 1));
            }
            k = k + 1;
        }
        assert(added.take(added.len() as int) =~= added);
        let ghost lists = self.lists@;
        assert(before.lists.len() == lists.len());
        if at < self.lists.len() {
            self.lists.set(at, noted);
        } else {
            self.lists.push(noted);
        }
        self.stations = kept;
        assert(self@.lists =~= with_stations(
            before,
            cc@,
            station_views(ranked@),
            source_rows,
            fetched_at,
        ).lists);
        Ok(())
    }
}

// ---------------------------------------------------------------------------------------------
// What a read gives back of a write

proof fn stations_of_others(rows: Seq<(Seq<char>, StationView)>, cc: Seq<char>, other: Seq<char>)
    ensures
        stations_of(rows_without(rows, cc), cc) == Seq::<StationView>::empty(),
        other != cc ==> stations_of(rows_without(rows, cc), other) == stations_of(rows, other),
    decreases rows.len(),
{
    if rows.len() > 0 {
        let before = rows.drop_last();
        stations_of_others(before, cc, other);
        if rows.last().0 != cc {
            let w = rows_without(before, cc).push(rows.last());
            assert(w.drop_last() =~= rows_without(before, cc));
        }
    }
}

proof fn stations_of_added(
    rows: Seq<(Seq<char>, StationView)>,
    cc: Seq<char>,
    added: Seq<StationView>,
    other: Seq<char>,
)
    ensures
        stations_of(rows + added.map_values(|s: StationView| (cc, s)), cc) == stations_of(rows, cc)
            + added,
        other != cc ==> stations_of(rows + added.map_values(|s: StationView| (cc, s)), other)
            == stations_of(rows, other),
    decreases added.len(),
{
    let tail = added.map_values(|s: StationView| (cc, s));
    let all = rows + tail;
    if added.len() == 0 {
        assert(all =~= rows);
        assert(stations_of(rows, cc) + added =~= stations_of(rows, cc));
    } else {
        stations_of_added(rows, cc, added.drop_last(), other);
        assert(all.drop_last() =~= rows + added.drop_last().map_values(|s: StationView| (cc, s)));
        assert(all.last() == (cc, added.last()));
        assert((stations_of(rows, cc) + added.drop_last()).push(added.last()) =~= stations_of(
            rows,
            cc,
        ) + added);
    }
}

/// A list that was put is read back as it was put, with its age counted from its fetch; the list
/// of any other country, and the countries, are read as before.
pub proof fn a_list_is_read_back(
    c: CacheView,
    cc: Seq<char>,
    ranked: Seq<StationView>,
    source_rows: usize,
    fetched_at: i64,
    other: Seq<char>,
    now: i64,
)
    ensures
        ({
            let after = with_stations(c, cc, ranked, source_rows, fetched_at);
            &&& stations_in(after, cc, now) == Some(
                Stored {
                    items: ranked,
                    fetched_at,
                    age_secs: age(fetched_at, now),
                    expired: age(fetched_at, now) >= TTL_STATIONS,
                },
            )
            &&& other != cc ==> stations_in(after, other, now) == stations_in(c, other, now)
            &&& countries_in(after, now) == countries_in(c, now)
        }),
{
    let after = with_stations(c, cc, ranked, source_rows, fetched_at);
    let others = rows_without(c.stations, cc);
    stations_of_others(c.stations, cc, other);
    stations_of_added(others, cc, ranked, other);
    assert(Seq::<StationView>::empty() + ranked =~= ranked);
    list_at_is_first(c.lists, cc);
    list_at_is_first(c.lists, other);
    let i = list_at(c.lists, cc);
    list_at_is(after.lists, cc, i);
    if other != cc {
        let j = list_at(c.lists, other);
        if j < c.lists.len() {
            list_at_is(after.lists, other, j);
        } else {
            list_at_is(after.lists, other, after.lists.len() as int);
        }
    }
}

/// A list is never dropped for its age: whatever the clock says, it is there with its items, and
/// expired exactly from its time to live on.
pub proof fn an_expired_list_is_kept(c: CacheView, cc: Seq<char>, now: i64, later: i64)
    requires
        stations_in(c, cc, now) is Some,
    ensures
        stations_in(c, cc, later) is Some,
        stations_in(c, cc, later)->0.items == stations_in(c, cc, now)->0.items,
        stations_in(c, cc, later)->0.expired <==> later - stations_in(c, cc, now)->0.fetched_at
            >= TTL_STATIONS,
{
}

// ---------------------------------------------------------------------------------------------
// Search

/// What a search looks for: the query without the white space around it.
pub open spec fn sought(query: Seq<char>) -> Seq<char> {
    trimmed(query)
}

/// A name that a search for `sought` finds, whatever the case of ASCII letters.
pub open spec fn found(name: Seq<char>, sought: Seq<char>) -> bool {
    holds(lowered(name), lowered(sought))
}

/// `order` lists the rows whose names are found, each once, the most votes first.
pub open spec fn is_search(
    rows: Seq<(Seq<char>, StationView)>,
    sought: Seq<char>,
    order: Seq<int>,
) -> bool {
    &&& order.no_duplicates()
    &&& forall|j: int|
        #[trigger] order.contains(j) <==> 0 <= j < rows.len() && found(rows[j].1.name, sought)
    &&& forall|a: int, b: int|
        0 <= a < b < order.len() ==> rows[#[trigger] order[a]].1.votes >= rows[
            #[trigger] order[b]
        ].1.votes
}

/// The stations of an order, up to a limit.
pub open spec fn first_of(
    rows: Seq<(Seq<char>, StationView)>,
    order: Seq<int>,
    limit: int,
) -> Seq<StationView> {
    order.take(
        if order.len() <= limit {
            order.len() as int
        } else {
            limit
        },
    ).map_values(|j: int| rows[j].1)
}

/// A row that was found.
struct Hit {
    index: usize,
    votes: i64,
}

impl Ranked for Hit {
    closed spec fn may_precede(a: Hit, b: Hit) -> bool {
        a.votes >= b.votes
    }

    proof fn is_total(a: Hit, b: Hit) {
    }

    proof fn is_transitive(a: Hit, b: Hit, c: Hit) {
    }

    fn precedes(&self, other: &Hit) -> (r: bool) {
        self.votes >= other.votes
    }
}

fn clean_query(query: &str) -> (out: Vec<char>)
    ensures
        out@ == lowered(sought(query@)),
{
    let chars = text::chars_of(query);
    text::to_lowered(text::trim(&chars))
}

impl Cache {
    /// Search over every stored list, for when the network is down: a substring of the name,
    /// whatever the case of ASCII letters, by votes.
    pub fn search_local(&self, query: &str, limit: usize) -> (out: Vec<Station>)
        ensures
            exists|order: Seq<int>| #[trigger]
                is_search(self@.stations, sought(query@), order) && station_views(out@) == first_of(
                    self@.stations,
                    order,
                    limit as int,
                ),
    {
        let ghost rows = self@.stations;
        let ghost q = sought(query@);
        let needle = clean_query(query);
        let mut hits: Vec<Hit> = Vec::new();
        let mut i: usize = 0;
        while i < self.stations.len()
            invariant
                i <= self.stations.len(),
                rows == self@.stations,
                needle@ == lowered(q),
                forall|k: int|
                    0 <= k < hits@.len() ==> (#[trigger] hits@[k]).index < i && found(
                        rows[hits@[k].index as int].1.name,
                        q,
                    ) && hits@[k].votes == rows[hits@[k].index as int].1.votes,
                forall|j: int|
                    0 <= j < i && found((#[trigger] rows[j]).1.name, q) ==> exists|k: int|
                        0 <= k < hits@.len() && (#[trigger] hits@[k]).index == j,
                forall|a: int, b: int|
                    0 <= a < b < hits@.len() ==> (#[trigger] hits@[a]).index < (
                    #[trigger] hits@[b]).index,
            decreases self.stations.len() - i,
        {
            let ghost before = hits@;
            let name = text::chars_of(self.stations[i].station.name.as_str());
            let low = text::to_lowered(&name);
            assert(rows[i as int].1 == self.stations@[i as int].station@);
            if text::contains(&low, &needle) {
                hits.push(Hit { index: i, votes: self.stations[i].station.votes });
            }
            proof {
                assert forall|j: int| 0 <= j < i + 1 && found((#[trigger] rows[j]).1.name, q) implies exists|
                    k: int,
                | 0 <= k < hits@.len() && (#[trigger] hits@[k]).index == j by {
                    if j < i {
                        let k = choose|k: int| 0 <= k < before.len() && (#[trigger] before[k]).index
                            == j;
                        assert(hits@[k] == before[k]);
                    } else {
                        assert(hits@[before.len() as int].index == i);
                    }
                }
            }
            i = i + 1;
        }
        let ghost all = hits@;
        let sorted = sort(hits);
        let ghost order = sorted@.map_values(|h: Hit| h.index as int);
        proof {
            assert(rows.len() == self.stations@.len());
            sorted_hits_are_a_search(all, sorted@, rows, q);
        }
        let ghost best = first_of(rows, order, limit as int);
        let mut out: Vec<Station> = Vec::new();
        let mut k: usize = 0;
        assert(station_views(out@) =~= best.take(0));
        while k < sorted.len() && k < limit
            invariant
                k <= sorted.len(),
                k <= limit,
                rows == self@.stations,
                order == sorted@.map_values(|h: Hit| h.index as int),
                best == first_of(rows, order, limit as int),
                best.len() == (if sorted@.len() <= limit {
                    sorted@.len() as int
                } else {
                    limit as int
                }),
                forall|a: int| 0 <= a < sorted@.len() ==> (#[trigger] sorted@[a]).index < rows.len(),
                station_views(out@) == best.take(k as int),
            decreases sorted.len() - k,
        {
            let ghost before = out@;
            assert(rows.len() == self.stations@.len());
            let s = self.stations[sorted[k].index].station.clone();
            out.push(s);
            proof {
                assert(station_views(out@) =~= station_views(before).push(s@));
                assert(best[k as int] == s@);
                assert(best.take(k + 1) =~= best.take(k as int).push(best[k as int]));
            }
            k = k + 1;
        }
        assert(best.take(best.len() as int) =~= best);
        out
    }
}

proof fn sorted_hits_are_a_search(
    hits: Seq<Hit>,
    sorted: Seq<Hit>,
    rows: Seq<(Seq<char>, StationView)>,
    q: Seq<char>,
)
    requires
        is_sorted(sorted),
        sorted.to_multiset() == hits.to_multiset(),
        sorted.len() == hits.len(),
        forall|k: int|
            0 <= k < hits.len() ==> (#[trigger] hits[k]).index < rows.len() && found(
                rows[hits[k].index as int].1.name,
                q,
            ) && hits[k].votes == rows[hits[k].index as int].1.votes,
        forall|j: int|
            0 <= j < rows.len() && found((#[trigger] rows[j]).1.name, q) ==> exists|k: int|
                0 <= k < hits.len() && (#[trigger] hits[k]).index == j,
        forall|a: int, b: int|
            0 <= a < b < hits.len() ==> (#[trigger] hits[a]).index < (#[trigger] hits[b]).index,
    ensures
        is_search(rows, q, sorted.map_values(|h: Hit| h.index as int)),
        forall|a: int| 0 <= a < sorted.len() ==> (#[trigger] sorted[a]).index < rows.len(),
{
    let order = sorted.map_values(|h: Hit| h.index as int);
    sorted.to_multiset_ensures();
    hits.to_multiset_ensures();
    assert(hits.no_duplicates()) by {
        assert forall|a: int, b: int| 0 <= a < hits.len() && 0 <= b < hits.len() && a
            != b implies hits[a] != hits[b] by {
            if a < b {
                assert(hits[a].index < hits[b].index);
            } else {
                assert(hits[b].index < hits[a].index);
            }
        }
    }
    hits.lemma_multiset_has_no_duplicates();
    sorted.lemma_multiset_has_no_duplicates_conv();
    assert forall|k: int| 0 <= k < sorted.len() implies hits.contains(#[trigger] sorted[k]) by {
        assert(sorted.contains(sorted[k]));
        assert(sorted.to_multiset().count(sorted[k]) > 0);
    }
    assert forall|a: int| 0 <= a < sorted.len() implies (#[trigger] sorted[a]).index < rows.len() by {
        assert(hits.contains(sorted[a]));
    }
    assert(order.no_duplicates()) by {
        assert forall|a: int, b: int| 0 <= a < order.len() && 0 <= b < order.len() && a
            != b implies order[a] != order[b] by {
            assert(hits.contains(sorted[a]) && hits.contains(sorted[b]));
            let x = choose|x: int| 0 <= x < hits.len() && hits[x] == sorted[a];
            let y = choose|y: int| 0 <= y < hits.len() && hits[y] == sorted[b];
            assert(sorted[a] != sorted[b]);
            if x < y {
                assert(hits[x].index < hits[y].index);
            } else {
                assert(hits[y].index < hits[x].index);
            }
        }
    }
    assert forall|j: int| #[trigger] order.contains(j) <==> 0 <= j < rows.len() && found(
        rows[j].1.name,
        q,
    ) by {
        if order.contains(j) {
            let a = choose|a: int| 0 <= a < order.len() && order[a] == j;
            assert(hits.contains(sorted[a]));
        }
        if 0 <= j < rows.len() && found(rows[j].1.name, q) {
            let x = choose|x: int| 0 <= x < hits.len() && (#[trigger] hits[x]).index == j;
            assert(hits.contains(hits[x]));
            assert(sorted.to_multiset().count(hits[x]) > 0);
            assert(sorted.contains(hits[x]));
            let a = choose|a: int| 0 <= a < sorted.len() && sorted[a] == hits[x];
            assert(order[a] == j);
        }
    }
    assert forall|a: int, b: int| 0 <= a < b < order.len() implies rows[#[trigger] order[a]].1.votes
        >= rows[#[trigger] order[b]].1.votes by {
        assert(Hit::may_precede(sorted[a], sorted[b]));
        assert(hits.contains(sorted[a]) && hits.contains(sorted[b]));
    }
}

// ---------------------------------------------------------------------------------------------
// What a search finds, and what is stored

/// A search finds the stations whose name holds the whole query but for the white space around it,
/// inner white space and later words included; all of them, no others, and those with more votes
/// first.
pub proof fn a_search_finds_the_whole_query(
    rows: Seq<(Seq<char>, StationView)>,
    pre: Seq<char>,
    q: Seq<char>,
    post: Seq<char>,
    order: Seq<int>,
)
    requires
        forall|i: int| 0 <= i < pre.len() ==> text::white(#[trigger] pre[i]),
        forall|i: int| 0 <= i < post.len() ==> text::white(#[trigger] post[i]),
        q.len() > 0 ==> !text::white(q[0]) && !text::white(q.last()),
        is_search(rows, sought(pre + q + post), order),
    ensures
        forall|j: int|
            #[trigger] order.contains(j) <==> 0 <= j < rows.len() && text::holds_alike(rows[j].1.name, q),
        order.no_duplicates(),
        forall|a: int, b: int|
            0 <= a < b < order.len() ==> rows[#[trigger] order[a]].1.votes >= rows[
                #[trigger] order[b]
            ].1.votes,
{
    text::trimming_takes_the_white_off(pre, q, post);
    assert forall|j: int| #[trigger] order.contains(j) <==> 0 <= j < rows.len()
        && text::holds_alike(rows[j].1.name, q) by {
        if 0 <= j < rows.len() {
            text::lowered_holds_alike(rows[j].1.name, q);
        }
    }
}

/// The stations handed out are the first of those found, as many as the limit allows, each as it is
/// stored; what is left out has no more votes than any of them.
pub proof fn a_search_hands_out_the_best(
    rows: Seq<(Seq<char>, StationView)>,
    q: Seq<char>,
    order: Seq<int>,
    limit: int,
)
    requires
        limit >= 0,
        is_search(rows, q, order),
    ensures
        ({
            let out = first_of(rows, order, limit);
            &&& out.len() == (if order.len() < limit {
                order.len() as int
            } else {
                limit
            })
            &&& forall|a: int| 0 <= a < out.len() ==> #[trigger] out[a] == rows[order[a]].1
            &&& forall|a: int, b: int|
                0 <= a < out.len() <= b < order.len() ==> (#[trigger] out[a]).votes >= rows[
                    #[trigger] order[b]
                ].1.votes
        }),
{
    let out = first_of(rows, order, limit);
    assert forall|a: int, b: int| 0 <= a < out.len() <= b < order.len() implies (
    #[trigger] out[a]).votes >= rows[#[trigger] order[b]].1.votes by {
        assert(rows[order[a]].1.votes >= rows[order[b]].1.votes);
    }
}

/// A list is as old as the clock has gone on since its fetch, and of no age where the clock went
/// back. A country's list expires after a day, the countries after a week, and not a second before.
pub proof fn lists_expire_by_their_age(c: CacheView, cc: Seq<char>, now: i64)
    ensures
        stations_in(c, cc, now) matches Some(s) ==> {
            &&& s.age_secs == (if now > s.fetched_at {
                now - s.fetched_at
            } else {
                0
            })
            &&& s.expired <==> now - s.fetched_at >= 86_400
        },
        countries_in(c, now) matches Some(s) ==> {
            &&& s.items == c.countries
            &&& s.fetched_at == c.countries_fetched_at
            &&& s.age_secs == (if now > s.fetched_at {
                now - s.fetched_at
            } else {
                0
            })
            &&& s.expired <==> now - s.fetched_at >= 604_800
        },
        countries_in(c, now) is None <==> c.countries.len() == 0,
        stations_in(c, cc, now) is Some <==> exists|i: int|
            0 <= i < c.lists.len() && (#[trigger] c.lists[i]).cc == cc,
{
    list_at_is_first(c.lists, cc);
    let i = list_at(c.lists, cc);
    if i < c.lists.len() {
        assert(c.lists[i].cc == cc);
    }
}

/// The count of a country is the one that its row gives, and there is none for a country that has
/// no row.
pub proof fn a_count_is_that_of_its_country(countries: Seq<CountryView>, i: int, cc: Seq<char>)
    requires
        codes_differ(countries),
    ensures
        0 <= i < countries.len() ==> count_for(countries, countries[i].code) == Some(
            countries[i].station_count,
        ),
        (forall|k: int| 0 <= k < countries.len() ==> (#[trigger] countries[k]).code != cc)
            ==> count_for(countries, cc) is None,
    decreases countries.len(),
{
    if countries.len() > 0 {
        let rest = countries.skip(1);
        assert forall|a: int, b: int| 0 <= a < b < rest.len() implies (#[trigger] rest[a]).code != (
        #[trigger] rest[b]).code by {
            assert(rest[a] == countries[a + 1] && rest[b] == countries[b + 1]);
        }
        a_count_is_that_of_its_country(rest, i - 1, cc);
        if 0 < i < countries.len() {
            assert(countries[0].code != countries[i].code);
            assert(rest[i - 1] == countries[i]);
        }
        if forall|k: int| 0 <= k < countries.len() ==> (#[trigger] countries[k]).code != cc {
            assert forall|k: int| 0 <= k < rest.len() implies (#[trigger] rest[k]).code != cc by {
                assert(rest[k] == countries[k + 1]);
            }
            assert(countries[0].code != cc);
        }
    }
}

/// A list is noted with its fetch, with how many rows were served and how many were kept.
pub proof fn a_list_is_noted_with_its_rows(
    c: CacheView,
    cc: Seq<char>,
    ranked: Seq<StationView>,
    source_rows: usize,
    fetched_at: i64,
)
    requires
        ranked.len() <= usize::MAX,
    ensures
        exists|i: int|
            0 <= i < with_stations(c, cc, ranked, source_rows, fetched_at).lists.len() && (
            #[trigger] with_stations(c, cc, ranked, source_rows, fetched_at).lists[i]) == (ListView {
                cc,
                fetched_at,
                source_rows,
                kept_rows: ranked.len() as usize,
            }),
{
    list_at_is_first(c.lists, cc);
    let after = with_stations(c, cc, ranked, source_rows, fetched_at);
    let i = list_at(c.lists, cc);
    assert(after.lists[i].cc == cc);
}

/// A list is stored exactly when no identifier of it stands twice, and the countries exactly when no
/// code does.
pub proof fn what_may_be_stored(v: Seq<StationView>, w: Seq<CountryView>)
    ensures
        uuids_differ(v) <==> v.map_values(|s: StationView| s.uuid).no_duplicates(),
        codes_differ(w) <==> w.map_values(|c: CountryView| c.code).no_duplicates(),
{
    let ids = v.map_values(|s: StationView| s.uuid);
    let codes = w.map_values(|c: CountryView| c.code);
    if uuids_differ(v) {
        assert forall|a: int, b: int| 0 <= a < ids.len() && 0 <= b < ids.len() && a
            != b implies ids[a] != ids[b] by {
            if a < b {
                assert(v[a].uuid != v[b].uuid);
            } else {
                assert(v[b].uuid != v[a].uuid);
            }
        }
    }
    if ids.no_duplicates() {
        assert forall|i: int, j: int| 0 <= i < j < v.len() implies (#[trigger] v[i]).uuid != (
        #[trigger] v[j]).uuid by {
            assert(ids[i] != ids[j]);
        }
    }
    if codes_differ(w) {
        assert forall|a: int, b: int| 0 <= a < codes.len() && 0 <= b < codes.len() && a
            != b implies codes[a] != codes[b] by {
            if a < b {
                assert(w[a].code != w[b].code);
            } else {
                assert(w[b].code != w[a].code);
            }
        }
    }
    if codes.no_duplicates() {
        assert forall|i: int, j: int| 0 <= i < j < w.len() implies (#[trigger] w[i]).code != (
        #[trigger] w[j]).code by {
            assert(codes[i] != codes[j]);
        }
    }
}

} // verus!
