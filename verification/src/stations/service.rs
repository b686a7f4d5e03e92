//! The service: every request is answered from the cache **without awaiting the network**; fetches
//! run beside it and report back.
//!
//! Read path for a list: fresh in the cache, and it is answered at once as `Cached`. Expired, and
//! it is answered at once as `Cached` and `refreshing`, and a refresh is started if none is in
//! flight. Missing, and the caller waits under the fetch's key; concurrent callers for one
//! country share one fetch. When a fetch lands the list is replaced, every waiter gets it as
//! `Fresh`, and an event tells the page to ask again. When it fails, waiters get the error (they
//! had nothing to fall back on), an expired list stays where it was, with no age ceiling, and the
//! same event comes with the outcome `Failed`: every fetch ends with exactly one event. A fetch
//! whose list the cache refuses to store ends exactly like a failed one: the outcome is derived
//! from the write, never assumed from the fetch.

use vstd::prelude::*;

use super::cache::{cache_text, first_of, is_search, sought, Cache, CacheError, Stored};
use super::client::{client_text, error_ok, ClientError, ClientErrorView, SEARCH_LIMIT};
use super::filter;
use super::filter::{folded_names, is_ranking, listed, CAP};
use super::model::{
    station_views, CacheSource, Country, ListedCountries, ListedStations, RefreshOutcome, Station,
};
use crate::outside::{quote, quoted};
use crate::text;
use crate::text::{trimmed, uppered};

verus! {

/// What is forwarded to the page.
#[derive(Debug, Clone, PartialEq, Eq)]
pub enum Event {
    /// A background refresh of this country's list ended. `Landed`: the stored list was replaced,
    /// ask for it again. `Failed`: nothing changed; the expired list stays.
    StationsUpdated { country_code: String, outcome: RefreshOutcome },
    /// The same for the countries list.
    CountriesUpdated { outcome: RefreshOutcome },
}

#[derive(Debug, Clone, PartialEq, Eq)]
pub enum ServiceError {
    Client(ClientError),
    Cache(String),
    InvalidCountry(String),
    Closed,
}

pub enum ServiceErrorView {
    Client(ClientErrorView),
    Cache(Seq<char>),
    InvalidCountry(Seq<char>),
    Closed,
}

impl View for ServiceError {
    type V = ServiceErrorView;

    open spec fn view(&self) -> ServiceErrorView {
        match self {
            ServiceError::Client(e) => ServiceErrorView::Client(e@),
            ServiceError::Cache(m) => ServiceErrorView::Cache(m@),
            ServiceError::InvalidCountry(c) => ServiceErrorView::InvalidCountry(c@),
            ServiceError::Closed => ServiceErrorView::Closed,
        }
    }
}

/// The sentence for an error.
pub open spec fn service_text(e: ServiceErrorView) -> Seq<char> {
    match e {
        ServiceErrorView::Client(e) => client_text(e),
        ServiceErrorView::Cache(m) => "cache: "@ + m,
        ServiceErrorView::InvalidCountry(c) => "invalid country code "@ + quoted(c),
        ServiceErrorView::Closed => "the stations service is not running"@,
    }
}

impl ServiceError {
    pub fn message(&self) -> (m: String)
        requires
            self@ matches ServiceErrorView::Client(e) ==> error_ok(e),
        ensures
            m@ == service_text(self@),
    {
        match self {
            ServiceError::Client(e) => e.message(),
            ServiceError::Cache(m) => "cache: ".to_owned().concat(m.as_str()),
            ServiceError::InvalidCountry(c) => "invalid country code ".to_owned().concat(
                quote(c.as_str()).as_str(),
            ),
            ServiceError::Closed => "the stations service is not running".to_owned(),
        }
    }
}

fn cache_refused(e: CacheError) -> (r: ServiceError)
    ensures
        r@ == ServiceErrorView::Cache(cache_text(e)),
{
    ServiceError::Cache(e.message())
}

/// Two capital letters.
pub open spec fn is_key(c: Seq<char>) -> bool {
    &&& c.len() == 2
    &&& 'A' <= c[0] && c[0] <= 'Z'
    &&& 'A' <= c[1] && c[1] <= 'Z'
}

/// The key of a country: its code, trimmed and in capitals. Anything but two letters is refused.
pub fn country_key(cc: &str) -> (r: Result<String, ServiceError>)
    ensures
        match r {
            Ok(k) => k@ == uppered(trimmed(cc@)) && is_key(k@),
            Err(e) => e@ == ServiceErrorView::InvalidCountry(uppered(trimmed(cc@))) && !is_key(
                uppered(trimmed(cc@)),
            ),
        },
{
    let chars = text::chars_of(cc);
    let k = text::to_uppered(text::trim(&chars));
    let key = text::string_of(&k);
    if k.len() == 2 && 'A' <= k[0] && k[0] <= 'Z' && 'A' <= k[1] && k[1] <= 'Z' {
        Ok(key)
    } else {
        Err(ServiceError::InvalidCountry(key))
    }
}

// ---------------------------------------------------------------------------------------------
// The state of one list

/// What the cache had for a request.
pub enum Had {
    /// It could not be read.
    Refused,
    Fresh,
    Expired,
    Nothing,
}

/// What a request does to the state of its list. The state is the waiters of the fetch in flight,
/// if there is one; an answer is owed at once unless the cache had nothing; a fetch is started
/// unless one is in flight or the list is fresh.
pub struct Asked {
    pub state: Option<Seq<u64>>,
    pub answered: bool,
    pub fetch: bool,
}

pub open spec fn asked(state: Option<Seq<u64>>, reply: u64, had: Had) -> Asked {
    match had {
        Had::Refused | Had::Fresh => Asked { state, answered: true, fetch: false },
        Had::Expired => Asked {
            state: match state {
                Some(w) => Some(w),
                None => Some(Seq::empty()),
            },
            answered: true,
            fetch: state is None,
        },
        Had::Nothing => Asked {
            state: match state {
                Some(w) => Some(w.push(reply)),
                None => Some(seq![reply]),
            },
            answered: false,
            fetch: state is None,
        },
    }
}

/// Whether a list that is answered is told as being refreshed.
pub open spec fn is_refreshing(expired: bool, state: Option<Seq<u64>>) -> bool {
    expired || state is Some
}

/// Who waits for a fetch.
pub open spec fn waiting(state: Option<Seq<u64>>) -> Seq<u64> {
    match state {
        Some(w) => w,
        None => Seq::empty(),
    }
}

pub open spec fn had_of<T>(r: Result<Option<Stored<T>>, CacheError>) -> Had {
    match r {
        Err(_) => Had::Refused,
        Ok(None) => Had::Nothing,
        Ok(Some(s)) => if s.expired {
            Had::Expired
        } else {
            Had::Fresh
        },
    }
}

/// One thing that happens to a list.
pub enum ListOp {
    Ask(u64, Had),
    /// The fetch in flight ended.
    Done,
}

/// Where a list stands: its state, who was answered, how many fetches were started, and how many
/// events told of one that ended.
pub struct ListRun {
    pub state: Option<Seq<u64>>,
    pub answers: Seq<u64>,
    pub fetches: nat,
    pub events: nat,
}

pub open spec fn list_step(r: ListRun, op: ListOp) -> ListRun {
    match op {
        ListOp::Ask(reply, had) => {
            let a = asked(r.state, reply, had);
            ListRun {
                state: a.state,
                answers: if a.answered {
                    r.answers.push(reply)
                } else {
                    r.answers
                },
                fetches: r.fetches + (if a.fetch {
                    1nat
                } else {
                    0nat
                }),
                ..r
            }
        },
        ListOp::Done => ListRun {
            state: None,
            answers: r.answers + waiting(r.state),
            events: r.events + 1,
            ..r
        },
    }
}

/// A fetch ends only while one is in flight.
pub open spec fn possible(r: ListRun, op: ListOp) -> bool {
    op is Done ==> r.state is Some
}

pub open spec fn list_run(ops: Seq<ListOp>) -> ListRun
    decreases ops.len(),
{
    if ops.len() == 0 {
        ListRun { state: None, answers: Seq::empty(), fetches: 0, events: 0 }
    } else {
        list_step(list_run(ops.drop_last()), ops.last())
    }
}

pub open spec fn all_possible(ops: Seq<ListOp>) -> bool
    decreases ops.len(),
{
    ops.len() > 0 ==> all_possible(ops.drop_last()) && possible(
        list_run(ops.drop_last()),
        ops.last(),
    )
}

/// The replies that were asked for.
pub open spec fn replies(ops: Seq<ListOp>) -> Seq<u64>
    decreases ops.len(),
{
    if ops.len() == 0 {
        Seq::empty()
    } else {
        match ops.last() {
            ListOp::Ask(reply, _) => replies(ops.drop_last()).push(reply),
            ListOp::Done => replies(ops.drop_last()),
        }
    }
}

/// Whatever happens to a list: every caller is answered once or waits once, for a fetch that is in
/// flight; and every fetch that was started ended with one event or is in flight, at most one at
/// a time.
pub proof fn every_fetch_ends_with_one_event(ops: Seq<ListOp>)
    requires
        all_possible(ops),
    ensures
        replies(ops).to_multiset() == list_run(ops).answers.to_multiset().add(
            waiting(list_run(ops).state).to_multiset(),
        ),
        list_run(ops).fetches == list_run(ops).events + (if list_run(ops).state is Some {
            1nat
        } else {
            0nat
        }),
    decreases ops.len(),
{
    broadcast use vstd::multiset::group_multiset_axioms;

    let none = Seq::<u64>::empty();
    none.to_multiset_ensures();
    vstd::multiset::lemma_multiset_empty_len(none.to_multiset());
    if ops.len() == 0 {
        assert(replies(ops).to_multiset() =~= list_run(ops).answers.to_multiset().add(
            waiting(list_run(ops).state).to_multiset(),
        ));
    } else {
        let before = ops.drop_last();
        every_fetch_ends_with_one_event(before);
        let r = list_run(before);
        let n = list_run(ops);
        match ops.last() {
            ListOp::Ask(reply, had) => {
                vstd::seq_lib::to_multiset_build(replies(before), reply);
                vstd::seq_lib::to_multiset_build(r.answers, reply);
                vstd::seq_lib::to_multiset_build(waiting(r.state), reply);
                assert(none.push(reply) =~= seq![reply]);
                assert(replies(ops).to_multiset() =~= n.answers.to_multiset().add(
                    waiting(n.state).to_multiset(),
                ));
            },
            ListOp::Done => {
                vstd::seq_lib::lemma_multiset_commutative(r.answers, waiting(r.state));
                assert(replies(ops).to_multiset() =~= n.answers.to_multiset().add(
                    waiting(n.state).to_multiset(),
                ));
            },
        }
    }
}

// ---------------------------------------------------------------------------------------------
// The service

/// A fetch in flight for a country; the callers waiting for it (none for a background refresh).
#[derive(Debug, Clone, PartialEq, Eq)]
pub struct Pending {
    pub cc: String,
    pub waiters: Vec<u64>,
}

/// The fetches in flight. A caller is known by the number of its reply.
#[derive(Debug, Clone, PartialEq, Eq)]
pub struct Service {
    pub pending_stations: Vec<Pending>,
    pub pending_countries: Option<Vec<u64>>,
}

/// Where a country's fetch is noted; the number of fetches when none is in flight.
pub open spec fn pending_at(v: Seq<Pending>, cc: Seq<char>) -> int
    decreases v.len(),
{
    if v.len() == 0 || v[0].cc@ == cc {
        0
    } else {
        1 + pending_at(v.skip(1), cc)
    }
}

/// The state of a country's list.
pub open spec fn pending_for(v: Seq<Pending>, cc: Seq<char>) -> Option<Seq<u64>> {
    let i = pending_at(v, cc);
    if i < v.len() {
        Some(v[i].waiters@)
    } else {
        None
    }
}

/// No country has two fetches in flight.
pub open spec fn one_each(v: Seq<Pending>) -> bool {
    forall|i: int, j: int| 0 <= i < j < v.len() ==> (#[trigger] v[i]).cc@ != (#[trigger] v[j]).cc@
}

proof fn pending_at_is_first(v: Seq<Pending>, cc: Seq<char>)
    ensures
        0 <= pending_at(v, cc) <= v.len(),
        pending_at(v, cc) < v.len() ==> v[pending_at(v, cc)].cc@ == cc,
        forall|i: int| 0 <= i < pending_at(v, cc) ==> (#[trigger] v[i]).cc@ != cc,
    decreases v.len(),
{
    if v.len() > 0 && v[0].cc@ != cc {
        pending_at_is_first(v.skip(1), cc);
        assert forall|i: int| 0 <= i < pending_at(v, cc) implies (#[trigger] v[i]).cc@ != cc by {
            if i > 0 {
                assert(v[i] == v.skip(1)[i - 1]);
            }
        }
    }
}

proof fn pending_at_is(v: Seq<Pending>, cc: Seq<char>, n: int)
    requires
        0 <= n <= v.len(),
        n < v.len() ==> v[n].cc@ == cc,
        forall|i: int| 0 <= i < n ==> (#[trigger] v[i]).cc@ != cc,
    ensures
        pending_at(v, cc) == n,
{
    pending_at_is_first(v, cc);
    let p = pending_at(v, cc);
    if p < n {
        assert(v[p].cc@ != cc);
    }
    if n < p {
        assert(v[n].cc@ != cc);
    }
}

/// `after` differs from `before` in the state of one country only.
pub open spec fn changed_only(
    before: Seq<Pending>,
    after: Seq<Pending>,
    cc: Seq<char>,
    state: Option<Seq<u64>>,
) -> bool {
    &&& one_each(after)
    &&& pending_for(after, cc) == state
    &&& forall|other: Seq<char>|
        other != cc ==> #[trigger] pending_for(after, other) == pending_for(before, other)
}

proof fn replaced_changes_one(v: Seq<Pending>, w: Seq<Pending>, i: int)
    requires
        one_each(v),
        0 <= i < v.len(),
        w.len() == v.len(),
        w[i].cc@ == v[i].cc@,
        forall|k: int| 0 <= k < v.len() && k != i ==> #[trigger] w[k] == v[k],
    ensures
        changed_only(v, w, v[i].cc@, Some(w[i].waiters@)),
{
    let cc = v[i].cc@;
    assert forall|a: int, b: int| 0 <= a < b < w.len() implies (#[trigger] w[a]).cc@ != (
    #[trigger] w[b]).cc@ by {
        assert(v[a].cc@ != v[b].cc@);
        assert(a != i ==> w[a] == v[a]);
        assert(b != i ==> w[b] == v[b]);
    }
    assert forall|k: int| 0 <= k < i implies (#[trigger] w[k]).cc@ != cc by {
        assert(w[k] == v[k]);
        assert(v[k].cc@ != v[i].cc@);
    }
    pending_at_is(w, cc, i);
    assert forall|other: Seq<char>| other != cc implies #[trigger] pending_for(w, other)
        == pending_for(v, other) by {
        pending_at_is_first(v, other);
        let p = pending_at(v, other);
        assert(p < v.len() ==> p != i);
        assert forall|k: int| 0 <= k < p implies (#[trigger] w[k]).cc@ != other by {
            assert(v[k].cc@ != other);
            assert(k != i ==> w[k] == v[k]);
        }
        if p < v.len() {
            assert(w[p] == v[p]);
        }
        pending_at_is(w, other, p);
    }
}

proof fn pushed_changes_one(v: Seq<Pending>, p: Pending)
    requires
        one_each(v),
        pending_for(v, p.cc@) is None,
    ensures
        changed_only(v, v.push(p), p.cc@, Some(p.waiters@)),
{
    let w = v.push(p);
    pending_at_is_first(v, p.cc@);
    assert forall|a: int, b: int| 0 <= a < b < w.len() implies (#[trigger] w[a]).cc@ != (
    #[trigger] w[b]).cc@ by {
        assert(w[a] == v[a]);
        if b < v.len() {
            assert(w[b] == v[b]);
        } else {
            assert(v[a].cc@ != p.cc@);
        }
    }
    assert forall|k: int| 0 <= k < v.len() implies (#[trigger] w[k]).cc@ != p.cc@ by {
        assert(w[k] == v[k]);
    }
    pending_at_is(w, p.cc@, v.len() as int);
    assert forall|other: Seq<char>| other != p.cc@ implies #[trigger] pending_for(w, other)
        == pending_for(v, other) by {
        pending_at_is_first(v, other);
        let q = pending_at(v, other);
        let n = if q < v.len() {
            q
        } else {
            w.len() as int
        };
        assert forall|k: int| 0 <= k < n implies (#[trigger] w[k]).cc@ != other by {
            if k < v.len() {
                assert(w[k] == v[k]);
            }
        }
        pending_at_is(w, other, n);
    }
}

proof fn removed_changes_one(v: Seq<Pending>, i: int)
    requires
        one_each(v),
        0 <= i < v.len(),
    ensures
        changed_only(v, v.remove(i), v[i].cc@, None),
{
    let w = v.remove(i);
    let cc = v[i].cc@;
    assert forall|k: int| 0 <= k < w.len() implies #[trigger] w[k] == v[if k < i {
        k
    } else {
        k + 1
    }] by {}
    assert forall|a: int, b: int| 0 <= a < b < w.len() implies (#[trigger] w[a]).cc@ != (
    #[trigger] w[b]).cc@ by {
        let (x, y) = (if a < i { a } else { a + 1 }, if b < i { b } else { b + 1 });
        assert(w[a] == v[x] && w[b] == v[y]);
        assert(v[x].cc@ != v[y].cc@);
    }
    assert forall|k: int| 0 <= k < w.len() implies (#[trigger] w[k]).cc@ != cc by {
        let x = if k < i {
            k
        } else {
            k + 1
        };
        assert(w[k] == v[x]);
        if x < i {
            assert(v[x].cc@ != v[i].cc@);
        } else {
            assert(v[i].cc@ != v[x].cc@);
        }
    }
    pending_at_is(w, cc, w.len() as int);
    assert forall|other: Seq<char>| other != cc implies #[trigger] pending_for(w, other)
        == pending_for(v, other) by {
        pending_at_is_first(v, other);
        let p = pending_at(v, other);
        let n = if p == v.len() {
            w.len() as int
        } else if p < i {
            p
        } else {
            p - 1
        };
        assert(p < v.len() ==> p != i);
        assert forall|k: int| 0 <= k < n implies (#[trigger] w[k]).cc@ != other by {
            let x = if k < i {
                k
            } else {
                k + 1
            };
            assert(w[k] == v[x]);
        }
        if n < w.len() {
            assert(w[n] == v[p]);
        }
        pending_at_is(w, other, n);
    }
}

/// An answer to a request, and whether a fetch is to be started. No answer: the caller waits.
#[derive(Debug)]
pub struct Reply<T> {
    pub answer: Option<Result<T, ServiceError>>,
    pub fetch: bool,
}

/// The end of a fetch: who waited for it, what each of them gets, and the event.
#[derive(Debug)]
pub struct Done<T> {
    pub waiters: Vec<u64>,
    pub result: Result<T, ServiceError>,
    pub event: Event,
}

/// `l` lists `s` for `cc`.
pub open spec fn is_stations_listing(
    l: ListedStations,
    cc: Seq<char>,
    s: Stored<Vec<Station>>,
    source: CacheSource,
    refreshing: bool,
) -> bool {
    &&& l.country_code@ == cc
    &&& l.items == s.items
    &&& l.fetched_at == s.fetched_at
    &&& l.age_secs == s.age_secs
    &&& l.source == source
    &&& l.refreshing == refreshing
}

pub fn listed_stations(
    cc: &String,
    s: Stored<Vec<Station>>,
    source: CacheSource,
    refreshing: bool,
) -> (l: ListedStations)
    ensures
        is_stations_listing(l, cc@, s, source, refreshing),
{
    ListedStations {
        country_code: cc.clone(),
        items: s.items,
        fetched_at: s.fetched_at,
        age_secs: s.age_secs,
        source,
        refreshing,
    }
}

pub fn listed_countries(s: Stored<Vec<Country>>, source: CacheSource, refreshing: bool) -> (l:
    ListedCountries)
    ensures
        l == (ListedCountries {
            items: s.items,
            fetched_at: s.fetched_at,
            age_secs: s.age_secs,
            source,
            refreshing,
        }),
{
    ListedCountries {
        items: s.items,
        fetched_at: s.fetched_at,
        age_secs: s.age_secs,
        source,
        refreshing,
    }
}

/// How a fetch that came to `result` ended: `Landed` only when the list was stored.
pub fn outcome_of<T>(result: &Result<T, ServiceError>) -> (o: RefreshOutcome)
    ensures
        o == (if result is Ok {
            RefreshOutcome::Landed
        } else {
            RefreshOutcome::Failed
        }),
{
    match result {
        Ok(_) => RefreshOutcome::Landed,
        Err(_) => RefreshOutcome::Failed,
    }
}

/// What a station fetch is worth: the rows ranked and capped, to be stored, and how many there
/// were; or the error.
pub fn stations_fetched(result: Result<Vec<Station>, ClientError>) -> (r: Result<
    (Vec<Station>, usize),
    ServiceError,
>)
    ensures
        match result {
            Ok(rows) => {
                &&& r matches Ok((ranked, source_rows))
                &&& source_rows == rows@.len()
                &&& exists|order: Seq<int>| #[trigger]
                    is_ranking(rows@, folded_names(rows@), order) && ranked@ == listed(
                        rows@,
                        order,
                        CAP as int,
                    )
            },
            Err(e) => r == Err::<(Vec<Station>, usize), ServiceError>(ServiceError::Client(e)),
        },
{
    match result {
        Ok(rows) => {
            let n: usize = rows.len();
            Ok((filter::rank(rows, CAP), n))
        },
        Err(e) => Err(ServiceError::Client(e)),
    }
}

/// What a fetched list that was, or was not, stored comes to.
pub fn written<T>(items: T, fetched_at: i64, put: Result<(), CacheError>) -> (r: Result<
    Stored<T>,
    ServiceError,
>)
    ensures
        match put {
            Ok(_) => r == Ok::<Stored<T>, ServiceError>(
                Stored { items, fetched_at, age_secs: 0, expired: false },
            ),
            Err(e) => r matches Err(s) && s@ == ServiceErrorView::Cache(cache_text(e)),
        },
{
    match put {
        Ok(_) => Ok(Stored::just_fetched(items, fetched_at)),
        Err(e) => Err(cache_refused(e)),
    }
}

/// The answer to a search: what the server found, or, when it did not answer, what the cache
/// finds.
pub fn search_answer(result: Result<Vec<Station>, ClientError>, cache: &Cache, query: &str) -> (out:
    Vec<Station>)
    ensures
        match result {
            Ok(rows) => out == rows,
            Err(_) => exists|order: Seq<int>| #[trigger]
                is_search(cache@.stations, sought(query@), order) && station_views(out@)
                    == first_of(cache@.stations, order, SEARCH_LIMIT as int),
        },
{
    match result {
        Ok(rows) => rows,
        Err(_) => cache.search_local(query, SEARCH_LIMIT as usize),
    }
}

impl Service {
    /// No country has two fetches in flight.
    pub open spec fn wf(&self) -> bool {
        one_each(self.pending_stations@)
    }

    /// Who waits for the countries.
    pub open spec fn countries_state(&self) -> Option<Seq<u64>> {
        match self.pending_countries {
            Some(w) => Some(w@),
            None => None,
        }
    }

    pub fn new() -> (s: Service)
        ensures
            s.wf(),
            s.pending_stations@.len() == 0,
            s.pending_countries is None,
    {
        Service { pending_stations: Vec::new(), pending_countries: None }
    }

    fn find_pending(&self, cc: &String) -> (i: usize)
        ensures
            i == pending_at(self.pending_stations@, cc@),
            i <= self.pending_stations@.len(),
    {
        let mut i: usize = 0;
        while i < self.pending_stations.len() && self.pending_stations[i].cc != *cc
            invariant
                i <= self.pending_stations.len(),
                forall|k: int| 0 <= k < i ==> (#[trigger] self.pending_stations@[k]).cc@ != cc@,
            decreases self.pending_stations.len() - i,
        {
            i = i + 1;
        }
        proof {
            pending_at_is(self.pending_stations@, cc@, i as int);
        }
        i
    }

    /// Coalesces onto a fetch in flight, or notes a new one: whether it is to be started. A waiter
    /// is only added when the caller had no list to be answered with.
    fn ensure_stations_fetch(&mut self, cc: &String, waiter: Option<u64>) -> (start: bool)
        requires
            old(self).wf(),
        ensures
            final(self).wf(),
            final(self).pending_countries == old(self).pending_countries,
            start == (pending_for(old(self).pending_stations@, cc@) is None),
            changed_only(
                old(self).pending_stations@,
                final(self).pending_stations@,
                cc@,
                Some(
                    match waiter {
                        Some(r) => waiting(pending_for(old(self).pending_stations@, cc@)).push(r),
                        None => waiting(pending_for(old(self).pending_stations@, cc@)),
                    },
                ),
            ),
    {
        let ghost before = self.pending_stations@;
        let i: usize = self.find_pending(cc);
        proof {
            pending_at_is_first(before, cc@);
        }
        if i < self.pending_stations.len() {
            if let Some(r) = waiter {
                let ghost w = before[i as int].waiters@;
                self.pending_stations[i].waiters.push(r);
                proof {
                    replaced_changes_one(before, self.pending_stations@, i as int);
                }
            } else {
                proof {
                    replaced_changes_one(before, before, i as int);
                }
            }
            return false;
        }
        let mut waiters: Vec<u64> = Vec::new();
        if let Some(r) = waiter {
            waiters.push(r);
        }
        let p = Pending { cc: cc.clone(), waiters };
        proof {
            pushed_changes_one(before, p);
            assert(waiters@ =~= (match waiter {
                Some(r) => Seq::<u64>::empty().push(r),
                None => Seq::<u64>::empty(),
            }));
        }
        self.pending_stations.push(p);
        true
    }

    /// A request for a country's list, with what the cache has for it.
    pub fn list_stations(
        &mut self,
        cc: &String,
        reply: u64,
        cached: Result<Option<Stored<Vec<Station>>>, CacheError>,
    ) -> (r: Reply<ListedStations>)
        requires
            old(self).wf(),
        ensures
            final(self).wf(),
            final(self).pending_countries == old(self).pending_countries,
            ({
                let state = pending_for(old(self).pending_stations@, cc@);
                let a = asked(state, reply, had_of(cached));
                &&& changed_only(
                    old(self).pending_stations@,
                    final(self).pending_stations@,
                    cc@,
                    a.state,
                )
                &&& r.fetch == a.fetch
                &&& r.answer is Some == a.answered
                &&& match cached {
                    Err(e) => r.answer matches Some(Err(s)) && s@ == ServiceErrorView::Cache(
                        cache_text(e),
                    ),
                    Ok(Some(s)) => r.answer matches Some(Ok(l)) && is_stations_listing(
                        l,
                        cc@,
                        s,
                        CacheSource::Cached,
                        is_refreshing(s.expired, state),
                    ),
                    Ok(None) => r.answer is None,
                }
            }),
    {
        let ghost before = self.pending_stations@;
        proof {
            pending_at_is_first(before, cc@);
            assert(changed_only(before, before, cc@, pending_for(before, cc@)));
        }
        match cached {
            Err(e) => Reply { answer: Some(Err(cache_refused(e))), fetch: false },
            Ok(Some(stored)) => {
                if !stored.expired {
                    let refreshing = self.find_pending(cc) < self.pending_stations.len();
                    Reply {
                        answer: Some(
                            Ok(listed_stations(cc, stored, CacheSource::Cached, refreshing)),
                        ),
                        fetch: false,
                    }
                } else {
                    // Expired: serve it now, refresh behind it.
                    let fetch = self.ensure_stations_fetch(cc, None);
                    Reply {
                        answer: Some(Ok(listed_stations(cc, stored, CacheSource::Cached, true))),
                        fetch,
                    }
                }
            },
            Ok(None) => {
                let fetch = self.ensure_stations_fetch(cc, Some(reply));
                assert(Seq::<u64>::empty().push(reply) =~= seq![reply]);
                Reply { answer: None, fetch }
            },
        }
    }

    /// The one exit of a station fetch: every waiter gets the same result, and the event's outcome
    /// is derived from it.
    pub fn stations_done(
        &mut self,
        cc: &String,
        stored: Result<Stored<Vec<Station>>, ServiceError>,
    ) -> (d: Done<ListedStations>)
        requires
            old(self).wf(),
        ensures
            final(self).wf(),
            final(self).pending_countries == old(self).pending_countries,
            changed_only(
                old(self).pending_stations@,
                final(self).pending_stations@,
                cc@,
                None,
            ),
            d.waiters@ == waiting(pending_for(old(self).pending_stations@, cc@)),
            match stored {
                Ok(s) => d.result matches Ok(l) && is_stations_listing(
                    l,
                    cc@,
                    s,
                    CacheSource::Fresh,
                    false,
                ),
                Err(e) => d.result == Err::<ListedStations, ServiceError>(e),
            },
            d.event matches Event::StationsUpdated { country_code, outcome } && country_code@ == cc@
                && outcome == (if stored is Ok {
                RefreshOutcome::Landed
            } else {
                RefreshOutcome::Failed
            }),
    {
        let ghost before = self.pending_stations@;
        let i: usize = self.find_pending(cc);
        proof {
            pending_at_is_first(before, cc@);
        }
        let waiters: Vec<u64> = if i < self.pending_stations.len() {
            proof {
                removed_changes_one(before, i as int);
            }
            self.pending_stations.remove(i).waiters
        } else {
            assert(changed_only(before, before, cc@, None));
            Vec::new()
        };
        assert(waiters@ =~= waiting(pending_for(before, cc@)));
        let result = match stored {
            Ok(s) => Ok(listed_stations(cc, s, CacheSource::Fresh, false)),
            Err(e) => Err(e),
        };
        let outcome = outcome_of(&result);
        Done {
            waiters,
            result,
            event: Event::StationsUpdated { country_code: cc.clone(), outcome },
        }
    }

    /// A request for the countries, with what the cache has for it.
    pub fn list_countries(
        &mut self,
        reply: u64,
        cached: Result<Option<Stored<Vec<Country>>>, CacheError>,
    ) -> (r: Reply<ListedCountries>)
        ensures
            final(self).pending_stations == old(self).pending_stations,
            ({
                let state = old(self).countries_state();
                let a = asked(state, reply, had_of(cached));
                &&& final(self).countries_state() == a.state
                &&& r.fetch == a.fetch
                &&& r.answer is Some == a.answered
                &&& match cached {
                    Err(e) => r.answer matches Some(Err(s)) && s@ == ServiceErrorView::Cache(
                        cache_text(e),
                    ),
                    Ok(Some(s)) => r.answer matches Some(Ok(l)) && l == (ListedCountries {
                        items: s.items,
                        fetched_at: s.fetched_at,
                        age_secs: s.age_secs,
                        source: CacheSource::Cached,
                        refreshing: is_refreshing(s.expired, state),
                    }),
                    Ok(None) => r.answer is None,
                }
            }),
    {
        let pending = self.pending_countries.is_some();
        match cached {
            Err(e) => Reply { answer: Some(Err(cache_refused(e))), fetch: false },
            Ok(Some(stored)) => {
                let refreshing = stored.expired || pending;
                let fetch = stored.expired && !pending;
                if fetch {
                    self.pending_countries = Some(Vec::new());
                    assert(self.countries_state()->0 =~= Seq::empty());
                }
                Reply {
                    answer: Some(Ok(listed_countries(stored, CacheSource::Cached, refreshing))),
                    fetch,
                }
            },
            Ok(None) => {
                let mut waiters: Vec<u64> = match self.pending_countries.take() {
                    Some(w) => w,
                    None => Vec::new(),
                };
                let ghost w = waiters@;
                waiters.push(reply);
                assert(!pending ==> w.push(reply) =~= seq![reply]);
                self.pending_countries = Some(waiters);
                Reply { answer: None, fetch: !pending }
            },
        }
    }

    /// The one exit of a countries fetch.
    pub fn countries_done(&mut self, stored: Result<Stored<Vec<Country>>, ServiceError>) -> (d: Done<
        ListedCountries,
    >)
        ensures
            final(self).pending_stations == old(self).pending_stations,
            final(self).pending_countries is None,
            d.waiters@ == waiting(old(self).countries_state()),
            d.result == (match stored {
                Ok(s) => Ok(
                    ListedCountries {
                        items: s.items,
                        fetched_at: s.fetched_at,
                        age_secs: s.age_secs,
                        source: CacheSource::Fresh,
                        refreshing: false,
                    },
                ),
                Err(e) => Err(e),
            }),
            d.event == (Event::CountriesUpdated {
                outcome: if stored is Ok {
                    RefreshOutcome::Landed
                } else {
                    RefreshOutcome::Failed
                },
            }),
    {
        let waiters: Vec<u64> = match self.pending_countries.take() {
            Some(w) => w,
            None => Vec::new(),
        };
        assert(waiters@ =~= waiting(old(self).countries_state()));
        let result = match stored {
            Ok(s) => Ok(listed_countries(s, CacheSource::Fresh, false)),
            Err(e) => Err(e),
        };
        let outcome = outcome_of(&result);
        Done { waiters, result, event: Event::CountriesUpdated { outcome } }
    }
}

// ---------------------------------------------------------------------------------------------
// What a request is answered

/// A list that the cache has is answered at once, however old it is, and so is a cache that cannot
/// be read; a caller for whom there is nothing waits, behind those who wait already. A fetch is
/// started for an expired list and for a missing one, unless one is in flight; never for a fresh
/// one, and never where the cache cannot be read. Nobody is dropped from those who wait. A list is
/// told as being refreshed exactly when a fetch for it is in flight after the request.
pub proof fn what_a_request_is_answered(state: Option<Seq<u64>>, reply: u64)
    ensures
        asked(state, reply, Had::Fresh) == (Asked { state, answered: true, fetch: false }),
        asked(state, reply, Had::Refused) == (Asked { state, answered: true, fetch: false }),
        asked(state, reply, Had::Expired).answered,
        asked(state, reply, Had::Expired).fetch <==> state is None,
        asked(state, reply, Had::Expired).state is Some,
        waiting(asked(state, reply, Had::Expired).state) == waiting(state),
        !asked(state, reply, Had::Nothing).answered,
        asked(state, reply, Had::Nothing).fetch <==> state is None,
        asked(state, reply, Had::Nothing).state is Some,
        waiting(asked(state, reply, Had::Nothing).state) == waiting(state).push(reply),
        state matches Some(w) ==> waiting(state) == w,
        state is None ==> waiting(state).len() == 0,
        is_refreshing(true, state) <==> asked(state, reply, Had::Expired).state is Some,
        is_refreshing(false, state) <==> asked(state, reply, Had::Fresh).state is Some,
{
    assert(Seq::<u64>::empty().push(reply) =~= seq![reply]);
}

/// What the cache had is told by what it gave: nothing, a list that expired, or one that did not.
pub proof fn what_the_cache_had<T>(s: Stored<T>, e: CacheError)
    ensures
        had_of::<T>(Err(e)) is Refused,
        had_of::<T>(Ok(None)) is Nothing,
        had_of(Ok(Some(s))) is Expired <==> s.expired,
        had_of(Ok(Some(s))) is Fresh <==> !s.expired,
{
}

/// Those who wait for a country are those noted under its code, and nobody waits for a country
/// that is not noted.
pub proof fn those_who_wait_for_a_country(v: Seq<Pending>, i: int, cc: Seq<char>)
    requires
        one_each(v),
    ensures
        0 <= i < v.len() ==> pending_for(v, v[i].cc@) == Some(v[i].waiters@),
        (forall|k: int| 0 <= k < v.len() ==> (#[trigger] v[k]).cc@ != cc) ==> pending_for(v, cc) is None,
{
    if 0 <= i < v.len() {
        assert forall|k: int| 0 <= k < i implies (#[trigger] v[k]).cc@ != v[i].cc@ by {}
        pending_at_is(v, v[i].cc@, i);
    }
    if forall|k: int| 0 <= k < v.len() ==> (#[trigger] v[k]).cc@ != cc {
        pending_at_is(v, cc, v.len() as int);
    }
}

/// A country is asked for by two ASCII letters, in whatever case and with white space around them,
/// and its key is those letters in capitals.
pub proof fn a_key_is_two_letters(pre: Seq<char>, a: char, b: char, post: Seq<char>)
    requires
        forall|i: int| 0 <= i < pre.len() ==> text::white(#[trigger] pre[i]),
        forall|i: int| 0 <= i < post.len() ==> text::white(#[trigger] post[i]),
        65 <= a as u32 <= 90 || 97 <= a as u32 <= 122,
        65 <= b as u32 <= 90 || 97 <= b as u32 <= 122,
    ensures
        ({
            let key = uppered(trimmed(pre + seq![a, b] + post));
            &&& is_key(key)
            &&& key.len() == 2
            &&& text::same_letter(key[0], a) && 65 <= key[0] as u32 <= 90
            &&& text::same_letter(key[1], b) && 65 <= key[1] as u32 <= 90
        }),
{
    text::trimming_takes_the_white_off(pre, seq![a, b], post);
    text::case_is_of_ascii_letters(a, a);
    text::case_is_of_ascii_letters(b, b);
}

/// Nothing but two letters is a key.
pub proof fn nothing_else_is_a_key(c: Seq<char>, a: char, b: char)
    ensures
        is_key(c) ==> c.len() == 2,
        is_key(seq![a, b]) <==> 65 <= a as u32 <= 90 && 65 <= b as u32 <= 90,
{
}

/// A listing shows the list as it is stored: its country, its items, when it was fetched and how old
/// it is.
pub proof fn a_listing_shows_what_is_stored(
    l: ListedStations,
    cc: Seq<char>,
    s: Stored<Vec<Station>>,
    source: CacheSource,
    refreshing: bool,
)
    requires
        is_stations_listing(l, cc, s, source, refreshing),
    ensures
        l.country_code@ == cc,
        l.items@ == s.items@,
        l.fetched_at == s.fetched_at && l.age_secs == s.age_secs,
        l.source == source && l.refreshing == refreshing,
{
}

/// A change for one country leaves those who wait for every other as they were, and is what it says
/// for its own.
pub proof fn a_change_is_of_one_country(
    before: Seq<Pending>,
    after: Seq<Pending>,
    cc: Seq<char>,
    state: Option<Seq<u64>>,
    other: Seq<char>,
)
    requires
        changed_only(before, after, cc, state),
    ensures
        pending_for(after, cc) == state,
        other != cc ==> pending_for(after, other) == pending_for(before, other),
        forall|i: int, j: int|
            0 <= i < j < after.len() ==> (#[trigger] after[i]).cc@ != (#[trigger] after[j]).cc@,
{
}

/// An error of the client, of the cache or of the one who asked is told in its own words.
pub proof fn an_error_is_told_in_its_words(e: ClientErrorView, m: Seq<char>)
    ensures
        service_text(ServiceErrorView::Client(e)) == client_text(e),
        service_text(ServiceErrorView::Cache(m)) == "cache: "@ + m,
        text::holds(service_text(ServiceErrorView::InvalidCountry(m)), quoted(m)),
        e matches ClientErrorView::Parse(t) ==> client_text(e) == t,
        e matches ClientErrorView::Http(s) ==> text::holds(client_text(e), text::digits(s as nat)),
        e matches ClientErrorView::Exhausted(last, _, _) ==> text::holds(client_text(e), last),
        e matches ClientErrorView::Truncated(_, _, reason) ==> text::holds(client_text(e), reason),
{
    let t = service_text(ServiceErrorView::InvalidCountry(m));
    let h = "invalid country code "@.len() as int;
    assert(t.subrange(h, h + quoted(m).len()) =~= quoted(m));
    assert(text::stands_at(t, quoted(m), h));
    let c = client_text(e);
    let n = c.len() as int;
    if let ClientErrorView::Http(s) = e {
        let d = text::digits(s as nat);
        assert(c.subrange(n - d.len(), n) =~= d);
        assert(text::stands_at(c, d, n - d.len()));
    }
    if let ClientErrorView::Exhausted(last, _, _) = e {
        assert(c.subrange(n - last.len(), n) =~= last);
        assert(text::stands_at(c, last, n - last.len()));
    }
    if let ClientErrorView::Truncated(_, _, reason) = e {
        assert(c.subrange(n - reason.len(), n) =~= reason);
        assert(text::stands_at(c, reason, n - reason.len()));
    }
}

} // verus!
