//! The radio-browser client: bounded requests, same-host retries under a wall-clock budget, an
//! explicit limit on every list request and a truncation guard on what comes back.
//!
//! The caller sends the requests, sleeps and resolves hosts; what to send and what an answer
//! means is decided here.

use vstd::prelude::*;
use vstd::utf8::encode_utf8;

use super::filter;
use super::filter::{folded_names, is_ranking, listed};
use super::model::{country_views, station_views, Country, Station};
use super::normalise;
use super::normalise::{merged, station_of, RawCountry, RawStation};
use super::srv;
use crate::outside::{span_debug, span_text};
use crate::text;
use crate::text::{digits, strings, trimmed, uppered};
use crate::time::{elapsed, secs, Duration, Instant, NANOS_PER_SEC};

verus! {

/// The limit sent with every station-list request. It returns the whole country; a full page at
/// this size is treated as truncation.
pub const STATIONS_LIMIT: u32 = 100_000;

/// What the server returns when no limit is sent: silently, as a 200.
pub const SERVER_DEFAULT_LIMIT: usize = 1000;

/// The rule on the server's default fires only when the country is big enough that 1000 rows
/// cannot be its whole list of unbroken stations: 1000 / (1 - 0.146), the largest broken share
/// measured. Below this count 1000 rows is plausible, and a real 1000-station country must not
/// be refused forever.
pub const RULE2_MIN_EXPECTED: u32 = 1172;

/// Fewer than one in this many of the country's published stations is truncation.
pub const TRUNCATION_DIVISOR: u64 = 2;

/// Search page size.
pub const SEARCH_LIMIT: u32 = 50;

/// Per-request totals sized from the byte count.
pub const TOTAL_SMALL_SECS: u64 = 30;

pub const TOTAL_LIST_SECS: u64 = 180;

/// No bytes for this long: the request fails.
pub const READ_TIMEOUT_SECS: u64 = 15;

pub const CONNECT_TIMEOUT_SECS: u64 = 10;

/// Attempts per fetch, with 1 s and 2 s between them.
pub const ATTEMPTS: u32 = 3;

/// Wall-clock budget for the whole retry sequence.
pub const RETRY_BUDGET_SECS: u64 = 200;

// ---------------------------------------------------------------------------------------------
// Errors

#[derive(Debug, Clone, PartialEq, Eq)]
pub enum ClientError {
    /// The server answered with a status that is not retried (a 4xx other than 429).
    Http { status: u16 },
    /// Every attempt failed, or the budget ran out first.
    Exhausted { last: String, attempts: u32, elapsed: Duration },
    /// The list came back shorter than the country; see [`check_complete`].
    Truncated { got: usize, expected: Option<u32>, reason: &'static str },
    Parse(String),
    /// The countries list came back empty (or with nothing that survives normalisation). The
    /// directory has some 240 countries; an empty answer is a broken server, not data.
    EmptyCountries,
}

pub enum ClientErrorView {
    Http(u16),
    Exhausted(Seq<char>, u32, Duration),
    Truncated(usize, Option<u32>, Seq<char>),
    Parse(Seq<char>),
    EmptyCountries,
}

impl View for ClientError {
    type V = ClientErrorView;

    open spec fn view(&self) -> ClientErrorView {
        match self {
            ClientError::Http { status } => ClientErrorView::Http(*status),
            ClientError::Exhausted { last, attempts, elapsed } => ClientErrorView::Exhausted(
                last@,
                *attempts,
                *elapsed,
            ),
            ClientError::Truncated { got, expected, reason } => ClientErrorView::Truncated(
                *got,
                *expected,
                reason@,
            ),
            ClientError::Parse(m) => ClientErrorView::Parse(m@),
            ClientError::EmptyCountries => ClientErrorView::EmptyCountries,
        }
    }
}

/// A time that passed is one the clock can tell.
pub open spec fn error_ok(e: ClientErrorView) -> bool {
    e matches ClientErrorView::Exhausted(_, _, d) ==> d.nanos / NANOS_PER_SEC <= u64::MAX
}

/// The sentence for an error.
pub open spec fn client_text(e: ClientErrorView) -> Seq<char> {
    match e {
        ClientErrorView::Http(status) => "radio-browser answered "@ + digits(status as nat),
        ClientErrorView::Exhausted(last, attempts, d) => "radio-browser unreachable after "@
            + digits(attempts as nat) + " attempt(s) in "@ + span_text(d.nanos) + ": "@ + last,
        ClientErrorView::Truncated(got, expected, reason) => "station list truncated: got "@
            + digits(got as nat) + " rows (expected "@ + (match expected {
            Some(n) => "Some("@ + digits(n as nat) + ")"@,
            None => "None"@,
        }) + ") — "@ + reason,
        ClientErrorView::Parse(m) => m,
        ClientErrorView::EmptyCountries => "the countries list came back empty"@,
    }
}

impl ClientError {
    pub fn message(&self) -> (m: String)
        requires
            error_ok(self@),
        ensures
            m@ == client_text(self@),
    {
        match self {
            ClientError::Http { status } => {
                let mut m = text::chars_of("radio-browser answered ");
                text::push_digits(&mut m, *status as u64);
                text::string_of(&m)
            },
            ClientError::Exhausted { last, attempts, elapsed } => {
                let mut m = text::chars_of("radio-browser unreachable after ");
                text::push_digits(&mut m, *attempts as u64);
                text::push_str(&mut m, " attempt(s) in ");
                text::push_str(&mut m, span_debug(elapsed.nanos).as_str());
                text::push_str(&mut m, ": ");
                text::push_str(&mut m, last.as_str());
                text::string_of(&m)
            },
            ClientError::Truncated { got, expected, reason } => {
                let mut m = text::chars_of("station list truncated: got ");
                text::push_digits(&mut m, *got as u64);
                text::push_str(&mut m, " rows (expected ");
                let ghost head = m@;
                match expected {
                    Some(n) => {
                        text::push_str(&mut m, "Some(");
                        text::push_digits(&mut m, *n as u64);
                        text::push_str(&mut m, ")");
                        assert(m@ =~= head + ("Some("@ + digits(*n as nat) + ")"@));
                    },
                    None => text::push_str(&mut m, "None"),
                }
                text::push_str(&mut m, ") — ");
                text::push_str(&mut m, reason);
                text::string_of(&m)
            },
            ClientError::Parse(m) => m.clone(),
            ClientError::EmptyCountries => "the countries list came back empty".to_owned(),
        }
    }
}

// ---------------------------------------------------------------------------------------------
// The truncation guard

/// The rule by which a list is too short, if one says so: a full page; the server's default of
/// 1000 rows where more was asked for and the country may have more; fewer than half of the
/// country's published stations.
pub open spec fn shortfall(rows: usize, requested_limit: u32, expected: Option<u32>) -> Option<
    Seq<char>,
> {
    if rows >= requested_limit {
        Some("full page"@)
    } else if requested_limit > SERVER_DEFAULT_LIMIT && rows == SERVER_DEFAULT_LIMIT && (
    expected matches Some(e) ==> e >= RULE2_MIN_EXPECTED) {
        Some("server default 1000"@)
    } else if expected matches Some(e) && TRUNCATION_DIVISOR * rows < e {
        Some("far below station_count"@)
    } else {
        None
    }
}

/// The truncation rules, on the server ignoring our limit and answering with its default.
pub fn check_complete(rows: usize, requested_limit: u32, expected: Option<u32>) -> (r: Result<
    (),
    ClientError,
>)
    ensures
        match shortfall(rows, requested_limit, expected) {
            Some(reason) => r matches Err(e) && e@ == ClientErrorView::Truncated(
                rows,
                expected,
                reason,
            ),
            None => r is Ok,
        },
{
    if rows as u64 >= requested_limit as u64 {
        return Err(ClientError::Truncated { got: rows, expected, reason: "full page" });
    }
    let may_be_more = match expected {
        Some(e) => e >= RULE2_MIN_EXPECTED,
        None => true,
    };
    if requested_limit as u64 > SERVER_DEFAULT_LIMIT as u64 && rows == SERVER_DEFAULT_LIMIT
        && may_be_more {
        return Err(
            ClientError::Truncated { got: rows, expected, reason: "server default 1000" },
        );
    }
    if let Some(e) = expected {
        if TRUNCATION_DIVISOR * (rows as u64) < e as u64 {
            return Err(
                ClientError::Truncated { got: rows, expected, reason: "far below station_count" },
            );
        }
    }
    Ok(())
}

// ---------------------------------------------------------------------------------------------
// Requests

/// The bytes that stand for themselves in a query.
pub open spec fn unreserved(b: u8) -> bool {
    ||| 0x41 <= b <= 0x5a
    ||| 0x61 <= b <= 0x7a
    ||| 0x30 <= b <= 0x39
    ||| b == 0x2d
    ||| b == 0x5f
    ||| b == 0x2e
    ||| b == 0x7e
}

/// A hexadecimal digit, in capitals.
pub open spec fn hex(n: u8) -> char {
    if n < 10 {
        (n + 0x30) as u8 as char
    } else {
        (n + 0x37) as u8 as char
    }
}

/// One byte in a query.
pub open spec fn query_byte(b: u8) -> Seq<char> {
    if unreserved(b) {
        seq![b as char]
    } else {
        seq!['%', hex(b / 16), hex(b % 16)]
    }
}

/// Bytes in a query.
pub open spec fn query_bytes(s: Seq<u8>) -> Seq<char>
    decreases s.len(),
{
    if s.len() == 0 {
        Seq::empty()
    } else {
        query_bytes(s.drop_last()) + query_byte(s.last())
    }
}

/// A text in a query.
pub open spec fn query_text(s: Seq<char>) -> Seq<char> {
    query_bytes(encode_utf8(s))
}

fn hex_digit(n: u8) -> (c: char)
    requires
        n < 16,
    ensures
        c == hex(n),
{
    if n < 10 {
        (n + 0x30) as char
    } else {
        (n + 0x37) as char
    }
}

/// Percent-encodes a query value (the unreserved characters stay; every other byte of UTF-8 is
/// encoded).
pub fn qenc(s: &str) -> (r: String)
    ensures
        r@ == query_text(s@),
{
    let bytes = s.as_bytes();
    assert(bytes@ =~= encode_utf8(s@));
    let mut out: Vec<char> = Vec::new();
    let mut i: usize = 0;
    while i < bytes.len()
        invariant
            i <= bytes.len(),
            bytes@ == encode_utf8(s@),
            out@ == query_bytes(bytes@.take(i as int)),
        decreases bytes.len() - i,
    {
        let b = bytes[i];
        let ghost before = out@;
        assert(bytes@.take(i + 1).drop_last() =~= bytes@.take(i as int));
        if (0x41 <= b && b <= 0x5a) || (0x61 <= b && b <= 0x7a) || (0x30 <= b && b <= 0x39) || b
            == 0x2d || b == 0x5f || b == 0x2e || b == 0x7e {
            out.push(b as char);
        } else {
            out.push('%');
            out.push(hex_digit(b / 16));
            out.push(hex_digit(b % 16));
        }
        assert(out@ =~= before + query_byte(b));
        i = i + 1;
    }
    assert(bytes@.take(bytes@.len() as int) =~= bytes@);
    text::string_of(&out)
}

/// A character that cannot end a query value or begin another.
pub open spec fn is_safe(c: char) -> bool {
    c == '%' || (c as u32 <= 0x7f && unreserved(c as u8))
}

/// Nothing but unreserved characters and percent signs stands in an encoded text.
pub proof fn an_encoded_text_is_safe(s: Seq<u8>)
    ensures
        forall|i: int| 0 <= i < query_bytes(s).len() ==> is_safe(#[trigger] query_bytes(s)[i]),
    decreases s.len(),
{
    if s.len() > 0 {
        let before = s.drop_last();
        an_encoded_text_is_safe(before);
        let b = s.last();
        let e = query_byte(b);
        assert forall|i: int| 0 <= i < e.len() implies is_safe(#[trigger] e[i]) by {}
        assert forall|i: int| 0 <= i < query_bytes(s).len() implies is_safe(
            #[trigger] query_bytes(s)[i],
        ) by {
            let n = query_bytes(before).len();
            if i < n {
                assert(query_bytes(s)[i] == query_bytes(before)[i]);
            } else {
                assert(query_bytes(s)[i] == e[i - n]);
            }
        }
    }
}

/// The value of a hexadecimal digit.
pub open spec fn hex_value(c: char) -> int {
    if '0' <= c && c <= '9' {
        c as u32 - 0x30
    } else {
        c as u32 - 0x37
    }
}

/// The bytes that an encoded text stands for.
pub open spec fn query_decoded(s: Seq<char>) -> Seq<u8>
    decreases s.len(),
{
    if s.len() == 0 {
        Seq::empty()
    } else if s[0] == '%' && s.len() >= 3 {
        seq![(hex_value(s[1]) * 16 + hex_value(s[2])) as u8] + query_decoded(s.skip(3))
    } else {
        seq![s[0] as u8] + query_decoded(s.skip(1))
    }
}

/// An encoded text can be read back, so that no two texts are encoded alike.
pub proof fn an_encoded_text_reads_back(s: Seq<u8>)
    ensures
        query_decoded(query_bytes(s)) == s,
{
    encoded_prefix_reads_back(s, Seq::empty());
    assert(query_bytes(s) + Seq::<char>::empty() =~= query_bytes(s));
    assert(s + query_decoded(Seq::empty()) =~= s);
}

proof fn encoded_prefix_reads_back(s: Seq<u8>, tail: Seq<char>)
    ensures
        query_decoded(query_bytes(s) + tail) == s + query_decoded(tail),
    decreases s.len(),
{
    if s.len() == 0 {
        assert(query_bytes(s) + tail =~= tail);
        assert(s + query_decoded(tail) =~= query_decoded(tail));
    } else {
        let b = s.last();
        let rest = query_byte(b) + tail;
        assert(query_bytes(s) + tail =~= query_bytes(s.drop_last()) + rest);
        encoded_prefix_reads_back(s.drop_last(), rest);
        if unreserved(b) {
            assert(rest[0] == b as char);
            assert(rest.skip(1) =~= tail);
        } else {
            assert(rest[0] == '%' && rest[1] == hex(b / 16) && rest[2] == hex(b % 16));
            assert(rest.skip(3) =~= tail);
            assert(hex_value(hex(b / 16)) == b / 16 && hex_value(hex(b % 16)) == b % 16);
        }
        assert(query_decoded(rest) == seq![b] + query_decoded(tail));
        assert(s.drop_last() + (seq![b] + query_decoded(tail)) =~= s + query_decoded(tail));
    }
}

pub fn countries_path() -> (p: String)
    ensures
        p@ == "/json/countries?hidebroken=true"@,
{
    "/json/countries?hidebroken=true".to_owned()
}

/// The request for a country's stations. It always carries an explicit limit.
pub open spec fn stations_request(cc: Seq<char>) -> Seq<char> {
    "/json/stations/bycountrycodeexact/"@ + query_text(uppered(cc)) + "?hidebroken=true&limit="@
        + digits(STATIONS_LIMIT as nat)
}

/// The endpoint that returns a whole country. Always carries an explicit `limit`; dropping it
/// would reinstate the silent 1000.
pub fn stations_path(cc: &str) -> (p: String)
    ensures
        p@ == stations_request(cc@),
{
    let chars = text::chars_of(cc);
    let code = text::string_of(&text::to_uppered(&chars));
    let mut p = text::chars_of("/json/stations/bycountrycodeexact/");
    text::push_str(&mut p, qenc(code.as_str()).as_str());
    text::push_str(&mut p, "?hidebroken=true&limit=");
    text::push_digits(&mut p, STATIONS_LIMIT as u64);
    text::string_of(&p)
}

/// The request for a search.
pub open spec fn search_request(query: Seq<char>) -> Seq<char> {
    "/json/stations/search?name="@ + query_text(trimmed(query))
        + "&hidebroken=true&order=votes&reverse=true&limit="@ + digits(SEARCH_LIMIT as nat)
}

pub fn search_path(query: &str) -> (p: String)
    ensures
        p@ == search_request(query@),
{
    let chars = text::chars_of(query);
    let name = text::string_of(text::trim(&chars));
    let mut p = text::chars_of("/json/stations/search?name=");
    text::push_str(&mut p, qenc(name.as_str()).as_str());
    text::push_str(&mut p, "&hidebroken=true&order=votes&reverse=true&limit=");
    text::push_digits(&mut p, SEARCH_LIMIT as u64);
    text::string_of(&p)
}

// ---------------------------------------------------------------------------------------------
// The retry sequence

/// A response as the client sees it: status and body, redirects already followed.
#[derive(Debug, Clone, PartialEq, Eq)]
pub struct Response {
    pub status: u16,
    pub body: Vec<u8>,
}

/// The client: the hosts last resolved, and the retry budget.
#[derive(Debug, Clone, PartialEq, Eq)]
pub struct Client {
    pub current: Vec<String>,
    pub budget: Duration,
}

impl Client {
    pub fn new() -> (c: Client)
        ensures
            c.current@.len() == 0,
            c.budget == secs(RETRY_BUDGET_SECS as nat),
    {
        Client { current: Vec::new(), budget: Duration::from_secs(RETRY_BUDGET_SECS) }
    }

    /// The same client with another retry budget.
    pub fn with_budget(self, budget: Duration) -> (c: Client)
        ensures
            c == (Client { budget, ..self }),
    {
        Client { current: self.current, budget }
    }

    /// The host to use, when it is known and need not be resolved again.
    pub fn known_host(&self, refresh: bool) -> (h: Option<String>)
        ensures
            match h {
                Some(h) => !refresh && self.current@.len() > 0 && h@ == self.current@[0]@,
                None => refresh || self.current@.len() == 0,
            },
    {
        if refresh || self.current.len() == 0 {
            None
        } else {
            Some(self.current[0].clone())
        }
    }

    /// The hosts were resolved: the host to use. None resolved: the fallbacks.
    pub fn resolved(&mut self, hosts: Vec<String>) -> (h: String)
        ensures
            final(self).budget == old(self).budget,
            final(self).current@.len() > 0,
            hosts@.len() > 0 ==> final(self).current == hosts,
            hosts@.len() == 0 ==> strings(final(self).current@) == srv::fallbacks(),
            h@ == final(self).current@[0]@,
    {
        self.current = if hosts.len() == 0 {
            srv::order(Vec::new())
        } else {
            hosts
        };
        self.current[0].clone()
    }

    /// Begins a fetch.
    pub fn fetch(&self, path_query: String, total: Duration, now: Instant) -> (f: Fetch)
        ensures
            f.wf(),
            f.path_query == path_query,
            f.total == total,
            f.budget == self.budget,
            f.start == now,
            f.attempt == 1,
    {
        Fetch { path_query, total, budget: self.budget, start: now, attempt: 1 }
    }
}

/// A fetch under way: [`ATTEMPTS`] on the same host with a pause between them, the host list
/// resolved again before the second, the whole sequence stopped when the next attempt could not
/// finish inside the budget. A 4xx other than 429 is returned at once, not retried.
#[derive(Debug, Clone, PartialEq, Eq)]
pub struct Fetch {
    pub path_query: String,
    /// The bound on each request.
    pub total: Duration,
    pub budget: Duration,
    pub start: Instant,
    /// The attempt under way, counted from 1.
    pub attempt: u32,
}

/// What comes after an attempt.
#[derive(Debug, Clone, PartialEq, Eq)]
pub enum Next {
    Done(Vec<u8>),
    Failed(ClientError),
    /// Sleep, and try again, on a host resolved anew when `refresh` says so.
    Again { wait: Duration, refresh: bool },
}

/// Why an attempt is worth another, if it is: `Err` is an answer that is final.
pub open spec fn worth_another(r: Result<Response, String>) -> Result<
    Option<Seq<char>>,
    ClientErrorView,
> {
    match r {
        Err(e) => Ok(Some(e@)),
        Ok(r) => if 200 <= r.status < 300 {
            Ok(None)
        } else if r.status == 429 || r.status >= 500 {
            Ok(Some("HTTP "@ + digits(r.status as nat)))
        } else {
            Err(ClientErrorView::Http(r.status))
        },
    }
}

/// The pause before an attempt.
pub open spec fn pause_before(attempt: u32) -> Duration {
    if attempt == 2 {
        secs(1)
    } else {
        secs(2)
    }
}

/// Whether the host is resolved again before an attempt.
pub open spec fn resolves_before(attempt: u32) -> bool {
    attempt == 2
}

/// Another attempt after `attempt` is allowed and could finish inside the budget.
pub open spec fn may_try_again(f: Fetch, now: Instant) -> bool {
    &&& f.attempt < ATTEMPTS
    &&& elapsed(f.start, now).nanos + pause_before((f.attempt + 1) as u32).nanos + f.total.nanos
        <= f.budget.nanos
}

impl Fetch {
    pub open spec fn wf(&self) -> bool {
        1 <= self.attempt <= ATTEMPTS
    }

    /// The URL of the attempt under way, on a host.
    pub fn url(&self, host: &str) -> (u: String)
        ensures
            u@ == "https://"@ + host@ + self.path_query@,
    {
        "https://".to_owned().concat(host).concat(self.path_query.as_str())
    }

    /// The attempt under way was answered, or failed.
    pub fn answered(&mut self, reply: Result<Response, String>, now: Instant) -> (next: Next)
        requires
            old(self).wf(),
        ensures
            final(self).wf(),
            final(self).path_query == old(self).path_query,
            final(self).total == old(self).total,
            final(self).budget == old(self).budget,
            final(self).start == old(self).start,
            match worth_another(reply) {
                Ok(None) => next == Next::Done(reply->Ok_0.body),
                Err(e) => next matches Next::Failed(f) && f@ == e,
                Ok(Some(last)) => if may_try_again(*old(self), now) {
                    &&& final(self).attempt == old(self).attempt + 1
                    &&& next == Next::Again {
                        wait: pause_before(final(self).attempt),
                        refresh: resolves_before(final(self).attempt),
                    }
                } else {
                    next matches Next::Failed(f) && f@ == ClientErrorView::Exhausted(
                        last,
                        old(self).attempt,
                        elapsed(old(self).start, now),
                    )
                },
            },
            !(next is Again) ==> final(self).attempt == old(self).attempt,
    {
        let last = match reply {
            Ok(r) => {
                if 200 <= r.status && r.status < 300 {
                    return Next::Done(r.body);
                }
                if r.status == 429 || r.status >= 500 {
                    let mut m = text::chars_of("HTTP ");
                    text::push_digits(&mut m, r.status as u64);
                    text::string_of(&m)
                } else {
                    return Next::Failed(ClientError::Http { status: r.status });
                }
            },
            Err(e) => e,
        };
        let spent = now.duration_since(self.start);
        if self.attempt < ATTEMPTS {
            let wait = if self.attempt == 1 {
                Duration::from_secs(1)
            } else {
                Duration::from_secs(2)
            };
            let budget: u128 = self.budget.nanos;
            if spent.nanos <= budget && wait.nanos <= budget - spent.nanos && self.total.nanos
                <= budget - spent.nanos - wait.nanos {
                self.attempt = self.attempt + 1;
                return Next::Again { wait, refresh: self.attempt == 2 };
            }
        }
        Next::Failed(ClientError::Exhausted { last, attempts: self.attempt, elapsed: spent })
    }
}

/// How many attempts a fetch makes from the one under way on, when each fails, at these times, in
/// a way that is worth another.
pub open spec fn attempts_made(f: Fetch, failed_at: Seq<Instant>) -> nat
    decreases failed_at.len(),
{
    if failed_at.len() > 0 && may_try_again(f, failed_at[0]) {
        1 + attempts_made(Fetch { attempt: (f.attempt + 1) as u32, ..f }, failed_at.skip(1))
    } else {
        1
    }
}

/// However its attempts fail, a fetch makes three at most; and it never begins one that, with the
/// pause before it and its own bound, could run past the budget.
pub proof fn a_fetch_stays_in_its_bounds(f: Fetch, failed_at: Seq<Instant>)
    requires
        f.wf(),
    ensures
        attempts_made(f, failed_at) + f.attempt <= 4,
        forall|now: Instant| #[trigger]
            may_try_again(f, now) ==> elapsed(f.start, now).nanos + pause_before(
                (f.attempt + 1) as u32,
            ).nanos + f.total.nanos <= f.budget.nanos,
    decreases failed_at.len(),
{
    if failed_at.len() > 0 && may_try_again(f, failed_at[0]) {
        a_fetch_stays_in_its_bounds(
            Fetch { attempt: (f.attempt + 1) as u32, ..f },
            failed_at.skip(1),
        );
    }
}

// ---------------------------------------------------------------------------------------------
// Answers

/// The error for a body that is not what was asked for.
pub open spec fn parse_error(e: Seq<char>) -> ClientErrorView {
    ClientErrorView::Parse("radio-browser JSON: "@ + e)
}

fn parse_failed(e: String) -> (r: ClientError)
    ensures
        r@ == parse_error(e@),
{
    ClientError::Parse("radio-browser JSON: ".to_owned().concat(e.as_str()))
}

/// The countries of an answer, normalised. An empty answer is refused.
pub fn countries(rows: Result<Vec<RawCountry>, String>) -> (r: Result<Vec<Country>, ClientError>)
    ensures
        match rows {
            Err(e) => r matches Err(f) && f@ == parse_error(e@),
            Ok(rows) => if merged(rows@).len() == 0 {
                r == Err::<Vec<Country>, ClientError>(ClientError::EmptyCountries)
            } else {
                r matches Ok(items) && country_views(items@) == merged(rows@)
            },
        },
{
    match rows {
        Err(e) => Err(parse_failed(e)),
        Ok(rows) => {
            let items = normalise::countries(rows);
            assert(country_views(items@).len() == items@.len());
            if items.len() == 0 {
                Err(ClientError::EmptyCountries)
            } else {
                Ok(items)
            }
        },
    }
}

/// One country's whole list, normalised, **not** ranked (the service ranks and caps). `expected`
/// is the country's published station count, for the guard.
pub fn stations(rows: Result<Vec<RawStation>, String>, expected: Option<u32>) -> (r: Result<
    Vec<Station>,
    ClientError,
>)
    ensures
        match rows {
            Err(e) => r matches Err(f) && f@ == parse_error(e@),
            Ok(rows) => match shortfall(rows@.len() as usize, STATIONS_LIMIT, expected) {
                Some(reason) => r matches Err(e) && e@ == ClientErrorView::Truncated(
                    rows@.len() as usize,
                    expected,
                    reason,
                ),
                None => r matches Ok(items) && station_views(items@) == rows@.map_values(
                    |r: RawStation| station_of(r),
                ),
            },
        },
{
    match rows {
        Err(e) => Err(parse_failed(e)),
        Ok(rows) => {
            let n: usize = rows.len();
            let items = normalise::stations(rows);
            match check_complete(n, STATIONS_LIMIT, expected) {
                Ok(_) => Ok(items),
                Err(e) => Err(e),
            }
        },
    }
}

/// The stations of a search: the same drop, dedupe and sort rules as a list, without the cap.
pub fn search(rows: Result<Vec<RawStation>, String>) -> (r: Result<Vec<Station>, ClientError>)
    ensures
        match rows {
            Err(e) => r matches Err(f) && f@ == parse_error(e@),
            Ok(rows) => r matches Ok(items) && exists|all: Seq<Station>, order: Seq<int>|
                station_views(all) == rows@.map_values(|r: RawStation| station_of(r))
                    && #[trigger] is_ranking(all, folded_names(all), order) && items@ == listed(
                    all,
                    order,
                    usize::MAX as int,
                ),
        },
{
    match rows {
        Err(e) => Err(parse_failed(e)),
        Ok(rows) => {
            let all = normalise::stations(rows);
            Ok(filter::rank(all, usize::MAX))
        },
    }
}

// ---------------------------------------------------------------------------------------------
// What is asked for, and what an answer is worth

/// A country's list is too short exactly when it fills a page of a hundred thousand; when it has
/// the thousand rows that the server gives by itself, and the country is not known to have fewer
/// than 1172 stations; or when it has less than half of the stations published for the country.
pub proof fn what_is_too_short(rows: usize, expected: Option<u32>)
    ensures
        shortfall(rows, 100_000, expected) is Some <==> {
            ||| rows >= 100_000
            ||| rows == 1000 && (expected is None || expected->0 >= 1172)
            ||| expected is Some && 2 * rows < expected->0
        },
        shortfall(rows, STATIONS_LIMIT, expected) == shortfall(rows, 100_000, expected),
{
}

/// The letters and digits of ASCII, the hyphen, the underscore, the dot and the tilde stand for
/// themselves in a query; any other byte is a percent sign and its two hexadecimal digits.
pub proof fn how_a_byte_is_encoded(b: u8)
    ensures
        ({
            let c = b as char;
            let plain = 'a' <= c <= 'z' || 'A' <= c <= 'Z' || '0' <= c <= '9' || c == '-' || c
                == '_' || c == '.' || c == '~';
            &&& plain ==> query_byte(b) == seq![c]
            &&& !plain ==> {
                let e = query_byte(b);
                &&& e.len() == 3 && e[0] == '%'
                &&& digit_value(e[1]) is Some && digit_value(e[2]) is Some
                &&& digit_value(e[1])->0 * 16 + digit_value(e[2])->0 == b
            }
        }),
{
}

/// The value of a hexadecimal digit in capitals.
pub open spec fn digit_value(c: char) -> Option<int> {
    if 48 <= c as u32 <= 57 {
        Some(c as u32 - 48)
    } else if 65 <= c as u32 <= 70 {
        Some(c as u32 - 55)
    } else {
        None
    }
}

/// A text is encoded byte by byte, in order.
pub proof fn texts_are_encoded_in_order(a: Seq<u8>, b: Seq<u8>)
    ensures
        query_bytes(a + b) == query_bytes(a) + query_bytes(b),
    decreases b.len(),
{
    if b.len() == 0 {
        assert(a + b =~= a);
        assert(query_bytes(a) + query_bytes(b) =~= query_bytes(a));
    } else {
        texts_are_encoded_in_order(a, b.drop_last());
        assert((a + b).drop_last() =~= a + b.drop_last());
        assert(query_bytes(a + b) =~= query_bytes(a) + query_bytes(b));
    }
}

/// A country is asked for by its code in capitals, whatever the case it is given in, with the
/// broken stations left out and a limit of a hundred thousand.
pub proof fn a_country_is_asked_for_whole(a: char, b: char)
    requires
        65 <= a as u32 <= 90 || 97 <= a as u32 <= 122,
        65 <= b as u32 <= 90 || 97 <= b as u32 <= 122,
    ensures
        ({
            let x = if a as u32 >= 97 {
                (a as u32 - 32) as u8 as char
            } else {
                a
            };
            let y = if b as u32 >= 97 {
                (b as u32 - 32) as u8 as char
            } else {
                b
            };
            stations_request(seq![a, b]) == "/json/stations/bycountrycodeexact/"@ + seq![x, y]
                + "?hidebroken=true&limit="@ + digits(100_000)
        }),
{
    let x = text::upper(a);
    let y = text::upper(b);
    let code = uppered(seq![a, b]);
    assert(code =~= seq![x, y]);
    let bytes = seq![x as u8, y as u8];
    vstd::utf8::is_ascii_chars_encode_utf8(code);
    assert(encode_utf8(code) =~= bytes);
    assert(bytes.drop_last() =~= seq![x as u8]);
    assert(seq![x as u8].drop_last() =~= Seq::<u8>::empty());
    reveal_with_fuel(query_bytes, 3);
    assert(query_bytes(bytes) =~= seq![x, y]);
}

/// A search asks for the whole query, without the white space around it, among the stations that
/// are not broken, the most votes first and fifty at most.
pub proof fn a_search_asks_for_the_whole_query(pre: Seq<char>, q: Seq<char>, post: Seq<char>)
    requires
        forall|i: int| 0 <= i < pre.len() ==> text::white(#[trigger] pre[i]),
        forall|i: int| 0 <= i < post.len() ==> text::white(#[trigger] post[i]),
        q.len() > 0 ==> !text::white(q[0]) && !text::white(q.last()),
    ensures
        ({
            let head = "/json/stations/search?name="@;
            let tail = "&hidebroken=true&order=votes&reverse=true&limit="@ + digits(50);
            let asked = search_request(pre + q + post);
            let value = asked.subrange(head.len() as int, asked.len() - tail.len());
            &&& asked == head + value + tail
            &&& query_decoded(value) == encode_utf8(q)
        }),
{
    text::trimming_takes_the_white_off(pre, q, post);
    let head = "/json/stations/search?name="@;
    let tail = "&hidebroken=true&order=votes&reverse=true&limit="@ + digits(50);
    let asked = search_request(pre + q + post);
    let value = asked.subrange(head.len() as int, asked.len() - tail.len());
    assert(value =~= query_text(q));
    assert(asked =~= head + value + tail);
    an_encoded_text_reads_back(encode_utf8(q));
}

/// An answer of the two hundreds is taken; a failure, a 429 and an error of the server are worth
/// another attempt; any other status is final.
pub proof fn what_is_worth_another_attempt(r: Response, e: String)
    ensures
        worth_another(Err(e)) is Ok && worth_another(Err(e))->Ok_0 == Some(e@),
        worth_another(Ok(r)) is Ok && worth_another(Ok(r))->Ok_0 is None <==> 200 <= r.status <= 299,
        worth_another(Ok(r)) is Ok && worth_another(Ok(r))->Ok_0 is Some <==> r.status == 429
            || r.status >= 500,
        worth_another(Ok(r)) is Err ==> worth_another(Ok(r))->Err_0 == ClientErrorView::Http(
            r.status,
        ),
{
}

/// There is another attempt after the first and after the second, a second and two seconds later,
/// as long as what has passed, that pause and the whole of the attempt fit the budget; the host is
/// resolved again before the second, and not before the third.
pub proof fn when_there_is_another_attempt(f: Fetch, now: Instant)
    requires
        f.wf(),
        now.nanos >= f.start.nanos,
    ensures
        may_try_again(f, now) <==> f.attempt < 3 && now.nanos - f.start.nanos + f.attempt
            * 1_000_000_000 + f.total.nanos <= f.budget.nanos,
        f.attempt < 3 ==> pause_before((f.attempt + 1) as u32).nanos == f.attempt * 1_000_000_000,
        f.attempt < 3 ==> (resolves_before((f.attempt + 1) as u32) <==> f.attempt == 1),
{
}

} // verus!
