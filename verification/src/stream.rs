//! Opening a radio stream over HTTP: the timeouts, the head start, the facts that the response
//! headers give, and what a failed open means.

use vstd::prelude::*;

use crate::outside::{parsed_url, url_parse};
use crate::text;
use crate::text::{holds, lowered, number, trimmed};
use crate::time::{secs, Duration, NANOS_PER_SEC};
use crate::types::{text_view, ErrorCode};

verus! {

/// Bytes to buffer before the decoder is allowed to start: 2.05 s at 128 kbit/s, and one read of
/// the decoder. With less, the decoder asks for a full read, the download holds only part of
/// it, and the decode thread blocks for the remainder while the ring drains: an audible
/// dropout after every station start.
pub const PREFETCH_BYTES: u64 = 32 * 1024;

/// How much sound the output ring holds.
pub const RING_SECONDS: u64 = 2;

/// Size of the in-memory ring the HTTP body is written into.
pub const BUFFER_BYTES: usize = 256 * 1024;

/// The per-read timeout of the HTTP client, which also covers the wait for response headers.
pub const READ_TIMEOUT_SECS: u64 = 20;

/// The download layer's own idle timeout: no new data for this long triggers a reconnect
/// inside that layer.
pub const RETRY_TIMEOUT_SECS: u64 = 5;

/// TCP connect bound, with DNS resolution inside it.
pub const CONNECT_TIMEOUT_SECS: u64 = 10;

// ---------------------------------------------------------------------------------------------
// Settings

/// A whole number that a setting writes.
pub open spec fn setting(var: Option<Seq<char>>) -> Option<u64> {
    match var {
        Some(v) => match number(v, u64::MAX as nat) {
            Some(n) => Some(n as u64),
            None => None,
        },
        None => None,
    }
}

pub open spec fn str_view(s: Option<&str>) -> Option<Seq<char>> {
    match s {
        Some(t) => Some(t@),
        None => None,
    }
}

/// The seconds that a setting writes, or the default.
pub open spec fn setting_secs(var: Option<Seq<char>>, default_secs: u64) -> Duration {
    match setting(var) {
        Some(n) => secs(n as nat),
        None => secs(default_secs as nat),
    }
}

fn read_setting(var: Option<&str>) -> (r: Option<u64>)
    ensures
        r == setting(str_view(var)),
{
    match var {
        Some(v) => {
            let chars = text::chars_of(v);
            text::parse_number(&chars, u64::MAX)
        },
        None => None,
    }
}

/// The duration that the variable's value writes in seconds, or the default.
pub fn env_duration_secs(var: Option<&str>, default_secs: u64) -> (d: Duration)
    ensures
        d == setting_secs(str_view(var), default_secs),
        d.nanos <= u64::MAX * NANOS_PER_SEC,
{
    match read_setting(var) {
        Some(n) => Duration::from_secs(n),
        None => Duration::from_secs(default_secs),
    }
}

/// The read and retry timeouts for two settings.
pub open spec fn timeouts(read: Option<Seq<char>>, retry: Option<Seq<char>>) -> (
    Duration,
    Duration,
) {
    let r = setting_secs(read, READ_TIMEOUT_SECS);
    let t = setting_secs(retry, RETRY_TIMEOUT_SECS);
    if r.nanos <= t.nanos {
        (longer_than(t), t)
    } else {
        (r, t)
    }
}

/// Twice as long, and at least a second longer.
pub open spec fn longer_than(t: Duration) -> Duration {
    if t.nanos < NANOS_PER_SEC {
        Duration { nanos: (t.nanos + NANOS_PER_SEC) as u128 }
    } else {
        Duration { nanos: (t.nanos * 2) as u128 }
    }
}

/// The read timeout and the retry timeout, from the values of their settings. The read timeout
/// must stay strictly greater: the download layer's own idle reconnect only runs when its
/// outer timeout elapses, which requires the read to hang rather than to fail. If the client's
/// read timeout fires first, the body fails fast on every later poll and the download layer
/// retries in a tight loop. A read timeout that is not greater becomes twice the retry timeout,
/// and a second longer where that is less than a second.
pub fn resolved_timeouts(read: Option<&str>, retry: Option<&str>) -> (r: (Duration, Duration))
    ensures
        r == timeouts(str_view(read), str_view(retry)),
{
    let r = env_duration_secs(read, READ_TIMEOUT_SECS);
    let t = env_duration_secs(retry, RETRY_TIMEOUT_SECS);
    if r.nanos <= t.nanos {
        if t.nanos < NANOS_PER_SEC {
            (Duration { nanos: t.nanos + NANOS_PER_SEC }, t)
        } else {
            (t.times(2), t)
        }
    } else {
        (r, t)
    }
}

pub fn read_timeout(read: Option<&str>, retry: Option<&str>) -> (d: Duration)
    ensures
        d == timeouts(str_view(read), str_view(retry)).0,
{
    resolved_timeouts(read, retry).0
}

pub fn retry_timeout(read: Option<&str>, retry: Option<&str>) -> (d: Duration)
    ensures
        d == timeouts(str_view(read), str_view(retry)).1,
{
    resolved_timeouts(read, retry).1
}

/// Whatever the settings, the retry timeout is the one that was set, and the read timeout is
/// longer; it is the one that was set where that is longer already.
pub proof fn read_timeout_is_longer(read: Option<Seq<char>>, retry: Option<Seq<char>>)
    ensures
        timeouts(read, retry).1 == setting_secs(retry, RETRY_TIMEOUT_SECS),
        timeouts(read, retry).0.nanos > timeouts(read, retry).1.nanos,
        setting_secs(read, READ_TIMEOUT_SECS).nanos > timeouts(read, retry).1.nanos ==> timeouts(
            read,
            retry,
        ).0 == setting_secs(read, READ_TIMEOUT_SECS),
{
}

/// The timeouts as they are held for the life of the process: resolved and clamped once, so that
/// no two readers ever see different settings.
#[derive(Debug, Clone, Copy, PartialEq, Eq)]
pub struct HeldTimeouts {
    /// The read timeout and the retry timeout, once they are resolved.
    pub pair: Option<(Duration, Duration)>,
}

/// The timeouts for two settings where `held` is what was resolved before.
pub open spec fn held_timeouts(
    held: Option<(Duration, Duration)>,
    read: Option<Seq<char>>,
    retry: Option<Seq<char>>,
) -> (Duration, Duration) {
    match held {
        Some(pair) => pair,
        None => timeouts(read, retry),
    }
}

impl HeldTimeouts {
    /// The timeouts: those of the first call, whatever the settings are by now.
    pub fn resolve(&mut self, read: Option<&str>, retry: Option<&str>) -> (r: (Duration, Duration))
        ensures
            r == held_timeouts(old(self).pair, str_view(read), str_view(retry)),
            final(self).pair == Some(r),
    {
        match self.pair {
            Some(pair) => pair,
            None => {
                let pair = resolved_timeouts(read, retry);
                self.pair = Some(pair);
                pair
            },
        }
    }
}

/// What a run of calls gives, each with the settings of its moment.
pub open spec fn resolved_by(
    held: Option<(Duration, Duration)>,
    calls: Seq<(Option<Seq<char>>, Option<Seq<char>>)>,
) -> Seq<(Duration, Duration)>
    decreases calls.len(),
{
    if calls.len() == 0 {
        Seq::empty()
    } else {
        let pair = held_timeouts(held, calls[0].0, calls[0].1);
        seq![pair] + resolved_by(Some(pair), calls.skip(1))
    }
}

/// Every call gives the pair of the first, whatever the settings are by then, and its read timeout
/// is longer than its retry timeout.
pub proof fn timeouts_are_resolved_once(calls: Seq<(Option<Seq<char>>, Option<Seq<char>>)>)
    ensures
        resolved_by(None, calls).len() == calls.len(),
        forall|i: int|
            0 <= i < calls.len() ==> #[trigger] resolved_by(None, calls)[i] == timeouts(
                calls[0].0,
                calls[0].1,
            ) && resolved_by(None, calls)[i].0.nanos > resolved_by(None, calls)[i].1.nanos,
{
    if calls.len() > 0 {
        let pair = timeouts(calls[0].0, calls[0].1);
        held_timeouts_stay(pair, calls.skip(1));
        let later = resolved_by(Some(pair), calls.skip(1));
        assert forall|i: int| 0 <= i < calls.len() implies #[trigger] resolved_by(None, calls)[i]
            == pair by {
            if i > 0 {
                assert(resolved_by(None, calls)[i] == later[i - 1]);
            }
        }
    }
}

proof fn held_timeouts_stay(
    pair: (Duration, Duration),
    calls: Seq<(Option<Seq<char>>, Option<Seq<char>>)>,
)
    ensures
        resolved_by(Some(pair), calls).len() == calls.len(),
        forall|i: int|
            0 <= i < calls.len() ==> #[trigger] resolved_by(Some(pair), calls)[i] == pair,
    decreases calls.len(),
{
    if calls.len() > 0 {
        held_timeouts_stay(pair, calls.skip(1));
        let later = resolved_by(Some(pair), calls.skip(1));
        assert forall|i: int| 0 <= i < calls.len() implies #[trigger] resolved_by(
            Some(pair),
            calls,
        )[i] == pair by {
            if i > 0 {
                assert(resolved_by(Some(pair), calls)[i] == later[i - 1]);
            }
        }
    }
}

/// The bytes to buffer: the setting, or else what fills the output ring at the station's
/// bitrate, and never less than one read of the decoder.
pub open spec fn head_start(var: Option<Seq<char>>, bitrate_kbps: Option<u32>) -> u64 {
    match setting(var) {
        Some(n) => n,
        None => match bitrate_kbps {
            Some(k) => if RING_SECONDS * (k * 1000) / 8 > PREFETCH_BYTES {
                (RING_SECONDS * (k * 1000) / 8) as u64
            } else {
                PREFETCH_BYTES
            },
            None => PREFETCH_BYTES,
        },
    }
}

/// How many bytes to buffer before the decoder starts, from the value of the setting and the
/// station's bitrate.
pub fn prefetch_bytes(var: Option<&str>, bitrate_kbps: Option<u32>) -> (n: u64)
    ensures
        n == head_start(str_view(var), bitrate_kbps),
{
    match read_setting(var) {
        Some(n) => n,
        None => match bitrate_kbps {
            Some(k) => {
                let knee: u64 = RING_SECONDS * (k as u64 * 1000) / 8;
                if knee > PREFETCH_BYTES {
                    knee
                } else {
                    PREFETCH_BYTES
                }
            },
            None => PREFETCH_BYTES,
        },
    }
}

/// Without a setting, the decoder never starts on less than one read.
pub proof fn head_start_covers_one_read(bitrate_kbps: Option<u32>)
    ensures
        head_start(None, bitrate_kbps) >= PREFETCH_BYTES,
{
}

// ---------------------------------------------------------------------------------------------
// Errors

#[derive(Debug, Clone, PartialEq, Eq)]
pub struct StreamError {
    pub code: ErrorCode,
    pub message: String,
    /// The server answered, and would answer the same way again: a non-HTTP status line
    /// (`ICY 200 OK`) or one of 401/403/404/410. The engine fails the session at once on a
    /// terminal error on its first open instead of entering the backoff; on a reconnect
    /// nothing is terminal, since a mount that was playing a minute ago can be 404 while its
    /// source restarts.
    pub terminal: bool,
    /// The server's `Retry-After`, delta-seconds form only. The backoff waits at least this
    /// long, capped in the engine.
    pub retry_after: Option<Duration>,
}

pub struct StreamErrorView {
    pub code: ErrorCode,
    pub message: Seq<char>,
    pub terminal: bool,
    pub retry_after: Option<Duration>,
}

impl View for StreamError {
    type V = StreamErrorView;

    open spec fn view(&self) -> StreamErrorView {
        StreamErrorView {
            code: self.code,
            message: self.message@,
            terminal: self.terminal,
            retry_after: self.retry_after,
        }
    }
}

/// The URL of a station, in normal form.
pub fn parse_url(url: &str) -> (r: Result<String, StreamError>)
    ensures
        checked_url(parsed_url(url@)) == (match r {
            Ok(u) => Ok(u@),
            Err(e) => Err(e@),
        }),
{
    check_url(url_parse(url))
}

/// What a parsed URL means to the one who asked for it.
pub open spec fn checked_url(parsed: Result<Seq<char>, Seq<char>>) -> Result<
    Seq<char>,
    StreamErrorView,
> {
    match parsed {
        Ok(u) => Ok(u),
        Err(e) => Err(
            StreamErrorView {
                code: ErrorCode::InvalidUrl,
                message: "invalid stream URL: "@ + e,
                terminal: true,
                retry_after: None,
            },
        ),
    }
}

/// Makes an error of a text that is no URL.
pub fn check_url(parsed: Result<String, String>) -> (r: Result<String, StreamError>)
    ensures
        checked_url(
            match parsed {
                Ok(u) => Ok(u@),
                Err(e) => Err(e@),
            },
        ) == (match r {
            Ok(u) => Ok(u@),
            Err(e) => Err(e@),
        }),
{
    match parsed {
        Ok(u) => Ok(u),
        Err(e) => Err(
            StreamError {
                code: ErrorCode::InvalidUrl,
                message: "invalid stream URL: ".to_owned().concat(e.as_str()),
                terminal: true,
                retry_after: None,
            },
        ),
    }
}

/// The statuses that mean "not for you, not now, not later".
pub open spec fn terminal_status(status: u16) -> bool {
    status == 401 || status == 403 || status == 404 || status == 410
}

/// The statuses that mean "not for you, not now, not later": no stream at this URL for us.
/// Everything else (5xx, 408, 429, the rest of 4xx) may read differently on the next attempt,
/// so it keeps the backoff.
pub fn status_is_terminal(status: u16) -> (r: bool)
    ensures
        r == terminal_status(status),
{
    status == 401 || status == 403 || status == 404 || status == 410
}

/// The same rule for an error that may carry a status.
pub fn is_client_error(status: Option<u16>) -> (r: bool)
    ensures
        r == (status matches Some(s) && terminal_status(s)),
{
    match status {
        Some(s) => status_is_terminal(s),
        None => false,
    }
}

/// The wait that a `Retry-After` header writes in seconds.
pub open spec fn retry_wait(header: Option<Seq<char>>) -> Option<Duration> {
    match header {
        Some(h) => match setting(Some(trimmed(h))) {
            Some(n) => Some(secs(n as nat)),
            None => None,
        },
        None => None,
    }
}

/// `Retry-After` in its delta-seconds form; `None` for an absent, HTTP-date or unparsable value.
pub fn retry_after(header: Option<&str>) -> (d: Option<Duration>)
    ensures
        d == retry_wait(str_view(header)),
{
    match header {
        Some(h) => {
            let chars = text::chars_of(h);
            match text::parse_number(text::trim(&chars), u64::MAX) {
                Some(n) => Some(Duration::from_secs(n)),
                None => None,
            }
        },
        None => None,
    }
}

/// A message that speaks of an answer that is not HTTP.
pub open spec fn speaks_of_non_http(message: Seq<char>) -> bool {
    let lower = lowered(message);
    holds(lower, "invalid http"@) || holds(lower, "http version"@) || holds(lower, "parse"@)
}

/// What is said about an answer that is not HTTP (`invalid HTTP version parsed` for an
/// `ICY 200 OK` line). The one table both classifier stages read, so the same wording cannot be
/// terminal in one and retriable in the other. "status" is not in it: a transport error whose
/// root mentions a status is not a non-HTTP answer.
pub fn non_http_wording(message: &str) -> (r: bool)
    ensures
        r == speaks_of_non_http(message@),
{
    let chars = text::chars_of(message);
    let lower = text::to_lowered(&chars);
    text::contains_str(&lower, "invalid http") || text::contains_str(&lower, "http version")
        || text::contains_str(&lower, "parse")
}

/// One error of a chain of causes.
#[derive(Debug, Clone, PartialEq, Eq)]
pub struct ErrorLink {
    pub message: String,
    /// The HTTP library could not parse what the server answered.
    pub is_parse: bool,
}

pub open spec fn messages(chain: Seq<ErrorLink>) -> Seq<Seq<char>> {
    chain.map_values(|l: ErrorLink| l.message@)
}

/// The messages with ": " between them.
pub open spec fn with_colons(s: Seq<Seq<char>>) -> Seq<char>
    decreases s.len(),
{
    if s.len() == 0 {
        Seq::empty()
    } else if s.len() == 1 {
        s[0]
    } else {
        with_colons(s.drop_last()) + ": "@ + s.last()
    }
}

/// Whether any error of the chain is one of parsing.
pub fn chain_has_parse_error(chain: &Vec<ErrorLink>) -> (r: bool)
    ensures
        r == exists|i: int| 0 <= i < chain@.len() && (#[trigger] chain@[i]).is_parse,
{
    let mut i: usize = 0;
    while i < chain.len()
        invariant
            i <= chain.len(),
            forall|j: int| 0 <= j < i ==> !(#[trigger] chain@[j]).is_parse,
        decreases chain.len() - i,
    {
        if chain[i].is_parse {
            return true;
        }
        i = i + 1;
    }
    false
}

/// Whether the root of the chain speaks of an answer that is not HTTP: what is left to go by if
/// the typed cause is out of reach.
pub fn root_looks_like_parse(chain: &Vec<ErrorLink>) -> (r: bool)
    ensures
        r == (chain@.len() > 0 && speaks_of_non_http(chain@.last().message@)),
{
    let n: usize = chain.len();
    n > 0 && non_http_wording(chain[n - 1].message.as_str())
}

/// "top: cause: root": every link of the chain, so that a log line shows the reason and not the
/// outer wrapper alone.
pub fn chain_message(chain: &Vec<ErrorLink>) -> (m: String)
    ensures
        m@ == with_colons(messages(chain@)),
{
    let ghost all = messages(chain@);
    if chain.len() == 0 {
        return String::new();
    }
    let mut m = chain[0].message.clone();
    let mut i: usize = 1;
    assert(all.take(1)[0] == chain@[0].message@);
    while i < chain.len()
        invariant
            1 <= i <= chain.len(),
            all == messages(chain@),
            m@ == with_colons(all.take(i as int)),
        decreases chain.len() - i,
    {
        assert(all.take(i + 1).drop_last() == all.take(i as int));
        assert(all.take(i + 1).last() == chain@[i as int].message@);
        m = m.concat(": ").concat(chain[i].message.as_str());
        i = i + 1;
    }
    assert(all.take(all.len() as int) == all);
    m
}

/// A failed open, as the HTTP client reports it.
#[derive(Debug, Clone, PartialEq, Eq)]
pub enum OpenFailure {
    /// The server answered with a status that is no success.
    Response { status: u16, retry_after: Option<String>, message: String },
    /// The request failed: the error and its causes, outermost first, and the status it
    /// carries, if any.
    Fetch { chain: Vec<ErrorLink>, status: Option<u16> },
}

/// What a failed open means.
pub open spec fn open_error(failure: OpenFailure) -> StreamErrorView {
    match failure {
        OpenFailure::Response { status, retry_after, message } => StreamErrorView {
            code: ErrorCode::Http,
            message: message@,
            terminal: terminal_status(status),
            retry_after: retry_wait(text_view(retry_after)),
        },
        OpenFailure::Fetch { chain, status } => {
            let parse = (exists|i: int| 0 <= i < chain@.len() && (#[trigger] chain@[i]).is_parse)
                || (chain@.len() > 0 && speaks_of_non_http(chain@.last().message@));
            StreamErrorView {
                code: if parse || status is Some {
                    ErrorCode::Http
                } else {
                    ErrorCode::Network
                },
                message: with_colons(messages(chain@)),
                terminal: parse || (status matches Some(s) && terminal_status(s)),
                retry_after: None,
            }
        },
    }
}

/// Classifies a failed open. The causes are inspected one by one, not through the outermost
/// message, which says no more than "error sending request". The rule, in order:
///
/// - a status the server did send is `Http`, **terminal for 401, 403, 404 and 410**, retriable
///   for every other status, with its `Retry-After` carried;
/// - a parse error anywhere in the chain (the legacy `ICY` status line, or any other non-HTTP
///   answer) is `Http`, **terminal**;
/// - a root message with the non-HTTP wording is `Http`, terminal;
/// - everything else (DNS, TCP, TLS, timeouts) is `Network`, retriable.
pub fn classify_open_error(failure: OpenFailure) -> (e: StreamError)
    ensures
        e@ == open_error(failure),
{
    match failure {
        OpenFailure::Response { status, retry_after: header, message } => {
            let wait = match &header {
                Some(h) => retry_after(Some(h.as_str())),
                None => None,
            };
            StreamError {
                code: ErrorCode::Http,
                terminal: status_is_terminal(status),
                retry_after: wait,
                message,
            }
        },
        OpenFailure::Fetch { chain, status } => {
            let parse = chain_has_parse_error(&chain) || root_looks_like_parse(&chain);
            let (code, terminal) = if parse {
                (ErrorCode::Http, true)
            } else if status.is_some() {
                (ErrorCode::Http, is_client_error(status))
            } else {
                (ErrorCode::Network, false)
            };
            StreamError { code, message: chain_message(&chain), terminal, retry_after: None }
        },
    }
}

/// What an error of which only the text is known means.
pub open spec fn text_error(message: Seq<char>) -> StreamErrorView {
    StreamErrorView {
        code: if speaks_of_non_http(message) || holds(lowered(message), "status"@) {
            ErrorCode::Http
        } else {
            ErrorCode::Network
        },
        message,
        terminal: speaks_of_non_http(message),
        retry_after: None,
    }
}

/// Best-effort mapping from an error *text* to a user-facing code, for the second open stage,
/// which only exposes its error as text. Only a non-HTTP answer is known to be terminal from
/// text alone; a bare "status" could be a 5xx.
pub fn classify_http_error(message: String) -> (e: StreamError)
    ensures
        e@ == text_error(message@),
{
    let parse = non_http_wording(message.as_str());
    let chars = text::chars_of(message.as_str());
    let lower = text::to_lowered(&chars);
    let code = if parse || text::contains_str(&lower, "status") {
        ErrorCode::Http
    } else {
        ErrorCode::Network
    };
    StreamError { code, message, terminal: parse, retry_after: None }
}

/// A terminal error is never one of the network: the server has answered.
pub proof fn terminal_means_answered(failure: OpenFailure, message: Seq<char>)
    ensures
        open_error(failure).terminal ==> open_error(failure).code == ErrorCode::Http,
        text_error(message).terminal ==> text_error(message).code == ErrorCode::Http,
{
}

// ---------------------------------------------------------------------------------------------
// The headers of a stream

/// What the response headers say of a stream.
#[derive(Debug, Clone, PartialEq, Eq)]
pub struct StreamFacts {
    /// How many bytes of sound stand between two blocks of metadata.
    pub metaint: Option<usize>,
    pub content_type: Option<String>,
    pub bitrate_kbps: Option<u32>,
    pub station_name: Option<String>,
}

/// The positive number that an `icy-metaint` header writes.
pub open spec fn metaint_of(header: Option<Seq<char>>) -> Option<usize> {
    match header {
        Some(h) => match number(trimmed(h), usize::MAX as nat) {
            Some(n) => if n > 0 {
                Some(n as usize)
            } else {
                None
            },
            None => None,
        },
        None => None,
    }
}

/// The number that an `icy-br` header writes.
pub open spec fn bitrate_of(header: Option<Seq<char>>) -> Option<u32> {
    match header {
        Some(h) => match number(trimmed(h), u32::MAX as nat) {
            Some(n) => Some(n as u32),
            None => None,
        },
        None => None,
    }
}

/// The name that an `icy-name` header gives.
pub open spec fn name_of(header: Option<Seq<char>>) -> Option<Seq<char>> {
    match header {
        Some(n) => Some(trimmed(n)),
        None => None,
    }
}

/// The content type that a type and a subtype make.
pub open spec fn type_of(parts: Option<(Seq<char>, Seq<char>)>) -> Option<Seq<char>> {
    match parts {
        Some((t, s)) => Some(t + "/"@ + s),
        None => None,
    }
}

/// Reads the response headers of a stream: `icy-metaint`, `icy-br`, `icy-name`, and the type
/// and subtype of the `Content-Type`.
pub fn stream_facts(
    metaint: Option<&str>,
    bitrate: Option<&str>,
    name: Option<&str>,
    content_type: Option<(&str, &str)>,
) -> (f: StreamFacts)
    ensures
        f.metaint == metaint_of(str_view(metaint)),
        f.bitrate_kbps == bitrate_of(str_view(bitrate)),
        text_view(f.station_name) == name_of(str_view(name)),
        text_view(f.content_type) == type_of(
            match content_type {
                Some((t, s)) => Some((t@, s@)),
                None => None,
            },
        ),
{
    let metaint: Option<usize> = match metaint {
        Some(h) => {
            let chars = text::chars_of(h);
            match text::parse_number(text::trim(&chars), usize::MAX as u64) {
                Some(n) => if n > 0 {
                    Some(n as usize)
                } else {
                    None
                },
                None => None,
            }
        },
        None => None,
    };
    let bitrate_kbps: Option<u32> = match bitrate {
        Some(h) => {
            let chars = text::chars_of(h);
            match text::parse_number(text::trim(&chars), u32::MAX as u64) {
                Some(n) => Some(n as u32),
                None => None,
            }
        },
        None => None,
    };
    let station_name = match name {
        Some(n) => {
            let chars = text::chars_of(n);
            Some(text::string_of(text::trim(&chars)))
        },
        None => None,
    };
    let content_type = match content_type {
        Some((t, s)) => Some(t.to_owned().concat("/").concat(s)),
        None => None,
    };
    StreamFacts { metaint, content_type, bitrate_kbps, station_name }
}

// ---------------------------------------------------------------------------------------------
// What settings, headers and errors come to

/// A setting that writes a number of 64 bits is that number, and so is a header in which white
/// space stands around it.
pub proof fn a_written_number_is_read(n: u64, pre: Seq<char>, post: Seq<char>)
    requires
        forall|i: int| 0 <= i < pre.len() ==> text::white(#[trigger] pre[i]),
        forall|i: int| 0 <= i < post.len() ==> text::white(#[trigger] post[i]),
    ensures
        ({
            let written = text::digits(n as nat);
            let header = Some(pre + written + post);
            &&& setting(Some(written)) == Some(n)
            &&& setting_secs(Some(written), 0).nanos == n * 1_000_000_000
            &&& retry_wait(header) is Some && retry_wait(header)->0.nanos == n * 1_000_000_000
            &&& bitrate_of(header) == (if n <= u32::MAX {
                Some(n as u32)
            } else {
                None
            })
            &&& 0 < n <= usize::MAX ==> metaint_of(header) == Some(n as usize)
            &&& n == 0 ==> metaint_of(header) is None
        }),
{
    let written = text::digits(n as nat);
    text::digits_read_back(n as nat, u64::MAX as nat);
    text::digits_read_back(n as nat, u32::MAX as nat);
    text::digits_read_back(n as nat, usize::MAX as nat);
    assert('0' <= written[0] <= '9');
    assert('0' <= written[written.len() - 1] <= '9');
    text::trimming_takes_the_white_off(pre, written, post);
}

/// What is not set, or is no number, leaves the default: twenty seconds to read, five to retry.
pub proof fn what_is_not_set_is_the_default(var: Option<Seq<char>>)
    requires
        var matches Some(v) ==> number(v, u64::MAX as nat) is None,
    ensures
        setting(var) is None,
        timeouts(var, var).0.nanos == 20_000_000_000,
        timeouts(var, var).1.nanos == 5_000_000_000,
        retry_wait(None) is None,
        metaint_of(None) is None,
        bitrate_of(None) is None,
{
}

/// Without a setting, the head start is what two seconds of the station's bitrate fill, 250 bytes
/// for each kilobit a second, and 32768 bytes where that is less or the bitrate is not known. A
/// setting is taken as it is.
pub proof fn the_head_start_follows_the_bitrate(kbps: u32, n: u64)
    ensures
        head_start(None, None) == 32_768,
        head_start(None, Some(kbps)) == (if 250 * kbps > 32_768 {
            250 * kbps
        } else {
            32_768
        }),
        head_start(Some(text::digits(n as nat)), Some(kbps)) == n,
        head_start(Some(text::digits(n as nat)), None) == n,
{
    text::digits_read_back(n as nat, u64::MAX as nat);
    assert(2 * (kbps * 1000) / 8 == 250 * kbps);
}

/// A message speaks of an answer that is not HTTP when it holds one of three wordings, whatever the
/// case of its letters.
pub proof fn three_wordings_are_not_http(message: Seq<char>)
    ensures
        speaks_of_non_http(message) <==> text::holds_alike(message, "invalid http"@)
            || text::holds_alike(message, "http version"@) || text::holds_alike(message, "parse"@),
        holds(lowered(message), "status"@) <==> text::holds_alike(message, "status"@),
{
    reveal_strlit("invalid http");
    reveal_strlit("http version");
    reveal_strlit("parse");
    reveal_strlit("status");
    assert(lowered("invalid http"@) =~= "invalid http"@);
    assert(lowered("http version"@) =~= "http version"@);
    assert(lowered("parse"@) =~= "parse"@);
    assert(lowered("status"@) =~= "status"@);
    text::lowered_holds_alike(message, "invalid http"@);
    text::lowered_holds_alike(message, "http version"@);
    text::lowered_holds_alike(message, "parse"@);
    text::lowered_holds_alike(message, "status"@);
}

/// A status that the server sent is an error of HTTP, final for 401, 403, 404 and 410 and for no
/// other, and carries what the server said of a retry and the message as it came.
pub proof fn a_status_is_an_error_of_http(
    status: u16,
    retry_after: Option<String>,
    message: String,
)
    ensures
        ({
            let e = open_error(OpenFailure::Response { status, retry_after, message });
            &&& e.code == ErrorCode::Http
            &&& e.terminal <==> (status == 401 || status == 403 || status == 404 || status == 410)
            &&& e.message == message@
            &&& retry_after is None ==> e.retry_after is None
            &&& retry_after is Some ==> e.retry_after == retry_wait(Some(retry_after->0@))
        }),
{
}

/// A request that failed is one of the network and tried again, unless a link of its chain, or the
/// wording of its root, says that the answer was not HTTP, which is final, or it carries a status,
/// which decides by itself.
pub proof fn a_failed_request_is_of_the_network(chain: Vec<ErrorLink>, status: Option<u16>)
    ensures
        ({
            let e = open_error(OpenFailure::Fetch { chain, status });
            let garbled = (exists|i: int| 0 <= i < chain@.len() && (#[trigger] chain@[i]).is_parse)
                || chain@.len() > 0 && speaks_of_non_http(chain@[chain@.len() - 1].message@);
            &&& garbled ==> e.code == ErrorCode::Http && e.terminal
            &&& !garbled && status is None ==> e.code == ErrorCode::Network && !e.terminal
            &&& !garbled && status is Some ==> e.code == ErrorCode::Http && (e.terminal <==> (
            status->0 == 401 || status->0 == 403 || status->0 == 404 || status->0 == 410))
            &&& e.retry_after is None
            &&& chain@.len() == 1 ==> e.message == chain@[0].message@
        }),
{
    if chain@.len() == 1 {
        assert(messages(chain@)[0] == chain@[0].message@);
    }
}

/// Of an error of which only the text is known, one that speaks of an answer that is not HTTP is
/// final; one that speaks of a status is of HTTP and tried again; any other is of the network.
pub proof fn a_text_is_classified_by_its_words(message: Seq<char>)
    ensures
        ({
            let e = text_error(message);
            &&& e.message == message
            &&& e.terminal <==> speaks_of_non_http(message)
            &&& e.code == ErrorCode::Http <==> speaks_of_non_http(message) || text::holds_alike(
                message,
                "status"@,
            )
            &&& e.code == ErrorCode::Http || e.code == ErrorCode::Network
            &&& e.retry_after is None
        }),
{
    three_wordings_are_not_http(message);
}

/// The message of a chain tells every link, outermost first.
pub proof fn a_chain_is_told_link_by_link(links: Seq<Seq<char>>, more: Seq<char>)
    requires
        links.len() > 0,
    ensures
        with_colons(seq![more]) == more,
        with_colons(links.push(more)) == with_colons(links) + seq![':', ' '] + more,
{
    reveal_strlit(": ");
    assert(": "@ =~= seq![':', ' ']);
    assert(links.push(more).drop_last() =~= links);
}

/// A URL that parsed is taken as it is; a text that is none is refused for good.
pub proof fn only_a_url_is_opened(parsed: Result<Seq<char>, Seq<char>>)
    ensures
        parsed matches Ok(u) ==> checked_url(parsed) == Ok::<Seq<char>, StreamErrorView>(u),
        parsed is Err ==> checked_url(parsed) is Err && checked_url(parsed)->Err_0.terminal
            && checked_url(parsed)->Err_0.code == ErrorCode::InvalidUrl,
{
}

/// A stream has the name that its header gives, without the white space around it, and the type and
/// subtype that its header gives, with a slash between them; and none where there is no header.
pub proof fn a_stream_is_named_by_its_headers(
    pre: Seq<char>,
    name: Seq<char>,
    post: Seq<char>,
    t: Seq<char>,
    sub: Seq<char>,
)
    requires
        forall|i: int| 0 <= i < pre.len() ==> text::white(#[trigger] pre[i]),
        forall|i: int| 0 <= i < post.len() ==> text::white(#[trigger] post[i]),
        name.len() > 0 ==> !text::white(name[0]) && !text::white(name.last()),
    ensures
        name_of(Some(pre + name + post)) == Some(name),
        name_of(None) is None,
        type_of(Some((t, sub))) == Some(t + seq!['/'] + sub),
        type_of(None) is None,
{
    reveal_strlit("/");
    assert("/"@ =~= seq!['/']);
    text::trimming_takes_the_white_off(pre, name, post);
}

} // verus!
