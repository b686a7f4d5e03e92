//! HTTP Live Streaming, the ADTS half. A live playlist is refreshed, its ADTS segments are
//! normalised and concatenated into one byte stream, and that stream is fed to the same reader,
//! decoder, ring and equalizer that a plain HTTP stream uses.
//!
//! - [`playlist`]: the parser, the variant choice, and the refresh planner that decides which
//!   sequence numbers to fetch and how long to wait.
//! - [`segment`]: the ID3 skip, the ADTS walk, the format guard, the container sniff, and
//!   gunzip.
//! - [`fetch`]: what one request for a playlist or a segment comes to.
//! - [`open`]: the requests that decide whether the station can play at all.
//! - [`task`]: the loop that executes the planner's steps.
//! - [`written`]: playlists as a server writes them, and that they are read as written.
//! - this file: the timeouts, the retry rule and the errors that they share.
//!
//! **Detection is by the response, never by a station's record.** **The stream never yields an
//! error**: a fatal condition ends the source, the decoder sees the end of the stream, and the
//! session's own backoff reopens. That is why the retry timeout here may be above the read
//! timeout.

pub mod fetch;
pub mod open;
pub mod playlist;
pub mod segment;
pub mod task;
pub mod written;

use vstd::prelude::*;

use crate::stream;
use crate::stream::{
    messages, retry_wait, str_view, terminal_status, with_colons, ErrorLink, StreamError,
    StreamErrorView,
};
use crate::text;
use crate::text::{digits, lowered, pieces, trimmed, views};
use crate::time::{longer, secs, Duration, NANOS_PER_SEC};
use crate::types::ErrorCode;

use playlist::{
    bounded_target_duration, clamped, error_text, stall_bound, stall_limit, Playlist,
    PlaylistError, PlaylistView,
};
use segment::{Container, Normalised};

verus! {

/// Whole-request bound on a playlist fetch, on top of the client's connect and read bounds.
pub const PLAYLIST_TIMEOUT_SECS: u64 = 10;

/// A playlist body over this is refused.
pub const PLAYLIST_MAX_BYTES: usize = 1024 * 1024;

/// A segment body over this is dropped as a gap.
pub const SEGMENT_MAX_BYTES: usize = 4 * 1024 * 1024;

/// Segments queued between the fetch task and the reader. Two: one being read, one ahead.
pub const CHANNEL_SEGMENTS: usize = 2;

/// A failed segment fetch is retried at this step while the segment is still within its
/// target duration of the first try; after that it is a gap.
pub const SEGMENT_RETRY_STEP_SECS: u64 = 1;

/// A 404 on a segment the playlist listed is retried this many times, and skipped after that:
/// at the live edge it is often a server that has not yet received a segment the origin already
/// published.
pub const NOT_FOUND_RETRIES: u32 = 2;

/// Headroom added to the retry timeout above the longest silence the task can be in.
pub const RETRY_TIMEOUT_HEADROOM_SECS: u64 = 5;

/// The least whole-request bound on a segment fetch.
pub const MIN_SEGMENT_TIMEOUT_SECS: u64 = 10;

// ---------------------------------------------------------------------------------------------
// Content types and timeouts

/// A `Content-Type` without its parameters, in small letters.
pub open spec fn bare_type(content_type: Seq<char>) -> Seq<char> {
    lowered(trimmed(pieces(content_type, ';')[0]))
}

/// The content types a server uses for an HLS playlist.
pub open spec fn names_hls(content_type: Seq<char>) -> bool {
    let bare = bare_type(content_type);
    ||| bare == "application/vnd.apple.mpegurl"@
    ||| bare == "application/x-mpegurl"@
    ||| bare == "audio/mpegurl"@
    ||| bare == "audio/x-mpegurl"@
}

/// Whether a response's `Content-Type` names an HLS playlist, compared case-insensitively with
/// any `; charset=` parameter dropped.
pub fn is_hls_content_type(content_type: &str) -> (r: bool)
    ensures
        r == names_hls(content_type@),
{
    let chars = text::chars_of(content_type);
    let parts = text::split(&chars, ';');
    assert(views(parts@)[0] == parts@[0]@);
    let bare = text::to_lowered(text::trim(parts[0]));
    text::is(&bare, "application/vnd.apple.mpegurl") || text::is(&bare, "application/x-mpegurl")
        || text::is(&bare, "audio/mpegurl") || text::is(&bare, "audio/x-mpegurl")
}

/// How long a segment may take for a target duration.
pub open spec fn segment_limit(target_duration: Duration) -> Duration {
    longer(
        Duration { nanos: (clamped(target_duration).nanos * 2) as u128 },
        secs(MIN_SEGMENT_TIMEOUT_SECS as nat),
    )
}

/// Whole-request bound on a segment fetch: twice the bounded target duration, at least 10 s.
pub fn segment_timeout(target_duration: Duration) -> (d: Duration)
    ensures
        d == segment_limit(target_duration),
        10 * NANOS_PER_SEC <= d.nanos <= 60 * NANOS_PER_SEC,
{
    bounded_target_duration(target_duration).times(2).longer(
        Duration::from_secs(MIN_SEGMENT_TIMEOUT_SECS),
    )
}

/// The idle timeout for an HLS source of a target duration.
pub open spec fn retry_limit(target_duration: Duration) -> Duration {
    Duration {
        nanos: (stall_limit(target_duration).nanos + segment_limit(target_duration).nanos
            + RETRY_TIMEOUT_HEADROOM_SECS * NANOS_PER_SEC) as u128,
    }
}

/// The download layer's idle timeout for an HLS source: the longest the task can legitimately
/// go without yielding a byte (the stall bound, waiting on a window that has not advanced, plus
/// one segment timeout, the fetch that follows) plus headroom. Deliberately above the read
/// timeout; see the module's documentation.
pub fn retry_timeout_for(target_duration: Duration) -> (d: Duration)
    ensures
        d == retry_limit(target_duration),
        d.nanos <= 155 * NANOS_PER_SEC,
{
    stall_bound(target_duration).plus(segment_timeout(target_duration)).plus(
        Duration::from_secs(RETRY_TIMEOUT_HEADROOM_SECS),
    )
}

/// The idle timeout is above the longest legitimate silence, a stall followed by one fetch,
/// whatever target duration a playlist claims.
pub proof fn retry_timeout_is_above_the_longest_silence(target_duration: Duration)
    ensures
        retry_limit(target_duration).nanos > stall_limit(target_duration).nanos + segment_limit(
            target_duration,
        ).nanos,
        retry_limit(target_duration).nanos <= 155 * NANOS_PER_SEC,
{
}

// ---------------------------------------------------------------------------------------------
// Errors

/// What a request is for.
#[derive(Debug, Clone, Copy, PartialEq, Eq, Structural)]
pub enum Kind {
    Master,
    Media,
    Segment,
}

/// The name of a kind, as it is logged.
pub open spec fn kind_name(k: Kind) -> Seq<char> {
    match k {
        Kind::Master => "master"@,
        Kind::Media => "media"@,
        Kind::Segment => "segment"@,
    }
}

impl Kind {
    pub fn name(&self) -> (s: &'static str)
        ensures
            s@ == kind_name(*self),
    {
        match self {
            Kind::Master => "master",
            Kind::Media => "media",
            Kind::Segment => "segment",
        }
    }
}

/// The error for what can never be played.
pub open spec fn unsupported_error(message: Seq<char>) -> StreamErrorView {
    StreamErrorView {
        code: ErrorCode::UnsupportedFormat,
        message,
        terminal: true,
        retry_after: None,
    }
}

pub fn unsupported(message: String) -> (e: StreamError)
    ensures
        e@ == unsupported_error(message@),
{
    StreamError {
        code: ErrorCode::UnsupportedFormat,
        message,
        terminal: true,
        retry_after: None,
    }
}

/// The error for what may work the next time.
pub open spec fn network_error(message: Seq<char>) -> StreamErrorView {
    StreamErrorView { code: ErrorCode::Network, message, terminal: false, retry_after: None }
}

pub fn network(message: String) -> (e: StreamError)
    ensures
        e@ == network_error(message@),
{
    StreamError { code: ErrorCode::Network, message, terminal: false, retry_after: None }
}

/// The error for a request that failed.
pub open spec fn request_error(
    kind: Kind,
    url: Seq<char>,
    chain: Seq<Seq<char>>,
    status: Option<u16>,
) -> StreamErrorView {
    let message = "HLS "@ + kind_name(kind) + " request to "@ + url + " failed: "@ + with_colons(
        chain,
    );
    match status {
        Some(s) => StreamErrorView {
            code: ErrorCode::Http,
            message,
            terminal: terminal_status(s),
            retry_after: None,
        },
        None => network_error(message),
    }
}

/// A failure of a request, classified as a stream's open classifies its own: a status the
/// server sent is `Http` (terminal for 401/403/404/410), everything else `Network`.
pub fn classify(kind: Kind, url: &str, chain: &Vec<ErrorLink>, status: Option<u16>) -> (e:
    StreamError)
    ensures
        e@ == request_error(kind, url@, messages(chain@), status),
{
    let message = "HLS ".to_owned().concat(kind.name()).concat(" request to ").concat(url).concat(
        " failed: ",
    ).concat(stream::chain_message(chain).as_str());
    match status {
        Some(s) => StreamError {
            code: ErrorCode::Http,
            message,
            terminal: stream::status_is_terminal(s),
            retry_after: None,
        },
        None => network(message),
    }
}

/// The error for a status that is no success.
pub open spec fn answer_error(
    kind: Kind,
    url: Seq<char>,
    status: u16,
    status_text: Seq<char>,
    retry_after: Option<Seq<char>>,
) -> StreamErrorView {
    StreamErrorView {
        code: ErrorCode::Http,
        message: "HLS "@ + kind_name(kind) + " request to "@ + url + " answered HTTP "@
            + status_text,
        terminal: terminal_status(status),
        retry_after: retry_wait(retry_after),
    }
}

/// A status the server sent that is not a success. `status_text` is the status in words.
pub fn status_error(
    kind: Kind,
    url: &str,
    status: u16,
    status_text: &str,
    retry_after: Option<&str>,
) -> (e: StreamError)
    ensures
        e@ == answer_error(kind, url@, status, status_text@, str_view(retry_after)),
{
    StreamError {
        code: ErrorCode::Http,
        message: "HLS ".to_owned().concat(kind.name()).concat(" request to ").concat(url).concat(
            " answered HTTP ",
        ).concat(status_text),
        terminal: stream::status_is_terminal(status),
        retry_after: stream::retry_after(retry_after),
    }
}

/// What a body turned out to be when it parsed, and otherwise what the caller asked for.
pub open spec fn kind_read<E>(expected: Kind, parsed: Result<PlaylistView, E>) -> Kind {
    match parsed {
        Ok(PlaylistView::Master(_)) => Kind::Master,
        Ok(PlaylistView::Media(_)) => Kind::Media,
        Err(_) => expected,
    }
}

/// The kind that a playlist request is logged with: what the body turned out to be when it
/// parsed, and otherwise what the caller asked for.
pub fn logged_kind(expected: Kind, parsed: Option<&Playlist>) -> (k: Kind)
    ensures
        k == kind_read(
            expected,
            match parsed {
                Some(p) => Ok(p@),
                None => Err(()),
            },
        ),
{
    match parsed {
        Some(Playlist::Master(_)) => Kind::Master,
        Some(Playlist::Media(_)) => Kind::Media,
        None => expected,
    }
}

/// The error for a body that is no playlist to play.
pub fn playlist_refused(e: PlaylistError) -> (r: StreamError)
    ensures
        r@ == unsupported_error(error_text(e@)),
{
    unsupported(e.message())
}

/// Why a container cannot be played.
pub open spec fn container_text(c: Container) -> Seq<char> {
    match c {
        Container::MpegTs => "HLS with MPEG-TS segments is not supported yet"@,
        Container::Fmp4 => "HLS with fMP4 segments is not supported yet"@,
        _ => "HLS segment format not recognised"@,
    }
}

/// The error for a segment in a container that cannot be played.
pub fn refused_container(c: Container) -> (e: StreamError)
    requires
        c != Container::Adts,
    ensures
        e@ == unsupported_error(container_text(c)),
{
    unsupported(
        match c {
            Container::MpegTs => "HLS with MPEG-TS segments is not supported yet".to_owned(),
            Container::Fmp4 => "HLS with fMP4 segments is not supported yet".to_owned(),
            _ => "HLS segment format not recognised".to_owned(),
        },
    )
}

/// What there is to note of a segment after the walk: `None` when it came out as it went in.
pub open spec fn walk_note(seq: u64, n: Normalised) -> Option<Seq<char>> {
    if n.rewritten > 0 || n.crc_dropped > 0 || n.partial_dropped > 0 || n.sync_lost is Some {
        Some(
            "hls segment seq="@ + digits(seq as nat) + " frames="@ + digits(n.frames as nat)
                + " rewritten="@ + digits(n.rewritten as nat) + " crc_dropped="@ + digits(
                n.crc_dropped as nat,
            ) + " partial_dropped="@ + digits(n.partial_dropped as nat) + " sync_lost="@ + (
            match n.sync_lost {
                None => "None"@,
                Some((at, lost)) => "Some(("@ + digits(at as nat) + ", "@ + digits(lost as nat)
                    + "))"@,
            }),
        )
    } else {
        None
    }
}

/// The line that a segment is logged with, when there is something to note.
pub fn log_normalised(seq: u64, n: &Normalised) -> (line: Option<String>)
    ensures
        crate::types::text_view(line) == walk_note(seq, *n),
{
    if n.rewritten > 0 || n.crc_dropped > 0 || n.partial_dropped > 0 || n.sync_lost.is_some() {
        let mut out = text::chars_of("hls segment seq=");
        text::push_digits(&mut out, seq);
        text::push_str(&mut out, " frames=");
        text::push_digits(&mut out, n.frames as u64);
        text::push_str(&mut out, " rewritten=");
        text::push_digits(&mut out, n.rewritten as u64);
        text::push_str(&mut out, " crc_dropped=");
        text::push_digits(&mut out, n.crc_dropped as u64);
        text::push_str(&mut out, " partial_dropped=");
        text::push_digits(&mut out, n.partial_dropped as u64);
        text::push_str(&mut out, " sync_lost=");
        let ghost head = out@;
        match n.sync_lost {
            None => text::push_str(&mut out, "None"),
            Some((at, lost)) => {
                text::push_str(&mut out, "Some((");
                text::push_digits(&mut out, at as u64);
                text::push_str(&mut out, ", ");
                text::push_digits(&mut out, lost as u64);
                text::push_str(&mut out, "))");
                assert(out@ =~= head + ("Some(("@ + digits(at as nat) + ", "@ + digits(lost as nat)
                    + "))"@));
            },
        }
        Some(text::string_of(&out))
    } else {
        None
    }
}

// ---------------------------------------------------------------------------------------------
// The retry rule

/// A segment fetch that failed, as the retry rule reads it.
#[derive(Debug, Clone, PartialEq, Eq)]
pub enum Failure {
    /// 410: permanent by definition.
    Gone,
    /// 404: evicted, or not at the edge yet.
    NotFound(u16),
    /// A network error or any other status.
    Transient(String),
}

/// The cause of a failure in words.
pub open spec fn failure_text(f: Failure) -> Seq<char> {
    match f {
        Failure::Gone => "HTTP 410"@,
        Failure::NotFound(status) => "HTTP "@ + digits(status as nat),
        Failure::Transient(message) => message@,
    }
}

impl Failure {
    pub fn cause(&self) -> (s: String)
        ensures
            s@ == failure_text(*self),
    {
        match self {
            Failure::Gone => "HTTP 410".to_owned(),
            Failure::NotFound(status) => {
                let mut out = text::chars_of("HTTP ");
                text::push_digits(&mut out, *status as u64);
                text::string_of(&out)
            },
            Failure::Transient(message) => message.clone(),
        }
    }
}

#[derive(Debug, Clone, Copy, PartialEq, Eq, Structural)]
pub enum AfterFailure {
    Retry,
    Skip,
}

/// Whether a failed segment is tried again.
pub open spec fn is_retried(
    failure: Failure,
    retries: u32,
    since_first_try: Duration,
    target_duration: Duration,
) -> bool {
    match failure {
        Failure::Gone => false,
        Failure::NotFound(_) => retries < NOT_FOUND_RETRIES,
        Failure::Transient(_) => since_first_try.nanos + SEGMENT_RETRY_STEP_SECS * NANOS_PER_SEC
            <= clamped(target_duration).nanos,
    }
}

/// The fetch task's rule for a failed segment: a 410 is skipped at once; a 404 is retried
/// [`NOT_FOUND_RETRIES`] times and skipped after that; any other failure is retried while the
/// next try still falls within one target duration of the first. The target duration is
/// bounded, so the window is at most 30 s whatever the playlist says.
pub fn after_failure(
    failure: &Failure,
    retries: u32,
    since_first_try: Duration,
    target_duration: Duration,
) -> (r: AfterFailure)
    ensures
        r == if is_retried(*failure, retries, since_first_try, target_duration) {
            AfterFailure::Retry
        } else {
            AfterFailure::Skip
        },
{
    let retry = match failure {
        Failure::Gone => false,
        Failure::NotFound(_) => retries < NOT_FOUND_RETRIES,
        Failure::Transient(_) => {
            let step = Duration::from_secs(SEGMENT_RETRY_STEP_SECS);
            let window = bounded_target_duration(target_duration);
            step.nanos <= window.nanos && since_first_try.nanos <= window.nanos - step.nanos
        },
    };
    if retry {
        AfterFailure::Retry
    } else {
        AfterFailure::Skip
    }
}

/// No failure is retried once thirty seconds have passed since the first try, but for a 404 that
/// has tries left, and a 404 is retried at most twice.
pub proof fn retries_are_bounded(
    failure: Failure,
    retries: u32,
    since_first_try: Duration,
    target_duration: Duration,
)
    ensures
        is_retried(failure, retries, since_first_try, target_duration) ==> match failure {
            Failure::Gone => false,
            Failure::NotFound(_) => retries < 2,
            Failure::Transient(_) => since_first_try.nanos < 30 * NANOS_PER_SEC,
        },
{
}

// ---------------------------------------------------------------------------------------------
// What the rules come to

/// A target duration as it is believed, in nanoseconds: no less than a second and no more than
/// thirty.
pub open spec fn believed(target_duration: Duration) -> int {
    if target_duration.nanos < 1_000_000_000 {
        1_000_000_000
    } else if target_duration.nanos > 30_000_000_000 {
        30_000_000_000
    } else {
        target_duration.nanos as int
    }
}

/// A segment may take twice the target duration, as it is believed, and ten seconds at least; the
/// idle timeout allows for a window that stands still for three of them, one such fetch, and five
/// seconds more.
pub proof fn the_timeouts_follow_the_target_duration(target_duration: Duration)
    ensures
        segment_limit(target_duration).nanos == (if 2 * believed(target_duration)
            > 10_000_000_000 {
            2 * believed(target_duration)
        } else {
            10_000_000_000
        }),
        stall_limit(target_duration).nanos == 3 * believed(target_duration),
        retry_limit(target_duration).nanos == 3 * believed(target_duration) + segment_limit(
            target_duration,
        ).nanos + 5_000_000_000,
{
}

/// Which failures of a segment are tried again: a 410 never, a 404 for the first two times, and
/// anything else exactly while the next try, a second later, is still within one target duration of
/// the first.
pub proof fn when_a_segment_is_tried_again(
    failure: Failure,
    retries: u32,
    since_first_try: Duration,
    target_duration: Duration,
)
    ensures
        is_retried(failure, retries, since_first_try, target_duration) <==> match failure {
            Failure::Gone => false,
            Failure::NotFound(_) => retries == 0 || retries == 1,
            Failure::Transient(_) => since_first_try.nanos + 1_000_000_000 <= believed(
                target_duration,
            ),
        },
{
}

/// A content type names HLS by what stands before its parameters, whatever white space is around
/// that and whatever the case of its letters.
pub proof fn a_content_type_is_read_without_its_parameters(
    pre: Seq<char>,
    name: Seq<char>,
    post: Seq<char>,
    parameters: Seq<char>,
)
    requires
        forall|i: int| 0 <= i < pre.len() ==> text::white(#[trigger] pre[i]),
        forall|i: int| 0 <= i < post.len() ==> text::white(#[trigger] post[i]),
        name.len() > 0 ==> !text::white(name[0]) && !text::white(name.last()),
        forall|i: int| 0 <= i < name.len() ==> #[trigger] name[i] != ';',
    ensures
        bare_type(pre + name + post) == lowered(name),
        bare_type((pre + name + post).push(';') + parameters) == lowered(name),
        names_hls((pre + name + post).push(';') + parameters) == names_hls(pre + name + post),
        names_hls(pre + name + post) <==> (lowered(name) == "application/vnd.apple.mpegurl"@
            || lowered(name) == "application/x-mpegurl"@ || lowered(name) == "audio/mpegurl"@
            || lowered(name) == "audio/x-mpegurl"@),
{
    let s = pre + name + post;
    let n = s.len() as int;
    assert forall|i: int| 0 <= i < n implies s[i] != ';' by {
        if i < pre.len() {
            assert(white_is_no_semicolon(pre[i]));
        } else if i < pre.len() + name.len() {
            assert(s[i] == name[i - pre.len()]);
        } else {
            assert(s[i] == post[i - pre.len() - name.len()]);
            assert(white_is_no_semicolon(post[i - pre.len() - name.len()]));
        }
    }
    text::trimming_takes_the_white_off(pre, name, post);
    text::first_at_unique(s, ';', n);
    assert(pieces(s, ';')[0] == s);
    let long = s.push(';') + parameters;
    assert forall|i: int| 0 <= i < n implies long[i] != ';' by {
        assert(long[i] == s[i]);
    }
    assert(long[n] == ';');
    text::first_at_unique(long, ';', n);
    assert(long.take(n) =~= s);
    assert(pieces(long, ';')[0] == s);
}

spec fn white_is_no_semicolon(c: char) -> bool {
    text::white(c) ==> c != ';'
}

/// What a refusal and a failure mean: what can never be played is not tried again, what failed on
/// the way is; and an answer with a status is one of HTTP, tried again unless the status is final.
pub proof fn errors_are_told_apart(
    kind: Kind,
    url: Seq<char>,
    message: Seq<char>,
    chain: Seq<Seq<char>>,
    status: u16,
    status_text: Seq<char>,
    header: Option<Seq<char>>,
)
    ensures
        unsupported_error(message).terminal && unsupported_error(message).code
            == ErrorCode::UnsupportedFormat && unsupported_error(message).message == message,
        !network_error(message).terminal && network_error(message).code == ErrorCode::Network
            && network_error(message).message == message,
        !request_error(kind, url, chain, None).terminal && request_error(kind, url, chain, None).code
            == ErrorCode::Network,
        request_error(kind, url, chain, Some(status)).code == ErrorCode::Http,
        request_error(kind, url, chain, Some(status)).terminal <==> (status == 401 || status == 403
            || status == 404 || status == 410),
        answer_error(kind, url, status, status_text, header).code == ErrorCode::Http,
        answer_error(kind, url, status, status_text, header).terminal <==> (status == 401 || status
            == 403 || status == 404 || status == 410),
        answer_error(kind, url, status, status_text, header).retry_after == retry_wait(header),
{
}

/// There is something to note of a segment exactly when the walk changed, dropped or lost something;
/// what is noted names the segment.
pub proof fn what_is_noted_of_a_segment(seq: u64, n: Normalised)
    ensures
        walk_note(seq, n) is None <==> n.rewritten == 0 && n.crc_dropped == 0 && n.partial_dropped
            == 0 && n.sync_lost is None,
        walk_note(seq, n) is Some ==> text::holds(walk_note(seq, n)->0, digits(seq as nat)),
{
    if walk_note(seq, n) is Some {
        let t = walk_note(seq, n)->0;
        let d = digits(seq as nat);
        let h = "hls segment seq="@.len() as int;
        assert(t.subrange(h, h + d.len()) =~= d);
        assert(text::stands_at(t, d, h));
    }
}

/// The cause of a failure is its status, or the words that it came with.
pub proof fn a_failure_is_told_by_its_cause(status: u16, message: String)
    ensures
        failure_text(Failure::Transient(message)) == message@,
        text::holds(failure_text(Failure::NotFound(status)), digits(status as nat)),
{
    let t = failure_text(Failure::NotFound(status));
    let d = digits(status as nat);
    let h = "HTTP "@.len() as int;
    assert(t.subrange(h, h + d.len()) =~= d);
    assert(text::stands_at(t, d, h));
}

} // verus!
