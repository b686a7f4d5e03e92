//! The audio engine: what the engine thread, the decode threads and the handle share, and what
//! each of them decides.
//!
//! * The **engine thread** owns the output device. It receives commands, and on a short interval
//!   supervises ring buffering (see [`Engine::tick`]); it never blocks on network or decoding.
//! * **One decode thread per session** opens the stream, probes it, decodes into the ring, and
//!   exits when its session is cancelled (see [`SessionRun`]). It only reports ring occupancy,
//!   because it can be blocked for many seconds inside a network read and must not be the sole
//!   thing detecting starvation.
//! * The **audio callback** pulls from the ring. Never blocks, never allocates.

use std::collections::VecDeque;

use vstd::prelude::*;

use crate::outside::parsed_url;
use crate::reconnect::{delay_before, Backoff, MAX_ATTEMPTS, STABLE_AFTER_SECS};
use crate::stream;
use crate::stream::{checked_url, StreamError, StreamFacts};
use crate::text;
use crate::text::digits;
use crate::time::{
    elapsed, longer, secs, shorter, Duration, Instant, NANOS_PER_MILLI, NANOS_PER_SEC,
};
use crate::types::{
    text_view, EngineEvent, ErrorCode, PlaybackState, ReconnectInfo, StateView, StreamInfo,
};

verus! {

/// How often the engine thread wakes up (absent a command) to run [`Engine::tick`].
pub const TICK_INTERVAL_MILLIS: u64 = 100;

/// A server's `Retry-After` lengthens the backoff's delay up to this; past it the session would
/// look dead to the listener.
pub const RETRY_AFTER_CAP_SECS: u64 = 30;

// ---------------------------------------------------------------------------------------------
// What the threads share

/// The engine's record of the live session. `generation` counts every session begun and every
/// session ended; a write that carries another generation is dropped, so that a stale decode
/// thread's `Playing` can neither overwrite the successor's state nor consume its `Started`.
#[derive(Debug, Clone, PartialEq, Eq)]
pub struct Session {
    pub generation: u64,
    pub station_id: Option<String>,
    /// `Started` is emitted on the first `Playing` of a session, whatever route led there, and
    /// never again until the next play.
    pub started: bool,
}

/// State shared between the engine thread, decode threads, and the public handle. Each call is
/// one critical section.
#[derive(Debug, Clone, PartialEq, Eq)]
pub struct Shared {
    pub state: PlaybackState,
    /// Events not yet delivered, oldest first.
    pub events: Vec<EngineEvent>,
    pub paused: bool,
    pub session: Session,
}

pub struct InfoView {
    pub content_type: Option<Seq<char>>,
    pub bitrate_kbps: Option<u32>,
    pub station_name: Option<Seq<char>>,
    pub sample_rate: u32,
    pub channels: u16,
}

pub enum EventView {
    State(StateView),
    Started(Seq<char>),
    StreamInfo(InfoView),
    Metadata(Option<Seq<char>>),
    Reconnect(u64),
}

impl View for EngineEvent {
    type V = EventView;

    open spec fn view(&self) -> EventView {
        match self {
            EngineEvent::State(s) => EventView::State(s@),
            EngineEvent::Started { station_id } => EventView::Started(station_id@),
            EngineEvent::StreamInfo(i) => EventView::StreamInfo(
                InfoView {
                    content_type: text_view(i.content_type),
                    bitrate_kbps: i.bitrate_kbps,
                    station_name: text_view(i.station_name),
                    sample_rate: i.sample_rate,
                    channels: i.channels,
                },
            ),
            EngineEvent::Metadata(m) => EventView::Metadata(text_view(m.title)),
            EngineEvent::Reconnect(r) => EventView::Reconnect(r.count),
        }
    }
}

pub open spec fn event_views(v: Seq<EngineEvent>) -> Seq<EventView> {
    v.map_values(|e: EngineEvent| e@)
}

pub struct SharedView {
    pub state: StateView,
    pub events: Seq<EventView>,
    pub paused: bool,
    pub generation: u64,
    pub station_id: Option<Seq<char>>,
    pub started: bool,
}

impl View for Shared {
    type V = SharedView;

    open spec fn view(&self) -> SharedView {
        SharedView {
            state: self.state@,
            events: event_views(self.events@),
            paused: self.paused,
            generation: self.session.generation,
            station_id: text_view(self.session.station_id),
            started: self.session.started,
        }
    }
}

/// One state write. With `from`, the write belongs to a session and lands only while that
/// generation is the live one. A state that is not new changes nothing. `State(Playing)` stands
/// before `Started`, which comes once per session.
pub open spec fn written(s: SharedView, from: Option<u64>, state: StateView) -> SharedView {
    if (from matches Some(g) && g != s.generation) || s.state == state {
        s
    } else {
        let told = s.events.push(EventView::State(state));
        if state is Playing && !s.started {
            SharedView {
                state,
                started: true,
                events: told.push(
                    EventView::Started(
                        match s.station_id {
                            Some(id) => id,
                            None => Seq::empty(),
                        },
                    ),
                ),
                ..s
            }
        } else {
            SharedView { state, events: told, ..s }
        }
    }
}

/// A session begun for a station.
pub open spec fn begun(s: SharedView, station_id: Seq<char>) -> SharedView {
    SharedView {
        generation: (s.generation + 1) as u64,
        station_id: Some(station_id),
        started: false,
        ..s
    }
}

/// The session of `generation` ended: nothing, when it is not the live one.
pub open spec fn ended(s: SharedView, generation: u64) -> SharedView {
    if s.generation == generation {
        SharedView { generation: (s.generation + 1) as u64, ..s }
    } else {
        s
    }
}

impl Shared {
    pub fn new() -> (s: Shared)
        ensures
            s@ == (SharedView {
                state: StateView::Idle,
                events: Seq::empty(),
                paused: false,
                generation: 0,
                station_id: None,
                started: false,
            }),
    {
        let s = Shared {
            state: PlaybackState::Idle,
            events: Vec::new(),
            paused: false,
            session: Session { generation: 0, station_id: None, started: false },
        };
        assert(event_views(s.events@) =~= Seq::empty());
        s
    }

    /// A new session, on a play: the id `Started` will carry, the flag down, and a fresh
    /// generation, which is returned. A write from an earlier session carries an old generation
    /// and is dropped, however late it lands.
    pub fn begin_session(&mut self, station_id: String) -> (generation: u64)
        requires
            old(self).session.generation < u64::MAX,
        ensures
            final(self)@ == begun(old(self)@, station_id@),
            generation == final(self)@.generation,
    {
        self.session.generation = self.session.generation + 1;
        self.session.station_id = Some(station_id);
        self.session.started = false;
        self.session.generation
    }

    /// The session `generation` is over: its writes are dropped from here on, even before a
    /// successor begins. A generation that is already not the live one changes nothing.
    pub fn end_session(&mut self, generation: u64)
        requires
            old(self).session.generation < u64::MAX,
        ensures
            final(self)@ == ended(old(self)@, generation),
    {
        if self.session.generation == generation {
            self.session.generation = self.session.generation + 1;
        }
    }

    /// The engine thread's own state writes, never gated on a session.
    pub fn set_state(&mut self, s: PlaybackState)
        ensures
            final(self)@ == written(old(self)@, None, s@),
            old(self).events@.is_prefix_of(final(self).events@),
    {
        self.write_state(None, s);
    }

    /// One state write; see [`written`].
    pub fn write_state(&mut self, from: Option<u64>, s: PlaybackState)
        ensures
            final(self)@ == written(old(self)@, from, s@),
            old(self).events@.is_prefix_of(final(self).events@),
    {
        if let Some(generation) = from {
            if generation != self.session.generation {
                return;
            }
        }
        if self.state.same(&s) {
            return;
        }
        let playing = match s {
            PlaybackState::Playing => true,
            _ => false,
        };
        let ghost before = self.events@;
        let told = s.clone();
        self.events.push(EngineEvent::State(told));
        assert(event_views(self.events@) =~= event_views(before).push(EventView::State(s@)));
        self.state = s;
        if playing && !self.session.started {
            self.session.started = true;
            let station_id = match &self.session.station_id {
                Some(id) => id.clone(),
                None => String::new(),
            };
            let ghost before = self.events@;
            let ghost id = station_id@;
            self.events.push(EngineEvent::Started { station_id });
            assert(event_views(self.events@) =~= event_views(before).push(EventView::Started(id)));
        }
    }

    pub fn state(&self) -> (s: PlaybackState)
        ensures
            s@ == self@.state,
    {
        self.state.clone()
    }

    /// Tells the outside world.
    pub fn emit(&mut self, ev: EngineEvent)
        ensures
            final(self)@ == (SharedView { events: old(self)@.events.push(ev@), ..old(self)@ }),
            final(self).events@ == old(self).events@.push(ev),
    {
        let ghost before = self.events@;
        self.events.push(ev);
        assert(event_views(self.events@) =~= event_views(before).push(ev@));
    }
}

/// What a session may do to what is shared: begin one, end one, or write a state.
pub enum SharedOp {
    Begin(Seq<char>),
    End(u64),
    Write(Option<u64>, StateView),
}

pub open spec fn applied(s: SharedView, op: SharedOp) -> SharedView {
    match op {
        SharedOp::Begin(id) => begun(s, id),
        SharedOp::End(g) => ended(s, g),
        SharedOp::Write(from, state) => written(s, from, state),
    }
}

pub open spec fn all_applied(s: SharedView, ops: Seq<SharedOp>) -> SharedView
    decreases ops.len(),
{
    if ops.len() == 0 {
        s
    } else {
        applied(all_applied(s, ops.drop_last()), ops.last())
    }
}

/// How many of the events say that a session started.
pub open spec fn starts(events: Seq<EventView>) -> nat
    decreases events.len(),
{
    if events.len() == 0 {
        0
    } else {
        starts(events.drop_last()) + (if events.last() is Started {
            1nat
        } else {
            0nat
        })
    }
}

proof fn starts_push(events: Seq<EventView>, e: EventView)
    ensures
        starts(events.push(e)) == starts(events) + (if e is Started {
            1nat
        } else {
            0nat
        }),
{
    assert(events.push(e).drop_last() =~= events);
}

/// Whatever is written and however a session is ended, a session starts once at most: the number
/// of `Started` events grows exactly when the session's flag goes up, and the flag stays up.
pub proof fn a_session_starts_once(s: SharedView, ops: Seq<SharedOp>)
    requires
        forall|i: int| 0 <= i < ops.len() ==> !((#[trigger] ops[i]) is Begin),
    ensures
        s.started ==> all_applied(s, ops).started,
        starts(all_applied(s, ops).events) == starts(s.events) + (if all_applied(s, ops).started
            && !s.started {
            1nat
        } else {
            0nat
        }),
        all_applied(s, ops).station_id == s.station_id,
    decreases ops.len(),
{
    if ops.len() > 0 {
        let before = ops.drop_last();
        assert forall|i: int| 0 <= i < before.len() implies !((#[trigger] before[i]) is Begin) by {
            assert(before[i] == ops[i]);
        }
        a_session_starts_once(s, before);
        let mid = all_applied(s, before);
        assert(!(ops[ops.len() - 1] is Begin));
        if let SharedOp::Write(from, state) = ops.last() {
            starts_push(mid.events, EventView::State(state));
            let told = mid.events.push(EventView::State(state));
            starts_push(
                told,
                EventView::Started(
                    match mid.station_id {
                        Some(id) => id,
                        None => Seq::empty(),
                    },
                ),
            );
        }
    }
}

/// A write from a session that is not the live one changes nothing: not the state, not the
/// events, not the flag of its successor.
pub proof fn a_stale_write_is_dropped(s: SharedView, generation: u64, state: StateView)
    requires
        generation != s.generation,
    ensures
        written(s, Some(generation), state) == s,
{
}

/// From the moment a session ends, or another begins, its generation is not the live one, and no
/// later session takes it again.
pub proof fn an_old_generation_stays_old(s: SharedView, ops: Seq<SharedOp>)
    requires
        s.generation + ops.len() <= u64::MAX,
    ensures
        s.generation <= all_applied(s, ops).generation <= s.generation + ops.len(),
        s.generation < u64::MAX ==> ended(s, s.generation).generation > s.generation,
        s.generation < u64::MAX ==> forall|id: Seq<char>|
            (#[trigger] begun(s, id)).generation > s.generation,
    decreases ops.len(),
{
    if ops.len() > 0 {
        an_old_generation_stays_old(s, ops.drop_last());
    }
}

// ---------------------------------------------------------------------------------------------
// The decision of a tick

/// Resume once the ring is at least this fraction full (3/4 = 75%).
pub const RESUME_FILL_NUM: usize = 3;

pub const RESUME_FILL_DEN: usize = 4;

/// Ticks the ring must stay refilled with no new underrun before resuming (1.0 s).
pub const DWELL_TICKS: u32 = 10;

/// Longer dwell applied once a connection has shown [`UNDERRUN_PANIC_COUNT`] or more underruns
/// recently (4.0 s): an unstable connection gets more time to prove itself before resuming.
pub const DWELL_TICKS_UNSTABLE: u32 = 40;

/// Window (in ticks; 30 s) over which underrun events count toward the longer dwell.
pub const UNDERRUN_WINDOW_TICKS: u32 = 300;

pub const UNDERRUN_PANIC_COUNT: u32 = 3;

/// The least time without progress after which the watchdog acts.
pub const WATCHDOG_FLOOR_SECS: u64 = 15;

/// The ring is full enough to resume.
pub open spec fn refilled(fill: usize, capacity: usize) -> bool {
    fill * RESUME_FILL_DEN >= capacity * RESUME_FILL_NUM
}

pub fn is_refilled(fill: usize, capacity: usize) -> (r: bool)
    ensures
        r == refilled(fill, capacity),
{
    let fill: u128 = fill as u128;
    let capacity: u128 = capacity as u128;
    assert(fill <= u64::MAX && capacity <= u64::MAX);
    assert(RESUME_FILL_DEN as u128 == 4 && RESUME_FILL_NUM as u128 == 3);
    fill * RESUME_FILL_DEN as u128 >= capacity * RESUME_FILL_NUM as u128
}

/// The ticks that the watchdog waits for a retry timeout.
pub open spec fn watchdog_limit(retry_timeout: Duration) -> u32 {
    (longer(
        Duration { nanos: (retry_timeout.nanos * 3) as u128 },
        secs(WATCHDOG_FLOOR_SECS as nat),
    ).nanos / NANOS_PER_MILLI / TICK_INTERVAL_MILLIS as u128) as u32
}

/// How long buffering may run with no decode progress before the session is failed and handed to
/// the backoff. Derived from the retry timeout rather than fixed, because that can be set: the
/// bound to clear is the longest *legitimate* interval without progress, in which bytes stop,
/// the download layer's idle reconnect fires, and the new connection delivers. Three times that,
/// and at least 15 s.
pub fn watchdog_ticks(retry_timeout: Duration) -> (n: u32)
    requires
        retry_timeout.nanos * 3 <= u128::MAX,
    ensures
        n == watchdog_limit(retry_timeout),
{
    let base = retry_timeout.times(3).longer(Duration::from_secs(WATCHDOG_FLOOR_SECS));
    (base.as_millis() / TICK_INTERVAL_MILLIS as u128) as u32
}

/// The watchdog waits at least three times the retry timeout, and at least 15 s, for every retry
/// timeout up to a year.
pub proof fn the_watchdog_outwaits_a_reconnect(retry_timeout: Duration)
    requires
        retry_timeout.nanos <= 365 * 86_400 * NANOS_PER_SEC,
    ensures
        watchdog_limit(retry_timeout) * TICK_INTERVAL_MILLIS * NANOS_PER_MILLI + TICK_INTERVAL_MILLIS
            * NANOS_PER_MILLI > 3 * retry_timeout.nanos,
        watchdog_limit(retry_timeout) >= 150,
{
    let base = longer(
        Duration { nanos: (retry_timeout.nanos * 3) as u128 },
        secs(WATCHDOG_FLOOR_SECS as nat),
    ).nanos;
    assert(base / 1_000_000 / 100 == base / 100_000_000);
}

/// Progress bookkeeping for the watchdog.
pub fn advance_progress(last_pushed: &mut u64, ticks_since_progress: &mut u32, pushed: u64)
    ensures
        *final(last_pushed) == pushed,
        *final(ticks_since_progress) == ticks_without(
            *old(last_pushed),
            *old(ticks_since_progress),
            pushed,
        ),
{
    if pushed != *last_pushed {
        *last_pushed = pushed;
        *ticks_since_progress = 0;
    } else {
        *ticks_since_progress = ticks_since_progress.saturating_add(1);
    }
}

/// The ticks since the count of pushed samples last moved.
pub open spec fn ticks_without(last_pushed: u64, ticks: u32, pushed: u64) -> u32 {
    if pushed != last_pushed {
        0
    } else if ticks < u32::MAX {
        (ticks + 1) as u32
    } else {
        ticks
    }
}

/// The dwell for so many recent underruns.
pub open spec fn dwell_for(recent_underruns: u32) -> u32 {
    if recent_underruns >= UNDERRUN_PANIC_COUNT {
        DWELL_TICKS_UNSTABLE
    } else {
        DWELL_TICKS
    }
}

/// How long a connection with this many recent underruns must dwell before resuming. Selected
/// once, on entry to `Buffering`, and latched; see [`dwell_for_tick`].
pub fn select_dwell(recent_underruns: u32) -> (d: u32)
    ensures
        d == dwell_for(recent_underruns),
{
    if recent_underruns >= UNDERRUN_PANIC_COUNT {
        DWELL_TICKS_UNSTABLE
    } else {
        DWELL_TICKS
    }
}

/// The latch and the dwell of a tick.
pub open spec fn latched_dwell(latched: Option<u32>, is_buffering: bool, recent: u32) -> (
    Option<u32>,
    u32,
) {
    if !is_buffering {
        (None, dwell_for(recent))
    } else {
        match latched {
            Some(d) => (latched, d),
            None => (Some(dwell_for(recent)), dwell_for(recent)),
        }
    }
}

/// The dwell latch: the dwell to apply this tick, updating `latched`. The recent underruns are
/// counted anew every tick over a rolling window; without the latch, an underrun ageing out of
/// the window midway through a wait would shorten the wait.
pub fn dwell_for_tick(latched: &mut Option<u32>, is_buffering: bool, recent_underruns: u32) -> (d:
    u32)
    ensures
        (*final(latched), d) == latched_dwell(*old(latched), is_buffering, recent_underruns),
{
    if !is_buffering {
        *latched = None;
        return select_dwell(recent_underruns);
    }
    match *latched {
        Some(d) => d,
        None => {
            let d: u32 = select_dwell(recent_underruns);
            *latched = Some(d);
            d
        },
    }
}

/// The dwells applied over a run of ticks, all of them buffering, with these recent underruns.
pub open spec fn dwells(latched: Option<u32>, recents: Seq<u32>) -> Seq<u32>
    decreases recents.len(),
{
    if recents.len() == 0 {
        Seq::empty()
    } else {
        let (next, d) = latched_dwell(latched, true, recents[0]);
        seq![d] + dwells(next, recents.skip(1))
    }
}

/// A wait keeps the dwell it began with, however the count of recent underruns moves while it
/// lasts.
pub proof fn a_dwell_is_kept_for_the_wait(latched: Option<u32>, recents: Seq<u32>)
    requires
        recents.len() > 0,
    ensures
        dwells(latched, recents).len() == recents.len(),
        forall|i: int|
            0 <= i < recents.len() ==> #[trigger] dwells(latched, recents)[i] == (match latched {
                Some(d) => d,
                None => dwell_for(recents[0]),
            }),
    decreases recents.len(),
{
    let (next, d) = latched_dwell(latched, true, recents[0]);
    let rest = recents.skip(1);
    if rest.len() > 0 {
        a_dwell_is_kept_for_the_wait(next, rest);
    } else {
        assert(dwells(next, rest).len() == 0);
    }
    assert forall|i: int| 0 <= i < recents.len() implies #[trigger] dwells(latched, recents)[i]
        == d by {
        if i > 0 {
            assert(dwells(latched, recents)[i] == dwells(next, rest)[i - 1]);
        }
    }
}

/// What a tick does to the output.
#[derive(Debug, Clone, Copy, PartialEq, Eq, Structural)]
pub enum Transition {
    PauseAndBuffer,
    ResumePlaying,
    ResumePaused,
    /// Buffering has lasted too long with no decode progress. Fail the session so that the
    /// backoff and a fresh open can recover it.
    FailSession,
}

#[derive(Debug, Clone, Copy, PartialEq, Eq, Structural)]
pub struct TickOutcome {
    pub transition: Option<Transition>,
    pub reset_backoff: bool,
}

/// What a tick is decided from, besides the state.
#[derive(Debug, Clone, Copy, PartialEq, Eq, Structural)]
pub struct TickInputs {
    /// The ring's underrun count advanced since the previous tick.
    pub new_underrun: bool,
    pub fill: usize,
    pub capacity: usize,
    pub user_paused: bool,
    pub stable: bool,
    /// Consecutive good ticks.
    pub ready_ticks: u32,
    /// Latched on entry to `Buffering` by [`dwell_for_tick`].
    pub dwell: u32,
    /// Consecutive ticks in which no sample was pushed.
    pub ticks_since_progress: u32,
    /// Threshold for the above; see [`watchdog_ticks`].
    pub watchdog_ticks: u32,
}

impl Default for TickInputs {
    fn default() -> (i: TickInputs)
        ensures
            i == (TickInputs {
                new_underrun: false,
                fill: 0,
                capacity: 0,
                user_paused: false,
                stable: false,
                ready_ticks: 0,
                dwell: 0,
                ticks_since_progress: 0,
                watchdog_ticks: 0,
            }),
    {
        TickInputs {
            new_underrun: false,
            fill: 0,
            capacity: 0,
            user_paused: false,
            stable: false,
            ready_ticks: 0,
            dwell: 0,
            ticks_since_progress: 0,
            watchdog_ticks: 0,
        }
    }
}

/// The transition of a tick. Outside `Buffering`, an underrun pauses the output, unless the
/// listener has paused it already. In `Buffering`, the watchdog comes first, and not while the
/// listener has paused; the output resumes once the ring has stayed refilled for the dwell.
pub open spec fn decision(state: StateView, i: TickInputs) -> Option<Transition> {
    if !(state is Buffering) {
        if i.new_underrun && !i.user_paused {
            Some(Transition::PauseAndBuffer)
        } else {
            None
        }
    } else if !i.user_paused && i.ticks_since_progress >= i.watchdog_ticks {
        Some(Transition::FailSession)
    } else if refilled(i.fill, i.capacity) && !i.new_underrun && i.ready_ticks >= i.dwell {
        Some(
            if i.user_paused {
                Transition::ResumePaused
            } else {
                Transition::ResumePlaying
            },
        )
    } else {
        None
    }
}

/// Decides a tick. `state` is the state observed at the start of the tick.
///
/// Pause and resume can never be emitted in the same tick: once a fresh underrun is seen while
/// not already `Buffering`, this returns `PauseAndBuffer`, even if the ring looks fully refilled
/// by the time this tick runs.
pub fn decide_tick(state: &PlaybackState, inputs: TickInputs) -> (out: TickOutcome)
    ensures
        out.transition == decision(state@, inputs),
        out.reset_backoff == inputs.stable,
{
    let buffering = match state {
        PlaybackState::Buffering => true,
        _ => false,
    };
    let reset_backoff = inputs.stable;
    if !buffering {
        // User-paused: the callback isn't pulling, so nothing is starving in any sense the
        // listener cares about. Refill silently, stay paused.
        let transition = if inputs.new_underrun && !inputs.user_paused {
            Some(Transition::PauseAndBuffer)
        } else {
            None
        };
        return TickOutcome { transition, reset_backoff };
    }
    // The watchdog is exempt while user-paused: a paused session stops pulling, the ring fills,
    // and the decode thread parks on a full ring, so "no bytes arriving" is normal there and a
    // pause is unbounded in length.
    if !inputs.user_paused && inputs.ticks_since_progress >= inputs.watchdog_ticks {
        return TickOutcome { transition: Some(Transition::FailSession), reset_backoff };
    }
    let transition = if is_refilled(inputs.fill, inputs.capacity) && !inputs.new_underrun
        && inputs.ready_ticks >= inputs.dwell {
        Some(
            if inputs.user_paused {
                Transition::ResumePaused
            } else {
                Transition::ResumePlaying
            },
        )
    } else {
        None
    };
    TickOutcome { transition, reset_backoff }
}

/// The output is paused only outside `Buffering` and resumed only inside it, so never both in one
/// tick; a fresh underrun never resumes; and while the listener has paused, the output neither
/// plays, nor is paused again, nor is the session failed.
pub proof fn pause_and_resume_exclude_each_other(state: StateView, i: TickInputs)
    ensures
        decision(state, i) == Some(Transition::PauseAndBuffer) ==> !(state is Buffering),
        decision(state, i) == Some(Transition::ResumePlaying) ==> state is Buffering,
        decision(state, i) == Some(Transition::ResumePaused) ==> state is Buffering,
        decision(state, i) == Some(Transition::FailSession) ==> state is Buffering,
        i.new_underrun ==> decision(state, i) != Some(Transition::ResumePlaying) && decision(
            state,
            i,
        ) != Some(Transition::ResumePaused),
        i.user_paused ==> decision(state, i) is None || decision(state, i) == Some(
            Transition::ResumePaused,
        ),
{
}

// ---------------------------------------------------------------------------------------------
// The tick

/// What the engine thread reads of the live session at a tick.
#[derive(Debug, Clone, Copy, PartialEq, Eq, Structural)]
pub struct SessionSeen {
    /// How often the download layer has reconnected on its own in this session.
    pub reconnect_count: u64,
    /// The ring, while one is attached.
    pub ring: Option<RingSeen>,
}

/// What the engine thread reads of the attached ring at a tick.
#[derive(Debug, Clone, Copy, PartialEq, Eq, Structural)]
pub struct RingSeen {
    /// Tells one ring from another: no two rings share a number.
    pub id: u64,
    pub underruns: u64,
    pub fill: usize,
    pub capacity: usize,
    pub pushed: u64,
}

/// What the caller does to the device, the download and the backoff after a tick.
#[derive(Debug, Clone, Copy, PartialEq, Eq, Structural)]
pub struct TickActions {
    pub pause_output: bool,
    pub play_output: bool,
    /// Cancel the session's download, in place: the token stays, for a stop to use.
    pub cancel_download: bool,
    pub reset_backoff: bool,
}

/// The engine thread's own bookkeeping.
#[derive(Debug, Clone, PartialEq, Eq)]
pub struct Engine {
    /// The generation of the live session.
    pub session: Option<u64>,
    /// When the current session last went into `Playing`, as observed by a tick. Drives the
    /// rule "reset the backoff after continuous playback".
    pub playing_since: Option<Instant>,
    /// The last tick saw `Playing`.
    pub was_playing: bool,
    /// The ring that is tracked. Another one means a fresh ring was just attached (first connect
    /// or a reconnect): a stale ring's counts must never leak into a new one's.
    pub current_ring: Option<u64>,
    /// The ring's underruns as of the last tick.
    pub last_underruns: u64,
    /// Consecutive ticks with the ring refilled past the threshold and no new underrun.
    pub ready_ticks: u32,
    /// The dwell chosen when the current wait began. `None` outside `Buffering`.
    pub latched_dwell: Option<u32>,
    /// The ring's pushed samples as of the last tick, and for how many ticks they have not
    /// advanced.
    pub last_pushed: u64,
    pub ticks_since_progress: u32,
    /// The watchdog's threshold; see [`watchdog_ticks`].
    pub watchdog_ticks: u32,
    /// Counts the ticks that saw a ring.
    pub tick_index: u64,
    /// The tick of each underrun event still within the window, oldest first.
    pub underrun_ticks: VecDeque<u64>,
    /// The session whose reconnects are tracked.
    pub current_session: Option<u64>,
    /// Its reconnect count as of the last tick.
    pub last_reconnect_count: u64,
}

pub struct EngineView {
    pub session: Option<u64>,
    pub playing_since: Option<Instant>,
    pub was_playing: bool,
    pub current_ring: Option<u64>,
    pub last_underruns: u64,
    pub ready_ticks: u32,
    pub latched_dwell: Option<u32>,
    pub last_pushed: u64,
    pub ticks_since_progress: u32,
    pub watchdog_ticks: u32,
    pub tick_index: u64,
    pub underrun_ticks: Seq<u64>,
    pub current_session: Option<u64>,
    pub last_reconnect_count: u64,
}

impl View for Engine {
    type V = EngineView;

    open spec fn view(&self) -> EngineView {
        EngineView {
            session: self.session,
            playing_since: self.playing_since,
            was_playing: self.was_playing,
            current_ring: self.current_ring,
            last_underruns: self.last_underruns,
            ready_ticks: self.ready_ticks,
            latched_dwell: self.latched_dwell,
            last_pushed: self.last_pushed,
            ticks_since_progress: self.ticks_since_progress,
            watchdog_ticks: self.watchdog_ticks,
            tick_index: self.tick_index,
            underrun_ticks: self.underrun_ticks@,
            current_session: self.current_session,
            last_reconnect_count: self.last_reconnect_count,
        }
    }
}

/// No underrun is noted in the future, and each once.
pub open spec fn ticks_in_order(ticks: Seq<u64>, now: u64) -> bool {
    &&& forall|i: int| 0 <= i < ticks.len() ==> #[trigger] ticks[i] <= now
    &&& forall|i: int, j: int| 0 <= i < j < ticks.len() ==> #[trigger] ticks[i] < #[trigger] ticks[j]
}

/// What holds of every engine.
pub open spec fn engine_ok(e: EngineView) -> bool {
    &&& ticks_in_order(e.underrun_ticks, e.tick_index)
    &&& e.latched_dwell matches Some(d) ==> d == DWELL_TICKS || d == DWELL_TICKS_UNSTABLE
}

/// The underruns that are still within the window.
pub open spec fn in_window(ticks: Seq<u64>, now: u64) -> Seq<u64>
    decreases ticks.len(),
{
    if ticks.len() > 0 && now - ticks[0] >= UNDERRUN_WINDOW_TICKS {
        in_window(ticks.skip(1), now)
    } else {
        ticks
    }
}

/// Since when the session plays, after a tick that sees `state`.
pub open spec fn since_when(e: EngineView, state: StateView, now: Instant) -> Option<Instant> {
    if !(state is Playing) {
        None
    } else if !e.was_playing {
        Some(now)
    } else {
        e.playing_since
    }
}

/// The engine and what is shared, after the reconnects of the live session were looked at. A
/// session that was not tracked before sets the count to start from; a count that moved is
/// told.
pub open spec fn reconnects_seen(e: EngineView, s: SharedView, generation: u64, count: u64) -> (
    EngineView,
    SharedView,
) {
    if e.current_session != Some(generation) {
        (EngineView { current_session: Some(generation), last_reconnect_count: count, ..e }, s)
    } else if count != e.last_reconnect_count {
        (
            EngineView { last_reconnect_count: count, ..e },
            SharedView { events: s.events.push(EventView::Reconnect(count)), ..s },
        )
    } else {
        (e, s)
    }
}

/// The engine with its books on the ring `r`: begun anew when the ring is another one.
pub open spec fn on_ring(e: EngineView, r: RingSeen) -> EngineView {
    if e.current_ring == Some(r.id) {
        e
    } else {
        EngineView {
            current_ring: Some(r.id),
            last_underruns: r.underruns,
            ready_ticks: 0,
            latched_dwell: None,
            last_pushed: r.pushed,
            ticks_since_progress: 0,
            underrun_ticks: Seq::empty(),
            ..e
        }
    }
}

/// The listener's session has played for long enough that the next drop is a new incident.
pub open spec fn is_stable(playing_since: Option<Instant>, now: Instant) -> bool {
    playing_since matches Some(t) && elapsed(t, now).nanos >= STABLE_AFTER_SECS * NANOS_PER_SEC
}

/// The books on the ring brought up to date, and what the tick is decided from.
pub open spec fn ring_seen(e: EngineView, r: RingSeen, buffering: bool, paused: bool, now: Instant)
    -> (EngineView, TickInputs) {
    let e = on_ring(EngineView { tick_index: (e.tick_index + 1) as u64, ..e }, r);
    let new_underrun = r.underruns > e.last_underruns;
    let ticks = in_window(
        if new_underrun {
            e.underrun_ticks.push(e.tick_index)
        } else {
            e.underrun_ticks
        },
        e.tick_index,
    );
    let ready_ticks = if refilled(r.fill, r.capacity) && !new_underrun {
        if e.ready_ticks < u32::MAX {
            (e.ready_ticks + 1) as u32
        } else {
            e.ready_ticks
        }
    } else {
        0
    };
    let ticks_since_progress = ticks_without(e.last_pushed, e.ticks_since_progress, r.pushed);
    let (latched, dwell) = latched_dwell(e.latched_dwell, buffering, ticks.len() as u32);
    (
        EngineView {
            last_underruns: r.underruns,
            underrun_ticks: ticks,
            ready_ticks,
            last_pushed: r.pushed,
            ticks_since_progress,
            latched_dwell: latched,
            ..e
        },
        TickInputs {
            new_underrun,
            fill: r.fill,
            capacity: r.capacity,
            user_paused: paused,
            stable: is_stable(e.playing_since, now),
            ready_ticks,
            dwell,
            ticks_since_progress,
            watchdog_ticks: e.watchdog_ticks,
        },
    )
}

/// The state that a transition of the session `generation` writes.
pub open spec fn transition_written(
    s: SharedView,
    generation: u64,
    t: Option<Transition>,
) -> SharedView {
    match t {
        Some(Transition::PauseAndBuffer) => written(s, Some(generation), StateView::Buffering),
        Some(Transition::ResumePlaying) => written(s, Some(generation), StateView::Playing),
        Some(Transition::ResumePaused) => written(s, Some(generation), StateView::Paused),
        _ => s,
    }
}

pub open spec fn no_actions() -> TickActions {
    TickActions {
        pause_output: false,
        play_output: false,
        cancel_download: false,
        reset_backoff: false,
    }
}

/// The engine, what is shared, and what the caller does, after a tick.
pub open spec fn ticked(e: EngineView, s: SharedView, seen: SessionSeen, now: Instant) -> (
    EngineView,
    SharedView,
    TickActions,
) {
    let e1 = EngineView {
        playing_since: since_when(e, s.state, now),
        was_playing: s.state is Playing,
        ..e
    };
    match e.session {
        None => (e1, s, no_actions()),
        Some(generation) => {
            let (e2, s2) = reconnects_seen(e1, s, generation, seen.reconnect_count);
            match seen.ring {
                None => (e2, s2, no_actions()),
                Some(r) => {
                    let (e3, inputs) = ring_seen(e2, r, s.state is Buffering, s.paused, now);
                    let t = decision(s.state, inputs);
                    (
                        EngineView {
                            ticks_since_progress: if t == Some(Transition::FailSession) {
                                0
                            } else {
                                e3.ticks_since_progress
                            },
                            ..e3
                        },
                        transition_written(s2, generation, t),
                        TickActions {
                            pause_output: t == Some(Transition::PauseAndBuffer),
                            play_output: t == Some(Transition::ResumePlaying),
                            cancel_download: t == Some(Transition::FailSession),
                            reset_backoff: inputs.stable,
                        },
                    )
                },
            }
        },
    }
}

/// The underruns within the window are no more than its ticks, so that their number fits.
pub proof fn recent_underruns_are_bounded(ticks: Seq<u64>, now: u64)
    requires
        ticks_in_order(ticks, now),
    ensures
        in_window(ticks, now).len() <= UNDERRUN_WINDOW_TICKS,
        ticks_in_order(in_window(ticks, now), now),
    decreases ticks.len(),
{
    if ticks.len() > 0 && now - ticks[0] >= UNDERRUN_WINDOW_TICKS {
        let rest = ticks.skip(1);
        assert forall|i: int| 0 <= i < rest.len() implies #[trigger] rest[i] <= now by {
            assert(rest[i] == ticks[i + 1]);
        }
        assert forall|i: int, j: int| 0 <= i < j < rest.len() implies #[trigger] rest[i]
            < #[trigger] rest[j] by {
            assert(rest[i] == ticks[i + 1] && rest[j] == ticks[j + 1]);
        }
        recent_underruns_are_bounded(rest, now);
    } else if ticks.len() > 0 {
        climbs(ticks, (ticks.len() - 1) as nat);
        assert(ticks[ticks.len() - 1] <= now);
    }
}

/// Numbers that go up go up by one at least.
proof fn climbs(s: Seq<u64>, n: nat)
    requires
        n < s.len(),
        forall|i: int, j: int| 0 <= i < j < s.len() ==> #[trigger] s[i] < #[trigger] s[j],
    ensures
        s[n as int] >= s[0] + n,
    decreases n,
{
    if n > 0 {
        climbs(s, (n - 1) as nat);
        assert(s[n - 1] < s[n as int]);
    }
}

/// Drops the underruns that have left the window.
pub fn prune(ticks: &mut VecDeque<u64>, now: u64)
    requires
        ticks_in_order(old(ticks)@, now),
    ensures
        ticks_in_order(final(ticks)@, now),
        final(ticks)@ == in_window(old(ticks)@, now),
{
    let ghost before = ticks@;
    while ticks.len() > 0 && now - ticks[0] >= UNDERRUN_WINDOW_TICKS as u64
        invariant
            ticks_in_order(ticks@, now),
            in_window(ticks@, now) == in_window(before, now),
        decreases ticks@.len(),
    {
        let ghost was = ticks@;
        let _ = ticks.pop_front();
        proof {
            assert(ticks@ =~= was.skip(1));
            assert forall|i: int| 0 <= i < ticks@.len() implies #[trigger] ticks@[i] <= now by {
                assert(ticks@[i] == was[i + 1]);
            }
            assert forall|i: int, j: int|
                0 <= i < j < ticks@.len() implies #[trigger] ticks@[i] < #[trigger] ticks@[j] by {
                assert(ticks@[i] == was[i + 1]);
                assert(ticks@[j] == was[j + 1]);
            }
        }
    }
}

impl Engine {
    /// The underruns noted are in order, and a latched dwell is one of the two.
    pub open spec fn wf(&self) -> bool {
        engine_ok(self@)
    }

    pub fn new(watchdog_ticks: u32) -> (e: Engine)
        ensures
            e.wf(),
            e@ == (EngineView {
                session: None,
                playing_since: None,
                was_playing: false,
                current_ring: None,
                last_underruns: 0,
                ready_ticks: 0,
                latched_dwell: None,
                last_pushed: 0,
                ticks_since_progress: 0,
                watchdog_ticks,
                tick_index: 0,
                underrun_ticks: Seq::empty(),
                current_session: None,
                last_reconnect_count: 0,
            }),
    {
        let e = Engine {
            session: None,
            playing_since: None,
            was_playing: false,
            current_ring: None,
            last_underruns: 0,
            ready_ticks: 0,
            latched_dwell: None,
            last_pushed: 0,
            ticks_since_progress: 0,
            watchdog_ticks,
            tick_index: 0,
            underrun_ticks: VecDeque::new(),
            current_session: None,
            last_reconnect_count: 0,
        };
        assert(e.underrun_ticks@ =~= Seq::empty());
        e
    }

    /// Brings the books on the ring up to date.
    fn see_ring(&mut self, r: RingSeen, buffering: bool, paused: bool, now: Instant) -> (inputs:
        TickInputs)
        requires
            old(self).wf(),
            old(self).tick_index < u64::MAX,
        ensures
            final(self).wf(),
            (final(self)@, inputs) == ring_seen(old(self)@, r, buffering, paused, now),
    {
        self.tick_index = self.tick_index + 1;
        let known = match self.current_ring {
            Some(id) => id == r.id,
            None => false,
        };
        if !known {
            self.current_ring = Some(r.id);
            self.last_underruns = r.underruns;
            self.ready_ticks = 0;
            self.latched_dwell = None;
            self.last_pushed = r.pushed;
            self.ticks_since_progress = 0;
            self.underrun_ticks.clear();
            assert(self.underrun_ticks@ =~= Seq::empty());
        }
        let new_underrun = r.underruns > self.last_underruns;
        self.last_underruns = r.underruns;
        if new_underrun {
            self.underrun_ticks.push_back(self.tick_index);
        }
        prune(&mut self.underrun_ticks, self.tick_index);
        let recent: u32 = self.underrun_ticks.len() as u32;
        if is_refilled(r.fill, r.capacity) && !new_underrun {
            self.ready_ticks = self.ready_ticks.saturating_add(1);
        } else {
            self.ready_ticks = 0;
        }
        let stable = match self.playing_since {
            Some(t) => now.duration_since(t).nanos >= Duration::from_secs(STABLE_AFTER_SECS).nanos,
            None => false,
        };
        advance_progress(&mut self.last_pushed, &mut self.ticks_since_progress, r.pushed);
        let dwell: u32 = dwell_for_tick(&mut self.latched_dwell, buffering, recent);
        TickInputs {
            new_underrun,
            fill: r.fill,
            capacity: r.capacity,
            user_paused: paused,
            stable,
            ready_ticks: self.ready_ticks,
            dwell,
            ticks_since_progress: self.ticks_since_progress,
            watchdog_ticks: self.watchdog_ticks,
        }
    }

    /// Buffering supervision. Runs on every wake-up of the engine thread, so that starvation is
    /// noticed even while the decode thread is blocked on a stalled network read.
    pub fn tick(&mut self, shared: &mut Shared, seen: SessionSeen, now: Instant) -> (a: TickActions)
        requires
            old(self).wf(),
            old(self).tick_index < u64::MAX,
        ensures
            final(self).wf(),
            (final(self)@, final(shared)@, a) == ticked(old(self)@, old(shared)@, seen, now),
    {
        let mut playing = false;
        let mut buffering = false;
        match shared.state {
            PlaybackState::Playing => {
                playing = true;
            },
            PlaybackState::Buffering => {
                buffering = true;
            },
            _ => {},
        }
        if playing {
            if !self.was_playing {
                self.playing_since = Some(now);
            }
        } else {
            self.playing_since = None;
        }
        self.was_playing = playing;
        let mut actions = TickActions {
            pause_output: false,
            play_output: false,
            cancel_download: false,
            reset_backoff: false,
        };
        let generation: u64 = match self.session {
            Some(g) => g,
            None => {
                return actions;
            },
        };
        let same_session = match self.current_session {
            Some(g) => g == generation,
            None => false,
        };
        // Another session than last tick: a previous session's count must not leak into this
        // one's first difference.
        let state = shared.state();
        if !same_session {
            self.current_session = Some(generation);
            self.last_reconnect_count = seen.reconnect_count;
        } else if seen.reconnect_count != self.last_reconnect_count {
            self.last_reconnect_count = seen.reconnect_count;
            shared.emit(EngineEvent::Reconnect(ReconnectInfo { count: seen.reconnect_count }));
        }
        let r = match seen.ring {
            Some(r) => r,
            None => {
                return actions;
            },
        };
        let inputs = self.see_ring(r, buffering, shared.paused, now);
        let outcome = decide_tick(&state, inputs);
        match outcome.transition {
            Some(Transition::PauseAndBuffer) => {
                actions.pause_output = true;
                shared.write_state(Some(generation), PlaybackState::Buffering);
            },
            Some(Transition::ResumePlaying) => {
                actions.play_output = true;
                shared.write_state(Some(generation), PlaybackState::Playing);
            },
            Some(Transition::ResumePaused) => {
                shared.write_state(Some(generation), PlaybackState::Paused);
            },
            Some(Transition::FailSession) => {
                actions.cancel_download = true;
                // Give the recovery a full window before firing again.
                self.ticks_since_progress = 0;
            },
            None => {},
        }
        actions.reset_backoff = outcome.reset_backoff;
        actions
    }
}

/// The output never plays and pauses in one tick, and it resumes only after the ring has stayed
/// refilled, without a new underrun, for at least as many ticks as the shorter dwell asks for.
pub proof fn output_resumes_only_after_the_dwell(
    e: EngineView,
    s: SharedView,
    seen: SessionSeen,
    now: Instant,
)
    requires
        engine_ok(e),
    ensures
        !(ticked(e, s, seen, now).2.play_output && ticked(e, s, seen, now).2.pause_output),
        ticked(e, s, seen, now).2.play_output ==> s.state is Buffering && !s.paused && ticked(
            e,
            s,
            seen,
            now,
        ).0.ready_ticks >= DWELL_TICKS,
{
}

/// One more tick of waiting on a ring counts one more good tick, or starts the count over.
pub proof fn good_ticks_are_consecutive(
    e: EngineView,
    r: RingSeen,
    buffering: bool,
    paused: bool,
    now: Instant,
)
    requires
        e.current_ring == Some(r.id),
        e.ready_ticks < u32::MAX,
    ensures
        ring_seen(e, r, buffering, paused, now).0.ready_ticks == (if refilled(r.fill, r.capacity)
            && r.underruns <= e.last_underruns {
            e.ready_ticks + 1
        } else {
            0
        }),
{
}

// ---------------------------------------------------------------------------------------------
// Commands

/// The live session, if there is one, cancelled.
pub open spec fn session_cancelled(e: EngineView, s: SharedView) -> (EngineView, SharedView) {
    match e.session {
        Some(g) => (EngineView { session: None, ..e }, ended(s, g)),
        None => (e, s),
    }
}

/// A play begun: the live session is cancelled, a new one has its number, and the listener's pause
/// is forgotten. A URL that is none is the end of it.
pub open spec fn play_begun(
    e: EngineView,
    s: SharedView,
    station_id: Seq<char>,
    url: Result<Seq<char>, crate::stream::StreamErrorView>,
) -> (EngineView, SharedView) {
    let (e1, s1) = session_cancelled(e, s);
    let s2 = SharedView { paused: false, ..begun(s1, station_id) };
    (
        e1,
        match url {
            Ok(_) => s2,
            Err(err) => written(s2, None, StateView::Error(err.code, err.message)),
        },
    )
}

/// A pause that was asked for, while something plays or not: what is shared, and whether the output
/// is to pause.
pub open spec fn pause_asked(s: SharedView, live: bool) -> (SharedView, bool) {
    if live {
        (written(SharedView { paused: true, ..s }, None, StateView::Paused), true)
    } else {
        (s, false)
    }
}

/// A resume that was asked for: what is shared, and whether the output is to play.
pub open spec fn resume_asked(s: SharedView, live: bool) -> (SharedView, bool) {
    let on = SharedView { paused: false, ..s };
    if live && s.state is Paused {
        (written(on, None, StateView::Playing), true)
    } else if live {
        (on, false)
    } else {
        (s, false)
    }
}

/// A stop that was asked for.
pub open spec fn stop_asked(e: EngineView, s: SharedView) -> (EngineView, SharedView) {
    let (e1, s1) = session_cancelled(e, s);
    (e1, written(SharedView { paused: false, ..s1 }, None, StateView::Idle))
}

/// The output device was opened, or was not, for the reason given.
pub open spec fn device_answered(
    e: EngineView,
    s: SharedView,
    generation: u64,
    failure: Option<Seq<char>>,
) -> (EngineView, SharedView, bool) {
    match failure {
        None => (
            EngineView { session: Some(generation), ..e },
            written(s, None, StateView::Connecting),
            true,
        ),
        Some(message) => (
            e,
            written(s, None, StateView::Error(ErrorCode::Device, message)),
            false,
        ),
    }
}

pub open spec fn url_view(r: Result<String, StreamError>) -> Result<
    Seq<char>,
    crate::stream::StreamErrorView,
> {
    match r {
        Ok(u) => Ok(u@),
        Err(e) => Err(e@),
    }
}

impl Engine {
    /// Cancels the live session. Its download is the caller's to cancel.
    pub fn cancel_session(&mut self, shared: &mut Shared)
        requires
            old(shared).session.generation < u64::MAX,
        ensures
            (final(self)@, final(shared)@) == session_cancelled(old(self)@, old(shared)@),
    {
        if let Some(g) = self.session {
            self.session = None;
            shared.end_session(g);
        }
    }

    /// The first half of a play, up to the output device: the generation of the new session, and
    /// the URL in normal form. The caller silences the previous station now, not when the new
    /// one has buffered. `None` when the URL is none.
    pub fn begin_play(&mut self, shared: &mut Shared, url: &str, station_id: String) -> (r: Option<
        (u64, String),
    >)
        requires
            old(shared).session.generation < u64::MAX - 1,
        ensures
            (final(self)@, final(shared)@) == play_begun(
                old(self)@,
                old(shared)@,
                station_id@,
                checked_url(parsed_url(url@)),
            ),
            match r {
                Some((g, u)) => g == final(shared)@.generation && checked_url(parsed_url(url@))
                    == Ok::<Seq<char>, crate::stream::StreamErrorView>(u@),
                None => checked_url(parsed_url(url@)) is Err,
            },
    {
        self.begin_play_parsed(shared, stream::parse_url(url), station_id)
    }

    /// The same, once the URL has been parsed.
    pub fn begin_play_parsed(
        &mut self,
        shared: &mut Shared,
        url: Result<String, StreamError>,
        station_id: String,
    ) -> (r: Option<(u64, String)>)
        requires
            old(shared).session.generation < u64::MAX - 1,
        ensures
            (final(self)@, final(shared)@) == play_begun(
                old(self)@,
                old(shared)@,
                station_id@,
                url_view(url),
            ),
            match r {
                Some((g, u)) => g == final(shared)@.generation && url == Ok::<String, StreamError>(
                    u,
                ),
                None => url is Err,
            },
    {
        self.cancel_session(shared);
        let generation: u64 = shared.begin_session(station_id);
        shared.paused = false;
        match url {
            Ok(u) => Some((generation, u)),
            Err(e) => {
                shared.set_state(PlaybackState::Error { code: e.code, message: e.message });
                None
            },
        }
    }

    /// The second half of a play, once the output device is open or is not. `true` when the
    /// decode thread of the session is to start.
    pub fn device_opened(
        &mut self,
        shared: &mut Shared,
        generation: u64,
        device: Result<(), String>,
    ) -> (start: bool)
        ensures
            (final(self)@, final(shared)@, start) == device_answered(
                old(self)@,
                old(shared)@,
                generation,
                match device {
                    Ok(_) => None,
                    Err(message) => Some(message@),
                },
            ),
    {
        match device {
            Ok(_) => {
                self.session = Some(generation);
                shared.set_state(PlaybackState::Connecting);
                true
            },
            Err(message) => {
                shared.set_state(PlaybackState::Error { code: ErrorCode::Device, message });
                false
            },
        }
    }

    /// Pauses, when there is an output and a session. `true` when the output is to pause.
    pub fn pause(&self, shared: &mut Shared, has_output: bool) -> (pause_output: bool)
        ensures
            (final(shared)@, pause_output) == pause_asked(
                old(shared)@,
                has_output && self.session is Some,
            ),
    {
        if has_output && self.session.is_some() {
            shared.paused = true;
            shared.set_state(PlaybackState::Paused);
            true
        } else {
            false
        }
    }

    /// Resumes, when there is an output and a session. `true` when the output is to play: when
    /// the state is `Paused`. A tick takes it back to `Buffering` if the ring is starved; in
    /// `Buffering`, a tick resumes the output once the ring refills.
    pub fn resume(&self, shared: &mut Shared, has_output: bool) -> (play_output: bool)
        ensures
            (final(shared)@, play_output) == resume_asked(
                old(shared)@,
                has_output && self.session is Some,
            ),
    {
        if has_output && self.session.is_some() {
            shared.paused = false;
            let paused = match shared.state {
                PlaybackState::Paused => true,
                _ => false,
            };
            if paused {
                shared.set_state(PlaybackState::Playing);
            }
            paused
        } else {
            false
        }
    }

    /// Stops: the session is cancelled and the state is `Idle`. The caller silences the output.
    pub fn stop(&mut self, shared: &mut Shared)
        requires
            old(shared).session.generation < u64::MAX,
        ensures
            (final(self)@, final(shared)@) == stop_asked(old(self)@, old(shared)@),
    {
        self.cancel_session(shared);
        shared.paused = false;
        shared.set_state(PlaybackState::Idle);
    }
}

/// After a stop, and after a play for whatever URL, nothing that the old session writes lands.
pub proof fn a_cancelled_session_is_silent(
    e: EngineView,
    s: SharedView,
    station_id: Seq<char>,
    url: Result<Seq<char>, crate::stream::StreamErrorView>,
    late: StateView,
)
    requires
        e.session is Some,
        e.session->0 <= s.generation,
        s.generation < u64::MAX - 1,
    ensures
        ({
            let (_, stopped) = session_cancelled(e, s);
            written(stopped, e.session, late) == stopped
        }),
        ({
            let (_, playing) = play_begun(e, s, station_id, url);
            written(playing, e.session, late) == playing
        }),
{
}

// ---------------------------------------------------------------------------------------------
// A session

/// What a decode thread does next.
#[derive(Debug, Clone, Copy, PartialEq, Eq, Structural)]
pub enum SessionAction {
    /// Open the stream.
    Connect,
    /// Build a decoder on the open stream.
    Build,
    /// Decode into a fresh ring.
    Decode,
    /// Sleep, unless the session is cancelled first; see [`SessionRun::waited`].
    Wait(Duration),
    /// The session is over.
    Exit,
}

/// What came of building a decoder.
#[derive(Debug, Clone, PartialEq, Eq)]
pub enum Built {
    Ready { sample_rate: u32, channels: u16 },
    /// The format was not identified.
    Unrecognised,
    /// It failed, in the decoder's words.
    Failed(String),
}

/// What is shared, the backoff, and the wait, after a failure of a session. A **terminal** failure
/// fails the session on the spot: retrying cannot change what the server says. Everything else
/// goes through the backoff, each delay stretched to the server's `Retry-After` when it sent one
/// (capped), and fails with the code of the last attempt once the attempts are spent.
pub open spec fn retried(
    s: SharedView,
    b: Backoff,
    generation: u64,
    code: ErrorCode,
    message: Seq<char>,
    terminal: bool,
    retry_after: Option<Duration>,
) -> (SharedView, Backoff, SessionAction) {
    if terminal {
        (written(s, Some(generation), StateView::Error(code, message)), b, SessionAction::Exit)
    } else if b.attempt < MAX_ATTEMPTS {
        let attempt = (b.attempt + 1) as u32;
        let delay = match retry_after {
            Some(ra) => longer(
                delay_before(attempt),
                shorter(ra, secs(RETRY_AFTER_CAP_SECS as nat)),
            ),
            None => delay_before(attempt),
        };
        (
            written(s, Some(generation), StateView::Reconnecting(attempt)),
            Backoff { attempt },
            SessionAction::Wait(delay),
        )
    } else {
        (
            written(
                s,
                Some(generation),
                StateView::Error(
                    code,
                    message + " (gave up after "@ + digits(b.attempt as nat) + " attempts)"@,
                ),
            ),
            b,
            SessionAction::Exit,
        )
    }
}

/// Retries after a failure, or fails the session; see [`retried`].
pub fn retry_or_fail(
    shared: &mut Shared,
    backoff: &mut Backoff,
    generation: u64,
    code: ErrorCode,
    message: String,
    terminal: bool,
    retry_after: Option<Duration>,
) -> (a: SessionAction)
    ensures
        (final(shared)@, *final(backoff), a) == retried(
            old(shared)@,
            *old(backoff),
            generation,
            code,
            message@,
            terminal,
            retry_after,
        ),
{
    if terminal {
        shared.write_state(Some(generation), PlaybackState::Error { code, message });
        return SessionAction::Exit;
    }
    match backoff.next() {
        Some((attempt, delay)) => {
            let delay = match retry_after {
                Some(ra) => delay.longer(ra.shorter(Duration::from_secs(RETRY_AFTER_CAP_SECS))),
                None => delay,
            };
            shared.write_state(Some(generation), PlaybackState::Reconnecting { attempt });
            SessionAction::Wait(delay)
        },
        None => {
            let mut m = text::chars_of(message.as_str());
            text::push_str(&mut m, " (gave up after ");
            text::push_digits(&mut m, backoff.attempt() as u64);
            text::push_str(&mut m, " attempts)");
            shared.write_state(
                Some(generation),
                PlaybackState::Error { code, message: text::string_of(&m) },
            );
            SessionAction::Exit
        },
    }
}

/// Samples between two reports of the ring's occupancy.
pub const CHECK_SAMPLES: u32 = 1024;

/// A ring that is being filled.
#[derive(Debug, Clone, Copy, PartialEq, Eq, Structural)]
pub struct Feed {
    pub capacity: usize,
    /// The source was handed to the output.
    pub attached: bool,
    pub samples_since_check: u32,
}

/// Whether the source is handed to the output when the ring holds `filled` samples.
pub open spec fn attaches_at(f: Feed, filled: usize) -> bool {
    !f.attached && filled >= f.capacity / 2
}

/// The ring of the session `generation` holds `filled` samples.
pub open spec fn filled_to(f: Feed, s: SharedView, generation: u64, filled: usize) -> (
    Feed,
    SharedView,
    Attach,
) {
    if !attaches_at(f, filled) {
        (f, s, Attach { attach: false, play: false })
    } else {
        (
            Feed { attached: true, ..f },
            written(
                s,
                Some(generation),
                if s.paused {
                    StateView::Paused
                } else {
                    StateView::Playing
                },
            ),
            Attach { attach: true, play: !s.paused },
        )
    }
}

/// What a report of the ring's occupancy leads to.
#[derive(Debug, Clone, Copy, PartialEq, Eq, Structural)]
pub struct Attach {
    /// Hand the source to the output now, in place of what it plays.
    pub attach: bool,
    /// And let it play.
    pub play: bool,
}

impl Feed {
    pub open spec fn wf(&self) -> bool {
        self.samples_since_check < CHECK_SAMPLES
    }

    pub fn new(capacity: usize) -> (f: Feed)
        ensures
            f == (Feed { capacity, attached: false, samples_since_check: 0 }),
            f.wf(),
    {
        Feed { capacity, attached: false, samples_since_check: 0 }
    }

    /// A sample went into the ring. `true` when the occupancy is due to be reported.
    pub fn pushed(&mut self) -> (due: bool)
        requires
            old(self).wf(),
        ensures
            final(self).wf(),
            due == (old(self).samples_since_check + 1 == CHECK_SAMPLES),
            *final(self) == (Feed {
                samples_since_check: if due {
                    0
                } else {
                    (old(self).samples_since_check + 1) as u32
                },
                ..*old(self)
            }),
    {
        self.samples_since_check = self.samples_since_check + 1;
        if self.samples_since_check < CHECK_SAMPLES {
            false
        } else {
            self.samples_since_check = 0;
            true
        }
    }

    /// The ring holds `filled` samples. Once it is half full, its source is attached, so that
    /// playback starts without a gap: whether that is now.
    pub fn attaches(&mut self, filled: usize) -> (now: bool)
        ensures
            now == attaches_at(*old(self), filled),
            *final(self) == (Feed { attached: old(self).attached || now, ..*old(self) }),
    {
        if self.attached || filled < self.capacity / 2 {
            return false;
        }
        self.attached = true;
        true
    }

    /// The ring holds `filled` samples. When its source is attached the session plays, or is
    /// paused where the listener has paused.
    pub fn report(&mut self, shared: &mut Shared, generation: u64, filled: usize) -> (a: Attach)
        ensures
            (*final(self), final(shared)@, a) == filled_to(
                *old(self),
                old(shared)@,
                generation,
                filled,
            ),
    {
        if !self.attaches(filled) {
            return Attach { attach: false, play: false };
        }
        if shared.paused {
            shared.write_state(Some(generation), PlaybackState::Paused);
            Attach { attach: true, play: false }
        } else {
            shared.write_state(Some(generation), PlaybackState::Playing);
            Attach { attach: true, play: true }
        }
    }
}

/// The body of a decode thread, between its calls into network and decoder.
#[derive(Debug, Clone, PartialEq, Eq)]
pub struct SessionRun {
    pub generation: u64,
    /// Whether this session has ever opened its stream. A terminal answer ends the session only
    /// before that: afterwards the same 404 is a mount mid-restart, and the backoff carries it.
    pub opened_once: bool,
}

/// A session whose stream was opened, or was not, for the error given. A terminal answer is final
/// only before the first open of the session.
pub open spec fn after_connect(
    run: SessionRun,
    s: SharedView,
    b: Backoff,
    failure: Option<crate::stream::StreamErrorView>,
    cancelled: bool,
) -> (SessionRun, SharedView, Backoff, SessionAction) {
    match failure {
        None => (
            SessionRun { opened_once: true, ..run },
            s,
            b,
            if cancelled {
                SessionAction::Exit
            } else {
                SessionAction::Build
            },
        ),
        Some(e) => {
            let (s2, b2, a) = retried(
                s,
                b,
                run.generation,
                e.code,
                e.message,
                e.terminal && !run.opened_once,
                e.retry_after,
            );
            (run, s2, b2, a)
        },
    }
}

/// A session whose stream ended, or failed to be read.
pub open spec fn after_end(run: SessionRun, s: SharedView, b: Backoff, cancelled: bool) -> (
    SharedView,
    Backoff,
    SessionAction,
) {
    if cancelled {
        (s, b, SessionAction::Exit)
    } else {
        retried(
            s,
            b,
            run.generation,
            ErrorCode::Network,
            "the stream ended unexpectedly"@,
            false,
            None,
        )
    }
}

/// The message for a format that was not identified.
pub open spec fn unidentified(content_type: Option<Seq<char>>) -> Seq<char> {
    "could not identify the audio format ("@ + (match content_type {
        Some(t) => t,
        None => "no content-type"@,
    }) + ")"@
}

pub open spec fn info_of(f: StreamFacts, sample_rate: u32, channels: u16) -> InfoView {
    InfoView {
        content_type: text_view(f.content_type),
        bitrate_kbps: f.bitrate_kbps,
        station_name: text_view(f.station_name),
        sample_rate,
        channels,
    }
}

/// The event tells a listener the name, type and bitrate that the headers gave, and the format
/// that the decoder found.
pub open spec fn tells_facts(
    event: EngineEvent,
    f: StreamFacts,
    sample_rate: u32,
    channels: u16,
) -> bool {
    event matches EngineEvent::StreamInfo(i) && {
        &&& i.station_name is Some == f.station_name is Some
        &&& f.station_name is Some ==> i.station_name->0@ == f.station_name->0@
        &&& i.content_type is Some == f.content_type is Some
        &&& f.content_type is Some ==> i.content_type->0@ == f.content_type->0@
        &&& i.bitrate_kbps == f.bitrate_kbps
        &&& i.sample_rate == sample_rate
        &&& i.channels == channels
    }
}

fn clone_text(s: &Option<String>) -> (r: Option<String>)
    ensures
        text_view(r) == text_view(*s),
{
    match s {
        Some(t) => Some(t.clone()),
        None => None,
    }
}

impl SessionRun {
    pub fn new(generation: u64) -> (r: SessionRun)
        ensures
            r == (SessionRun { generation, opened_once: false }),
    {
        SessionRun { generation, opened_once: false }
    }

    /// What a thread that begins, or has slept, does next.
    pub fn waited(&self, cancelled: bool) -> (a: SessionAction)
        ensures
            a == (if cancelled {
                SessionAction::Exit
            } else {
                SessionAction::Connect
            }),
    {
        if cancelled {
            SessionAction::Exit
        } else {
            SessionAction::Connect
        }
    }

    /// The stream is open, or the attempt failed. A session that was cancelled meanwhile exits;
    /// its download is the caller's to cancel.
    pub fn connected(
        &mut self,
        shared: &mut Shared,
        backoff: &mut Backoff,
        opened: Result<(), StreamError>,
        cancelled: bool,
    ) -> (a: SessionAction)
        ensures
            (*final(self), final(shared)@, *final(backoff), a) == after_connect(
                *old(self),
                old(shared)@,
                *old(backoff),
                match opened {
                    Ok(_) => None,
                    Err(e) => Some(e@),
                },
                cancelled,
            ),
    {
        match opened {
            Ok(_) => {
                self.opened_once = true;
                if cancelled {
                    SessionAction::Exit
                } else {
                    SessionAction::Build
                }
            },
            Err(e) => retry_or_fail(
                shared,
                backoff,
                self.generation,
                e.code,
                e.message,
                e.terminal && !self.opened_once,
                e.retry_after,
            ),
        }
    }

    /// The decoder is built, or the attempt failed.
    pub fn built(
        &self,
        shared: &mut Shared,
        backoff: &mut Backoff,
        facts: &StreamFacts,
        built: Built,
    ) -> (a: SessionAction)
        ensures
            match built {
                Built::Ready { sample_rate, channels } => {
                    &&& a == SessionAction::Decode
                    &&& *final(backoff) == *old(backoff)
                    &&& final(shared).events@.len() > old(shared).events@.len()
                    &&& tells_facts(
                        final(shared).events@[old(shared).events@.len() as int],
                        *facts,
                        sample_rate,
                        channels,
                    )
                    &&& final(shared)@ == written(
                        SharedView {
                            events: old(shared)@.events.push(
                                EventView::StreamInfo(info_of(*facts, sample_rate, channels)),
                            ),
                            ..old(shared)@
                        },
                        Some(self.generation),
                        StateView::Buffering,
                    )
                },
                Built::Unrecognised => {
                    &&& a == SessionAction::Exit
                    &&& *final(backoff) == *old(backoff)
                    &&& final(shared)@ == written(
                        old(shared)@,
                        Some(self.generation),
                        StateView::Error(
                            ErrorCode::UnsupportedFormat,
                            unidentified(text_view(facts.content_type)),
                        ),
                    )
                },
                Built::Failed(message) => (final(shared)@, *final(backoff), a) == retried(
                    old(shared)@,
                    *old(backoff),
                    self.generation,
                    ErrorCode::Decode,
                    message@,
                    false,
                    None,
                ),
            },
    {
        match built {
            Built::Ready { sample_rate, channels } => {
                shared.emit(
                    EngineEvent::StreamInfo(
                        StreamInfo {
                            content_type: clone_text(&facts.content_type),
                            bitrate_kbps: facts.bitrate_kbps,
                            station_name: clone_text(&facts.station_name),
                            sample_rate,
                            channels,
                        },
                    ),
                );
                let ghost told = shared.events@;
                shared.write_state(Some(self.generation), PlaybackState::Buffering);
                assert(shared.events@.subrange(0, told.len() as int)[told.len() - 1]
                    == told[told.len() - 1]);
                SessionAction::Decode
            },
            Built::Unrecognised => {
                let named = match &facts.content_type {
                    Some(t) => t.as_str(),
                    None => "no content-type",
                };
                let message = "could not identify the audio format (".to_owned().concat(
                    named,
                ).concat(")");
                shared.write_state(
                    Some(self.generation),
                    PlaybackState::Error { code: ErrorCode::UnsupportedFormat, message },
                );
                SessionAction::Exit
            },
            Built::Failed(message) => retry_or_fail(
                shared,
                backoff,
                self.generation,
                ErrorCode::Decode,
                message,
                false,
                None,
            ),
        }
    }

    /// The stream ended or a read failed.
    pub fn stream_ended(&self, shared: &mut Shared, backoff: &mut Backoff, cancelled: bool) -> (a:
        SessionAction)
        ensures
            (final(shared)@, *final(backoff), a) == after_end(
                *self,
                old(shared)@,
                *old(backoff),
                cancelled,
            ),
    {
        if cancelled {
            return SessionAction::Exit;
        }
        retry_or_fail(
            shared,
            backoff,
            self.generation,
            ErrorCode::Network,
            "the stream ended unexpectedly".to_owned(),
            false,
            None,
        )
    }
}

/// A failure either is final or costs one attempt of the backoff, and no wait is longer than
/// thirty seconds, whatever the server asks for; a wait is never shorter than the backoff's.
pub proof fn every_retry_costs_an_attempt(
    s: SharedView,
    b: Backoff,
    generation: u64,
    code: ErrorCode,
    message: Seq<char>,
    terminal: bool,
    retry_after: Option<Duration>,
)
    ensures
        ({
            let (_, after, a) = retried(s, b, generation, code, message, terminal, retry_after);
            match a {
                SessionAction::Wait(d) => {
                    &&& !terminal
                    &&& after.attempt == b.attempt + 1
                    &&& after.attempt <= MAX_ATTEMPTS
                    &&& d.nanos <= RETRY_AFTER_CAP_SECS * NANOS_PER_SEC
                    &&& d.nanos >= delay_before(after.attempt).nanos
                },
                _ => a == SessionAction::Exit && after == b,
            }
        }),
{
    vstd::arithmetic::power2::lemma2_to64();
    if !terminal && b.attempt < MAX_ATTEMPTS {
        let attempt = (b.attempt + 1) as u32;
        assert(attempt == 1 || attempt == 2 || attempt == 3 || attempt == 4 || attempt == 5);
        assert(delay_before(attempt).nanos <= 16 * NANOS_PER_SEC);
    }
}

// ---------------------------------------------------------------------------------------------
// What a listener is told, and when

/// The stream info of a stream carries the name, type and bitrate that its headers gave, as they
/// were given, and the format of the decoder: for whatever name, a stream of that name is told by
/// it.
pub proof fn the_stream_info_tells_the_facts(
    f: StreamFacts,
    name: Seq<char>,
    sample_rate: u32,
    channels: u16,
)
    requires
        f.station_name matches Some(n) ==> n@ == name,
    ensures
        f.station_name is Some ==> info_of(f, sample_rate, channels).station_name == Some(name),
        f.station_name is None ==> info_of(f, sample_rate, channels).station_name is None,
        f.content_type matches Some(t) ==> info_of(f, sample_rate, channels).content_type == Some(
            t@,
        ),
        f.content_type is None ==> info_of(f, sample_rate, channels).content_type is None,
        info_of(f, sample_rate, channels).bitrate_kbps == f.bitrate_kbps,
        info_of(f, sample_rate, channels).sample_rate == sample_rate,
        info_of(f, sample_rate, channels).channels == channels,
{
}

/// A stream whose `icy-name` header gave a name is told by that name, without the white space around
/// it.
pub proof fn a_named_stream_is_told_by_its_name(
    f: StreamFacts,
    pre: Seq<char>,
    name: Seq<char>,
    post: Seq<char>,
    sample_rate: u32,
    channels: u16,
)
    requires
        forall|i: int| 0 <= i < pre.len() ==> text::white(#[trigger] pre[i]),
        forall|i: int| 0 <= i < post.len() ==> text::white(#[trigger] post[i]),
        name.len() > 0 ==> !text::white(name[0]) && !text::white(name.last()),
        f.station_name is Some,
        f.station_name->0@ == text::trimmed(pre + name + post),
    ensures
        info_of(f, sample_rate, channels).station_name == Some(name),
{
    text::trimming_takes_the_white_off(pre, name, post);
}

/// A format that was not identified is told with the content type that the server gave, or with the
/// words that it gave none.
pub proof fn a_format_that_is_not_known_is_named(t: Seq<char>)
    ensures
        text::holds(unidentified(Some(t)), t),
        text::holds(unidentified(None), "no content-type"@),
{
    let head = "could not identify the audio format ("@;
    let n = head.len() as int;
    let (a, b) = (unidentified(Some(t)), unidentified(None));
    let none = "no content-type"@;
    assert(a.subrange(n, n + t.len()) =~= t);
    assert(text::stands_at(a, t, n));
    assert(b.subrange(n, n + none.len()) =~= none);
    assert(text::stands_at(b, none, n));
}

/// An event is seen as what it tells.
pub proof fn an_event_is_seen_as_it_is(e: EngineEvent)
    ensures
        match e {
            EngineEvent::State(s) => e@ == EventView::State(s@),
            EngineEvent::Started { station_id } => e@ == EventView::Started(station_id@),
            EngineEvent::StreamInfo(i) => e@ matches EventView::StreamInfo(v) && {
                &&& i.station_name matches Some(t) ==> v.station_name == Some(t@)
                &&& i.station_name is None ==> v.station_name is None
                &&& i.content_type matches Some(t) ==> v.content_type == Some(t@)
                &&& i.content_type is None ==> v.content_type is None
                &&& v.bitrate_kbps == i.bitrate_kbps
                &&& v.sample_rate == i.sample_rate
                &&& v.channels == i.channels
            },
            EngineEvent::Metadata(m) => e@ matches EventView::Metadata(t) && (m.title matches Some(
                x,
            ) ==> t == Some(x@)) && (m.title is None ==> t is None),
            EngineEvent::Reconnect(r) => e@ == EventView::Reconnect(r.count),
        },
{
}

/// A state that is written, by the engine or by the live session, is the state from then on and is
/// told once, after all that was told before; the first `Playing` of a session is followed by the
/// station that started. A state that is not new changes nothing.
pub proof fn a_new_state_is_told_once(s: SharedView, from: Option<u64>, state: StateView)
    requires
        from is Some ==> from->0 == s.generation,
    ensures
        ({
            let after = written(s, from, state);
            let n = s.events.len() as int;
            let first = state is Playing && !s.started;
            &&& after.state == state
            &&& s.state == state ==> after == s
            &&& after.events.take(n) == s.events
            &&& s.state != state ==> {
                &&& after.events.len() == n + (if first {
                    2int
                } else {
                    1int
                })
                &&& after.events[n] == EventView::State(state)
                &&& first ==> after.events[n + 1] is Started && after.started
                &&& first && s.station_id is Some ==> after.events[n + 1] == EventView::Started(
                    s.station_id->0,
                )
                &&& !first ==> after.started == s.started
            }
            &&& after.paused == s.paused
            &&& after.generation == s.generation
            &&& after.station_id == s.station_id
        }),
{
    assert(written(s, from, state).events.take(s.events.len() as int) =~= s.events);
}

/// A play for a URL begins a session of its own for the station that was asked for, and forgets the
/// pause; no session is live until its device is open. A text that is no URL shows its error.
pub proof fn a_play_begins_anew(
    e: EngineView,
    s: SharedView,
    station_id: Seq<char>,
    url: Result<Seq<char>, crate::stream::StreamErrorView>,
)
    requires
        s.generation < u64::MAX - 1,
    ensures
        ({
            let (next, after) = play_begun(e, s, station_id, url);
            &&& after.generation > s.generation
            &&& after.station_id == Some(station_id)
            &&& !after.paused
            &&& next == (EngineView { session: None, ..e })
            &&& url is Ok ==> after.state == s.state && after.events == s.events && !after.started
            &&& url matches Err(err) ==> after.state == StateView::Error(err.code, err.message)
        }),
{
}

/// A cancelled session is live no more, and no state changes by it.
pub proof fn a_cancelled_session_is_gone(e: EngineView, s: SharedView)
    requires
        s.generation < u64::MAX,
    ensures
        ({
            let (next, after) = session_cancelled(e, s);
            &&& next == (EngineView { session: None, ..e })
            &&& e.session is Some ==> e.session->0 != after.generation
            &&& e.session is None ==> after == s
            &&& after.state == s.state && after.events == s.events && after.paused == s.paused
            &&& after.generation >= s.generation
        }),
{
}

/// What a tick of a live session does, from what it sees of its ring. A ring that was not seen
/// before has no new underrun, and its counts begin anew.
///
/// - While the state is not `Buffering`, a new underrun pauses the output, unless the listener has
///   paused; nothing else happens.
/// - While it is, the session is failed when nothing was pushed for too many ticks, unless the
///   listener has paused; otherwise the output resumes once the ring has been three quarters full,
///   without a new underrun, for as many ticks in a row as the dwell asks: ten, or forty after
///   three recent underruns, as it was when the wait began.
pub proof fn what_a_tick_does(
    e: EngineView,
    s: SharedView,
    reconnect_count: u64,
    r: RingSeen,
    now: Instant,
)
    requires
        engine_ok(e),
        e.session == Some(s.generation),
        e.tick_index < u64::MAX,
        e.ready_ticks < u32::MAX,
        e.ticks_since_progress < u32::MAX,
    ensures
        ({
            let seen = SessionSeen { reconnect_count, ring: Some(r) };
            let (next, after, a) = ticked(e, s, seen, now);
            let known = e.current_ring == Some(r.id);
            let underrun = known && r.underruns > e.last_underruns;
            let full = 4 * r.fill >= 3 * r.capacity;
            let ready = if full && !underrun {
                1 + (if known {
                    e.ready_ticks as int
                } else {
                    0
                })
            } else {
                0
            };
            let quiet = if known && r.pushed != e.last_pushed {
                0
            } else if known {
                e.ticks_since_progress + 1
            } else {
                1
            };
            let dwell: int = if known && s.state is Buffering && e.latched_dwell is Some {
                e.latched_dwell->0 as int
            } else if next.underrun_ticks.len() >= 3 {
                40
            } else {
                10
            };
            let failed = s.state is Buffering && !s.paused && quiet >= e.watchdog_ticks;
            let resumed = s.state is Buffering && !failed && full && !underrun && ready >= dwell;
            &&& a.pause_output <==> !(s.state is Buffering) && underrun && !s.paused
            &&& a.cancel_download <==> failed
            &&& a.play_output <==> resumed && !s.paused
            &&& a.reset_backoff <==> s.state is Playing && e.was_playing && e.playing_since is Some
                && now.nanos >= e.playing_since->0.nanos + 30_000_000_000
            &&& after.state == (if a.pause_output {
                StateView::Buffering
            } else if a.play_output {
                StateView::Playing
            } else if resumed {
                StateView::Paused
            } else {
                s.state
            })
            &&& after.paused == s.paused
            &&& after.generation == s.generation
            &&& next.session == e.session
            &&& next.ready_ticks == ready
            &&& next.ticks_since_progress == (if failed {
                0
            } else {
                quiet
            })
            &&& next.last_pushed == r.pushed
            &&& next.last_underruns == r.underruns
            &&& next.current_ring == Some(r.id)
            &&& next.tick_index == e.tick_index + 1
            &&& next.latched_dwell == (if s.state is Buffering {
                Some(dwell as u32)
            } else {
                None
            })
            &&& next.was_playing == (s.state is Playing)
        }),
{
    let known = e.current_ring == Some(r.id);
    let index = (e.tick_index + 1) as u64;
    let noted = if !known {
        Seq::empty()
    } else if r.underruns > e.last_underruns {
        e.underrun_ticks.push(index)
    } else {
        e.underrun_ticks
    };
    recent_underruns_are_bounded(noted, index);
}

/// A tick without a live session, or without a ring, does nothing to the output, the download or
/// the state.
pub proof fn a_tick_without_a_ring_does_nothing(
    e: EngineView,
    s: SharedView,
    seen: SessionSeen,
    now: Instant,
)
    requires
        e.session is None || seen.ring is None,
    ensures
        ({
            let (next, after, a) = ticked(e, s, seen, now);
            &&& !a.pause_output && !a.play_output && !a.cancel_download && !a.reset_backoff
            &&& after.state == s.state && after.paused == s.paused
            &&& e.session is None ==> after == s
            &&& next.session == e.session
            &&& next.ready_ticks == e.ready_ticks
        }),
{
}

/// The reconnects of the live session are told when their count moves, with the count, and not on
/// the first look at a session; nothing else is told of them.
pub proof fn reconnects_are_told(
    e: EngineView,
    s: SharedView,
    generation: u64,
    count: u64,
)
    ensures
        ({
            let (next, after) = reconnects_seen(e, s, generation, count);
            let moved = e.current_session == Some(generation) && count != e.last_reconnect_count;
            &&& after.events.len() == s.events.len() + (if moved {
                1int
            } else {
                0int
            })
            &&& moved ==> after.events.last() == EventView::Reconnect(count)
            &&& after.events.take(s.events.len() as int) == s.events
            &&& next.current_session == Some(generation)
            &&& next.last_reconnect_count == count
            &&& after.state == s.state && after.generation == s.generation
        }),
{
    assert(reconnects_seen(e, s, generation, count).1.events.take(s.events.len() as int)
        =~= s.events);
}

/// The moment from which a session plays is that of the first tick that saw it play, as long as
/// every tick since has.
pub proof fn playing_counts_from_its_first_tick(e: EngineView, s: SharedView, now: Instant)
    ensures
        ({
            let seen = SessionSeen { reconnect_count: 0, ring: None };
            let next = ticked(e, s, seen, now).0;
            &&& !(s.state is Playing) ==> next.playing_since is None
            &&& s.state is Playing && !e.was_playing ==> next.playing_since == Some(now)
            &&& s.state is Playing && e.was_playing ==> next.playing_since == e.playing_since
            &&& next.was_playing == s.state is Playing
        }),
{
}

/// Of the underruns noted, those count that are less than three hundred ticks old, and no others.
pub proof fn an_underrun_counts_for_thirty_seconds(ticks: Seq<u64>, now: u64, t: u64)
    requires
        ticks_in_order(ticks, now),
    ensures
        in_window(ticks, now).contains(t) <==> ticks.contains(t) && now - t < 300,
    decreases ticks.len(),
{
    if ticks.len() > 0 && now - ticks[0] >= 300 {
        let rest = ticks.skip(1);
        assert forall|i: int| 0 <= i < rest.len() implies #[trigger] rest[i] <= now by {
            assert(rest[i] == ticks[i + 1]);
        }
        assert forall|i: int, j: int| 0 <= i < j < rest.len() implies #[trigger] rest[i]
            < #[trigger] rest[j] by {
            assert(rest[i] == ticks[i + 1] && rest[j] == ticks[j + 1]);
        }
        an_underrun_counts_for_thirty_seconds(rest, now, t);
        if ticks.contains(t) && now - t < 300 {
            let i = choose|i: int| 0 <= i < ticks.len() && ticks[i] == t;
            assert(rest[i - 1] == t);
        }
        if rest.contains(t) {
            let i = choose|i: int| 0 <= i < rest.len() && rest[i] == t;
            assert(ticks[i + 1] == t);
        }
    } else if ticks.contains(t) {
        let i = choose|i: int| 0 <= i < ticks.len() && ticks[i] == t;
        if i > 0 {
            assert(ticks[0] < ticks[i]);
        }
    }
}

/// The watchdog's ticks of a tenth of a second fit three times the retry timeout, and fifteen
/// seconds where that is longer, and one more would not.
pub proof fn the_watchdog_waits_no_longer(retry_timeout: Duration)
    requires
        retry_timeout.nanos <= 365 * 86_400 * 1_000_000_000,
    ensures
        ({
            let span = if 3 * retry_timeout.nanos > 15_000_000_000 {
                3 * retry_timeout.nanos
            } else {
                15_000_000_000
            };
            watchdog_limit(retry_timeout) * 100_000_000 <= span < (watchdog_limit(retry_timeout) + 1)
                * 100_000_000
        }),
{
    let base = longer(
        Duration { nanos: (retry_timeout.nanos * 3) as u128 },
        secs(WATCHDOG_FLOOR_SECS as nat),
    ).nanos;
    assert(base / 1_000_000 / 100 == base / 100_000_000);
}

/// What a failure of the live session does. One that is terminal is shown as it is and ends the
/// session. Any other waits for the next of five attempts, a second before the first and twice as
/// long before each further one, or as long as the server asked for where that is longer, up to
/// thirty seconds; once they are spent, it is shown, and ends the session.
pub proof fn what_a_failure_does(
    s: SharedView,
    b: Backoff,
    code: ErrorCode,
    message: Seq<char>,
    terminal: bool,
    retry_after: Option<Duration>,
)
    ensures
        ({
            let (after, spent, a) = retried(
                s,
                b,
                s.generation,
                code,
                message,
                terminal,
                retry_after,
            );
            let own: int = if b.attempt == 0 {
                1
            } else if b.attempt == 1 {
                2
            } else if b.attempt == 2 {
                4
            } else if b.attempt == 3 {
                8
            } else {
                16
            };
            let asked: int = match retry_after {
                Some(d) => if d.nanos > 30_000_000_000 {
                    30_000_000_000
                } else {
                    d.nanos as int
                },
                None => 0,
            };
            &&& terminal ==> a == SessionAction::Exit && after.state == StateView::Error(
                code,
                message,
            ) && spent == b
            &&& !terminal && b.attempt < 5 ==> {
                &&& a is Wait
                &&& a->Wait_0.nanos == (if asked > own * 1_000_000_000 {
                    asked
                } else {
                    own * 1_000_000_000
                })
                &&& after.state == StateView::Reconnecting((b.attempt + 1) as u32)
                &&& spent.attempt == b.attempt + 1
            }
            &&& !terminal && b.attempt >= 5 ==> {
                &&& a == SessionAction::Exit
                &&& spent == b
                &&& after.state is Error && after.state->Error_0 == code
                &&& message.is_prefix_of(after.state->Error_1)
            }
        }),
{
    vstd::arithmetic::power2::lemma2_to64();
    let shown = message + " (gave up after "@ + digits(b.attempt as nat) + " attempts)"@;
    assert(message.is_prefix_of(shown));
}

/// A pause shows, and is remembered; a resume takes it back, and shows that it plays where a pause
/// showed. Neither does anything where nothing plays; and a resume while the ring refills only
/// forgets the pause.
pub proof fn a_resume_takes_a_pause_back(s: SharedView)
    ensures
        pause_asked(s, false) == (s, false),
        resume_asked(s, false) == (s, false),
        ({
            let (paused, stop) = pause_asked(s, true);
            let (on, play) = resume_asked(paused, true);
            &&& stop && paused.state is Paused && paused.paused
            &&& play && on.state is Playing && !on.paused
            &&& paused.generation == s.generation && on.generation == s.generation
        }),
        !(s.state is Paused) ==> resume_asked(s, true) == (
            SharedView { paused: false, ..s },
            false,
        ),
{
}

/// A stop leaves nothing playing: the state is idle, no session is live, the pause is forgotten, and
/// what the old session writes is dropped.
pub proof fn a_stop_leaves_nothing_playing(e: EngineView, s: SharedView, late: StateView)
    requires
        s.generation < u64::MAX,
    ensures
        ({
            let (next, after) = stop_asked(e, s);
            &&& next.session is None
            &&& after.state is Idle
            &&& !after.paused
            &&& e.session is Some ==> written(after, e.session, late) == after
        }),
{
}

/// A session is live and connects once its device is open; a device that is not shows why, and
/// starts nothing.
pub proof fn a_session_lives_on_an_open_device(
    e: EngineView,
    s: SharedView,
    generation: u64,
    message: Seq<char>,
)
    ensures
        device_answered(e, s, generation, None).0 == (EngineView {
            session: Some(generation),
            ..e
        }),
        device_answered(e, s, generation, None).1.state is Connecting,
        device_answered(e, s, generation, None).2,
        device_answered(e, s, generation, Some(message)).0 == e,
        device_answered(e, s, generation, Some(message)).1.state == StateView::Error(
            ErrorCode::Device,
            message,
        ),
        !device_answered(e, s, generation, Some(message)).2,
{
}

/// A ring is heard from half full on, once: its source is handed over then and not again, and it
/// plays unless the listener has paused.
pub proof fn a_ring_is_heard_from_half_full(
    f: Feed,
    s: SharedView,
    filled: usize,
    later: usize,
)
    requires
        !f.attached,
    ensures
        ({
            let (next, after, a) = filled_to(f, s, s.generation, filled);
            let half = 2 * filled + 1 >= f.capacity;
            &&& a.attach <==> half
            &&& a.play <==> half && !s.paused
            &&& next.attached == a.attach
            &&& next.capacity == f.capacity && next.samples_since_check == f.samples_since_check
            &&& half && s.paused ==> after.state is Paused
            &&& half && !s.paused ==> after.state is Playing
            &&& !half ==> after == s
            &&& half ==> filled_to(next, after, s.generation, later) == (
                next,
                after,
                Attach { attach: false, play: false },
            )
        }),
{
}

/// A stream that is open is decoded, unless the session was cancelled meanwhile. A final answer ends
/// a session that never opened its stream; of one that did, it is a failure like any other, and
/// waits for the next attempt.
pub proof fn a_final_answer_ends_only_a_first_open(
    run: SessionRun,
    s: SharedView,
    b: Backoff,
    e: crate::stream::StreamErrorView,
)
    requires
        run.generation == s.generation,
        b.attempt < 5,
    ensures
        after_connect(run, s, b, None, false).3 == SessionAction::Build,
        after_connect(run, s, b, None, true).3 == SessionAction::Exit,
        after_connect(run, s, b, None, false).0.opened_once,
        after_connect(run, s, b, None, false).1 == s && after_connect(run, s, b, None, false).2 == b,
        ({
            let (next, after, spent, a) = after_connect(run, s, b, Some(e), false);
            &&& next == run
            &&& e.terminal && !run.opened_once ==> a == SessionAction::Exit && after.state
                == StateView::Error(e.code, e.message)
            &&& !e.terminal || run.opened_once ==> a is Wait && after.state
                == StateView::Reconnecting((b.attempt + 1) as u32) && spent.attempt == b.attempt + 1
        }),
{
}

/// A stream that ended is connected to again, after the wait of the next attempt, unless the session
/// was cancelled, which is silent.
pub proof fn a_stream_that_ended_is_connected_to_again(run: SessionRun, s: SharedView, b: Backoff)
    requires
        run.generation == s.generation,
        b.attempt < 5,
    ensures
        after_end(run, s, b, true) == (s, b, SessionAction::Exit),
        after_end(run, s, b, false).2 is Wait,
        after_end(run, s, b, false).0.state == StateView::Reconnecting((b.attempt + 1) as u32),
        after_end(run, s, b, false).1.attempt == b.attempt + 1,
{
}

} // verus!
