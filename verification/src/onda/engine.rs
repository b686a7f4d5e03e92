//! The engine of the small player.

use std::collections::VecDeque;

use vstd::prelude::*;

use super::stream;
use super::stream::{checked_url, url_view, StreamError};
use crate::engine::{
    attaches_at, dwell_for, event_views, in_window, info_of, is_refilled, is_stable, refilled, select_dwell,
    recent_underruns_are_bounded, tells_facts, ticks_in_order, unidentified, Attach, Built, EventView, Feed, RingSeen, SessionAction,
    SessionSeen,
};
use crate::outside::parsed_url;
use crate::reconnect::{delay_before, Backoff, MAX_ATTEMPTS, STABLE_AFTER_SECS};
use crate::stream::StreamFacts;
use crate::text;
use crate::text::digits;
use crate::time::{Duration, Instant};
use crate::types::{
    text_view, EngineEvent, ErrorCode, PlaybackState, ReconnectInfo, StateView, StreamInfo,
};

verus! {

// ---------------------------------------------------------------------------------------------
// What the threads share

/// State shared between the engine thread, decode threads, and the public handle.
#[derive(Debug, Clone, PartialEq, Eq)]
pub struct Shared {
    pub state: PlaybackState,
    /// Events not yet delivered, oldest first.
    pub events: Vec<EngineEvent>,
    pub paused: bool,
}

pub struct SharedView {
    pub state: StateView,
    pub events: Seq<EventView>,
    pub paused: bool,
}

impl View for Shared {
    type V = SharedView;

    open spec fn view(&self) -> SharedView {
        SharedView { state: self.state@, events: event_views(self.events@), paused: self.paused }
    }
}

/// A state write: a state that is not new changes nothing.
pub open spec fn written(s: SharedView, state: StateView) -> SharedView {
    if s.state == state {
        s
    } else {
        SharedView { state, events: s.events.push(EventView::State(state)), ..s }
    }
}

/// A state write of a session: dropped once the session is cancelled.
pub open spec fn session_written(s: SharedView, cancelled: bool, state: StateView) -> SharedView {
    if cancelled {
        s
    } else {
        written(s, state)
    }
}

impl Shared {
    pub fn new() -> (s: Shared)
        ensures
            s@ == (SharedView { state: StateView::Idle, events: Seq::empty(), paused: false }),
    {
        let s = Shared { state: PlaybackState::Idle, events: Vec::new(), paused: false };
        assert(event_views(s.events@) =~= Seq::empty());
        s
    }

    pub fn set_state(&mut self, s: PlaybackState)
        ensures
            final(self)@ == written(old(self)@, s@),
            old(self).events@.is_prefix_of(final(self).events@),
    {
        if self.state.same(&s) {
            return;
        }
        let ghost before = self.events@;
        let told = s.clone();
        self.events.push(EngineEvent::State(told));
        assert(event_views(self.events@) =~= event_views(before).push(EventView::State(s@)));
        self.state = s;
    }

    /// A state update from a session, dropped once it is cancelled, so that a stale decode thread
    /// cannot overwrite the state of its successor.
    pub fn set_session_state(&mut self, cancelled: bool, s: PlaybackState)
        ensures
            final(self)@ == session_written(old(self)@, cancelled, s@),
            old(self).events@.is_prefix_of(final(self).events@),
    {
        if !cancelled {
            self.set_state(s);
        }
    }

    pub fn state(&self) -> (s: PlaybackState)
        ensures
            s@ == self@.state,
    {
        self.state.clone()
    }

    /// Tells the outside world.
    pub fn emit(&mut self, ev: EngineEvent)
        ensures
            final(self)@ == (SharedView { events: old(self)@.events.push(ev@), ..old(self)@ }),
            final(self).events@ == old(self).events@.push(ev),
    {
        let ghost before = self.events@;
        self.events.push(ev);
        assert(event_views(self.events@) =~= event_views(before).push(ev@));
    }
}

// ---------------------------------------------------------------------------------------------
// The decision of a tick

/// What a tick does to the output.
#[derive(Debug, Clone, Copy, PartialEq, Eq, Structural)]
pub enum Transition {
    PauseAndBuffer,
    ResumePlaying,
    ResumePaused,
}

#[derive(Debug, Clone, Copy, PartialEq, Eq, Structural)]
pub struct TickOutcome {
    pub transition: Option<Transition>,
    pub reset_backoff: bool,
}

/// The transition of a tick.
pub open spec fn decision(
    new_underrun: bool,
    fill: usize,
    capacity: usize,
    state: StateView,
    user_paused: bool,
    ready_ticks: u32,
    recent_underruns: u32,
) -> Option<Transition> {
    if !(state is Buffering) {
        if new_underrun && !user_paused {
            Some(Transition::PauseAndBuffer)
        } else {
            None
        }
    } else if refilled(fill, capacity) && !new_underrun && ready_ticks >= dwell_for(
        recent_underruns,
    ) {
        Some(
            if user_paused {
                Transition::ResumePaused
            } else {
                Transition::ResumePlaying
            },
        )
    } else {
        None
    }
}

/// Decides a tick. `state` is the state observed at its start; `ready_ticks` and
/// `recent_underruns` count consecutive good ticks, and underruns within the window. Pause and
/// resume can never be emitted in the same tick.
pub fn decide_tick(
    new_underrun: bool,
    fill: usize,
    capacity: usize,
    state: &PlaybackState,
    user_paused: bool,
    stable: bool,
    ready_ticks: u32,
    recent_underruns: u32,
) -> (out: TickOutcome)
    ensures
        out.transition == decision(
            new_underrun,
            fill,
            capacity,
            state@,
            user_paused,
            ready_ticks,
            recent_underruns,
        ),
        out.reset_backoff == stable,
{
    let buffering = match state {
        PlaybackState::Buffering => true,
        _ => false,
    };
    let transition = if !buffering {
        if new_underrun && !user_paused {
            Some(Transition::PauseAndBuffer)
        } else {
            None
        }
    } else if is_refilled(fill, capacity) && !new_underrun && ready_ticks >= select_dwell(
        recent_underruns,
    ) {
        Some(
            if user_paused {
                Transition::ResumePaused
            } else {
                Transition::ResumePlaying
            },
        )
    } else {
        None
    };
    TickOutcome { transition, reset_backoff: stable }
}

/// The output is paused only outside `Buffering` and resumed only inside it; a fresh underrun
/// never resumes; and while the listener has paused, the output neither plays nor is paused
/// again.
pub proof fn pause_and_resume_exclude_each_other(
    new_underrun: bool,
    fill: usize,
    capacity: usize,
    state: StateView,
    user_paused: bool,
    ready_ticks: u32,
    recent: u32,
)
    ensures
        ({
            let t = decision(
                new_underrun,
                fill,
                capacity,
                state,
                user_paused,
                ready_ticks,
                recent,
            );
            &&& t == Some(Transition::PauseAndBuffer) ==> !(state is Buffering) && new_underrun
            &&& t == Some(Transition::ResumePlaying) ==> state is Buffering && !new_underrun
            &&& t == Some(Transition::ResumePaused) ==> state is Buffering && !new_underrun
            &&& user_paused ==> t is None || t == Some(Transition::ResumePaused)
        }),
{
}

// ---------------------------------------------------------------------------------------------
// The tick

/// What the caller does to the device and the backoff after a tick.
#[derive(Debug, Clone, Copy, PartialEq, Eq, Structural)]
pub struct TickActions {
    pub pause_output: bool,
    pub play_output: bool,
    pub reset_backoff: bool,
}

/// The engine thread's own bookkeeping.
#[derive(Debug, Clone, PartialEq, Eq)]
pub struct Engine {
    /// The live session: no two sessions share a number.
    pub session: Option<u64>,
    /// When the current session last went into `Playing`, as observed by a tick.
    pub playing_since: Option<Instant>,
    /// The last tick saw `Playing`.
    pub was_playing: bool,
    /// The ring whose counts are kept.
    pub current_ring: Option<u64>,
    /// Its underruns as of the last tick.
    pub last_underruns: u64,
    /// Consecutive ticks with the ring refilled past the threshold and no new underrun.
    pub ready_ticks: u32,
    /// Counts the ticks that saw a ring.
    pub tick_index: u64,
    /// The tick of each underrun event still within the window, oldest first.
    pub underrun_ticks: VecDeque<u64>,
    /// The session whose reconnects are followed.
    pub current_session: Option<u64>,
    /// Its reconnect count as of the last tick.
    pub last_reconnect_count: u64,
}

pub struct EngineView {
    pub session: Option<u64>,
    pub playing_since: Option<Instant>,
    pub was_playing: bool,
    pub current_ring: Option<u64>,
    pub last_underruns: u64,
    pub ready_ticks: u32,
    pub tick_index: u64,
    pub underrun_ticks: Seq<u64>,
    pub current_session: Option<u64>,
    pub last_reconnect_count: u64,
}

impl View for Engine {
    type V = EngineView;

    open spec fn view(&self) -> EngineView {
        EngineView {
            session: self.session,
            playing_since: self.playing_since,
            was_playing: self.was_playing,
            current_ring: self.current_ring,
            last_underruns: self.last_underruns,
            ready_ticks: self.ready_ticks,
            tick_index: self.tick_index,
            underrun_ticks: self.underrun_ticks@,
            current_session: self.current_session,
            last_reconnect_count: self.last_reconnect_count,
        }
    }
}

/// Since when the session plays, after a tick that sees `state`.
pub open spec fn since_when(e: EngineView, state: StateView, now: Instant) -> Option<Instant> {
    if !(state is Playing) {
        None
    } else if !e.was_playing {
        Some(now)
    } else {
        e.playing_since
    }
}

/// The engine and what is shared, after the reconnects of the live session were looked at.
pub open spec fn reconnects_seen(e: EngineView, s: SharedView, session: u64, count: u64) -> (
    EngineView,
    SharedView,
) {
    if e.current_session != Some(session) {
        (EngineView { current_session: Some(session), last_reconnect_count: count, ..e }, s)
    } else if count != e.last_reconnect_count {
        (
            EngineView { last_reconnect_count: count, ..e },
            SharedView { events: s.events.push(EventView::Reconnect(count)), ..s },
        )
    } else {
        (e, s)
    }
}

/// The books on the ring brought up to date, and whether it has a new underrun.
pub open spec fn ring_seen(e: EngineView, r: RingSeen) -> (EngineView, bool) {
    let index = (e.tick_index + 1) as u64;
    let known = e.current_ring == Some(r.id);
    let new_underrun = known && r.underruns > e.last_underruns;
    let ticks = if known {
        e.underrun_ticks
    } else {
        Seq::empty()
    };
    let ready = if known {
        e.ready_ticks
    } else {
        0
    };
    (
        EngineView {
            tick_index: index,
            current_ring: Some(r.id),
            last_underruns: r.underruns,
            underrun_ticks: in_window(
                if new_underrun {
                    ticks.push(index)
                } else {
                    ticks
                },
                index,
            ),
            ready_ticks: if !refilled(r.fill, r.capacity) || new_underrun {
                0
            } else if ready < u32::MAX {
                (ready + 1) as u32
            } else {
                ready
            },
            ..e
        },
        new_underrun,
    )
}

/// The engine, what is shared, and what the caller does, after a tick. `cancelled` says of the
/// live session that it has been cancelled meanwhile.
pub open spec fn ticked(
    e: EngineView,
    s: SharedView,
    seen: SessionSeen,
    cancelled: bool,
    now: Instant,
) -> (EngineView, SharedView, TickActions) {
    let idle = TickActions { pause_output: false, play_output: false, reset_backoff: false };
    let e1 = EngineView {
        playing_since: since_when(e, s.state, now),
        was_playing: s.state is Playing,
        ..e
    };
    match e.session {
        None => (e1, s, idle),
        Some(session) => {
            let (e2, s2) = reconnects_seen(e1, s, session, seen.reconnect_count);
            match seen.ring {
                None => (e2, s2, idle),
                Some(r) => {
                    let (e3, new_underrun) = ring_seen(e2, r);
                    let t = decision(
                        new_underrun,
                        r.fill,
                        r.capacity,
                        s.state,
                        s.paused,
                        e3.ready_ticks,
                        e3.underrun_ticks.len() as u32,
                    );
                    (
                        e3,
                        match t {
                            Some(Transition::PauseAndBuffer) => session_written(
                                s2,
                                cancelled,
                                StateView::Buffering,
                            ),
                            Some(Transition::ResumePlaying) => session_written(
                                s2,
                                cancelled,
                                StateView::Playing,
                            ),
                            Some(Transition::ResumePaused) => session_written(
                                s2,
                                cancelled,
                                StateView::Paused,
                            ),
                            None => s2,
                        },
                        TickActions {
                            pause_output: t == Some(Transition::PauseAndBuffer),
                            play_output: t == Some(Transition::ResumePlaying),
                            reset_backoff: is_stable(e3.playing_since, now),
                        },
                    )
                },
            }
        },
    }
}

impl Engine {
    /// The underruns noted are in order.
    pub open spec fn wf(&self) -> bool {
        ticks_in_order(self.underrun_ticks@, self.tick_index)
    }

    pub fn new() -> (e: Engine)
        ensures
            e.wf(),
            e@ == (EngineView {
                session: None,
                playing_since: None,
                was_playing: false,
                current_ring: None,
                last_underruns: 0,
                ready_ticks: 0,
                tick_index: 0,
                underrun_ticks: Seq::empty(),
                current_session: None,
                last_reconnect_count: 0,
            }),
    {
        let e = Engine {
            session: None,
            playing_since: None,
            was_playing: false,
            current_ring: None,
            last_underruns: 0,
            ready_ticks: 0,
            tick_index: 0,
            underrun_ticks: VecDeque::new(),
            current_session: None,
            last_reconnect_count: 0,
        };
        assert(e.underrun_ticks@ =~= Seq::empty());
        e
    }

    /// Brings the books on the ring up to date: whether it has a new underrun.
    fn see_ring(&mut self, r: RingSeen) -> (new_underrun: bool)
        requires
            old(self).wf(),
            old(self).tick_index < u64::MAX,
        ensures
            final(self).wf(),
            (final(self)@, new_underrun) == ring_seen(old(self)@, r),
    {
        self.tick_index = self.tick_index + 1;
        let known = match self.current_ring {
            Some(id) => id == r.id,
            None => false,
        };
        if !known {
            self.current_ring = Some(r.id);
            self.last_underruns = r.underruns;
            self.ready_ticks = 0;
            self.underrun_ticks.clear();
            assert(self.underrun_ticks@ =~= Seq::empty());
        }
        let new_underrun = r.underruns > self.last_underruns;
        self.last_underruns = r.underruns;
        if new_underrun {
            self.underrun_ticks.push_back(self.tick_index);
        }
        crate::engine::prune(&mut self.underrun_ticks, self.tick_index);
        if is_refilled(r.fill, r.capacity) && !new_underrun {
            self.ready_ticks = self.ready_ticks.saturating_add(1);
        } else {
            self.ready_ticks = 0;
        }
        new_underrun
    }

    /// Buffering supervision, on every wake-up of the engine thread, so that starvation is noticed
    /// even while the decode thread is blocked on a stalled network read.
    pub fn tick(
        &mut self,
        shared: &mut Shared,
        seen: SessionSeen,
        cancelled: bool,
        now: Instant,
    ) -> (a: TickActions)
        requires
            old(self).wf(),
            old(self).tick_index < u64::MAX,
        ensures
            final(self).wf(),
            (final(self)@, final(shared)@, a) == ticked(
                old(self)@,
                old(shared)@,
                seen,
                cancelled,
                now,
            ),
    {
        let playing = match shared.state {
            PlaybackState::Playing => true,
            _ => false,
        };
        if playing {
            if !self.was_playing {
                self.playing_since = Some(now);
            }
        } else {
            self.playing_since = None;
        }
        self.was_playing = playing;
        let mut actions = TickActions {
            pause_output: false,
            play_output: false,
            reset_backoff: false,
        };
        let session: u64 = match self.session {
            Some(g) => g,
            None => {
                return actions;
            },
        };
        let state = shared.state();
        let same_session = match self.current_session {
            Some(g) => g == session,
            None => false,
        };
        if !same_session {
            self.current_session = Some(session);
            self.last_reconnect_count = seen.reconnect_count;
        } else if seen.reconnect_count != self.last_reconnect_count {
            self.last_reconnect_count = seen.reconnect_count;
            shared.emit(EngineEvent::Reconnect(ReconnectInfo { count: seen.reconnect_count }));
        }
        let r = match seen.ring {
            Some(r) => r,
            None => {
                return actions;
            },
        };
        let new_underrun = self.see_ring(r);
        let stable = match self.playing_since {
            Some(t) => now.duration_since(t).nanos >= Duration::from_secs(STABLE_AFTER_SECS).nanos,
            None => false,
        };
        let recent: u32 = self.underrun_ticks.len() as u32;
        let outcome = decide_tick(
            new_underrun,
            r.fill,
            r.capacity,
            &state,
            shared.paused,
            stable,
            self.ready_ticks,
            recent,
        );
        match outcome.transition {
            Some(Transition::PauseAndBuffer) => {
                actions.pause_output = true;
                shared.set_session_state(cancelled, PlaybackState::Buffering);
            },
            Some(Transition::ResumePlaying) => {
                actions.play_output = true;
                shared.set_session_state(cancelled, PlaybackState::Playing);
            },
            Some(Transition::ResumePaused) => {
                shared.set_session_state(cancelled, PlaybackState::Paused);
            },
            None => {},
        }
        actions.reset_backoff = outcome.reset_backoff;
        actions
    }
}

// ---------------------------------------------------------------------------------------------
// Commands

/// A play begun: the live session is dropped and the listener's pause is forgotten. A URL that is
/// none is the end of it.
pub open spec fn play_begun(
    e: EngineView,
    s: SharedView,
    url: Result<Seq<char>, (ErrorCode, Seq<char>)>,
) -> (EngineView, SharedView) {
    let s1 = SharedView { paused: false, ..s };
    (
        EngineView { session: None, ..e },
        match url {
            Ok(_) => s1,
            Err((code, message)) => written(s1, StateView::Error(code, message)),
        },
    )
}

/// A pause that was asked for, while something plays or not: what is shared, and whether the output
/// is to pause.
pub open spec fn pause_asked(s: SharedView, live: bool) -> (SharedView, bool) {
    if live {
        (written(SharedView { paused: true, ..s }, StateView::Paused), true)
    } else {
        (s, false)
    }
}

/// A resume that was asked for: what is shared, and whether the output is to play.
pub open spec fn resume_asked(s: SharedView, live: bool) -> (SharedView, bool) {
    let on = SharedView { paused: false, ..s };
    if live && s.state is Paused {
        (written(on, StateView::Playing), true)
    } else if live {
        (on, false)
    } else {
        (s, false)
    }
}

/// A stop that was asked for.
pub open spec fn stop_asked(e: EngineView, s: SharedView) -> (EngineView, SharedView) {
    (
        EngineView { session: None, ..e },
        written(SharedView { paused: false, ..s }, StateView::Idle),
    )
}

impl Engine {
    /// The first half of a play, up to the output device: the URL in normal form. The caller
    /// cancels the session that is dropped and silences it. `None` when the URL is none.
    pub fn begin_play(&mut self, shared: &mut Shared, url: &str) -> (r: Option<String>)
        ensures
            (final(self)@, final(shared)@) == play_begun(
                old(self)@,
                old(shared)@,
                checked_url(parsed_url(url@)),
            ),
            match r {
                Some(u) => checked_url(parsed_url(url@)) == Ok::<
                    Seq<char>,
                    (ErrorCode, Seq<char>),
                >(u@),
                None => checked_url(parsed_url(url@)) is Err,
            },
    {
        self.begin_play_parsed(shared, stream::parse_url(url))
    }

    /// The same, once the URL has been parsed.
    pub fn begin_play_parsed(&mut self, shared: &mut Shared, url: Result<String, StreamError>) -> (r:
        Option<String>)
        ensures
            (final(self)@, final(shared)@) == play_begun(old(self)@, old(shared)@, url_view(url)),
            match r {
                Some(u) => url == Ok::<String, StreamError>(u),
                None => url is Err,
            },
    {
        self.session = None;
        shared.paused = false;
        match url {
            Ok(u) => Some(u),
            Err(e) => {
                shared.set_state(PlaybackState::Error { code: e.code, message: e.message });
                None
            },
        }
    }

    /// The second half of a play, once the output device is open or is not. `true` when the
    /// decode thread of the session is to start.
    pub fn device_opened(
        &mut self,
        shared: &mut Shared,
        session: u64,
        device: Result<(), String>,
    ) -> (start: bool)
        ensures
            start == device.is_ok(),
            match device {
                Ok(_) => {
                    &&& final(self)@ == (EngineView { session: Some(session), ..old(self)@ })
                    &&& final(shared)@ == written(old(shared)@, StateView::Connecting)
                },
                Err(message) => {
                    &&& final(self)@ == old(self)@
                    &&& final(shared)@ == written(
                        old(shared)@,
                        StateView::Error(ErrorCode::Device, message@),
                    )
                },
            },
    {
        match device {
            Ok(_) => {
                self.session = Some(session);
                shared.set_state(PlaybackState::Connecting);
                true
            },
            Err(message) => {
                shared.set_state(PlaybackState::Error { code: ErrorCode::Device, message });
                false
            },
        }
    }

    /// Pauses, when there is an output and a session. `true` when the output is to pause.
    pub fn pause(&self, shared: &mut Shared, has_output: bool) -> (pause_output: bool)
        ensures
            (final(shared)@, pause_output) == pause_asked(
                old(shared)@,
                has_output && self.session is Some,
            ),
    {
        if has_output && self.session.is_some() {
            shared.paused = true;
            shared.set_state(PlaybackState::Paused);
            true
        } else {
            false
        }
    }

    /// Resumes, when there is an output and a session. `true` when the output is to play: when
    /// the state is `Paused`.
    pub fn resume(&self, shared: &mut Shared, has_output: bool) -> (play_output: bool)
        ensures
            (final(shared)@, play_output) == resume_asked(
                old(shared)@,
                has_output && self.session is Some,
            ),
    {
        if has_output && self.session.is_some() {
            shared.paused = false;
            let paused = match shared.state {
                PlaybackState::Paused => true,
                _ => false,
            };
            if paused {
                shared.set_state(PlaybackState::Playing);
            }
            paused
        } else {
            false
        }
    }

    /// Stops: the session is dropped, for the caller to cancel, and the state is `Idle`.
    pub fn stop(&mut self, shared: &mut Shared)
        ensures
            (final(self)@, final(shared)@) == stop_asked(old(self)@, old(shared)@),
    {
        self.session = None;
        shared.paused = false;
        shared.set_state(PlaybackState::Idle);
    }
}

// ---------------------------------------------------------------------------------------------
// A session

/// What is shared, the backoff, and the wait, after a failure of a session.
pub open spec fn retried(
    s: SharedView,
    b: Backoff,
    cancelled: bool,
    code: ErrorCode,
    message: Seq<char>,
) -> (SharedView, Backoff, SessionAction) {
    if b.attempt < MAX_ATTEMPTS {
        let attempt = (b.attempt + 1) as u32;
        (
            session_written(s, cancelled, StateView::Reconnecting(attempt)),
            Backoff { attempt },
            SessionAction::Wait(delay_before(attempt)),
        )
    } else {
        (
            session_written(
                s,
                cancelled,
                StateView::Error(
                    code,
                    message + " (gave up after "@ + digits(b.attempt as nat) + " attempts)"@,
                ),
            ),
            b,
            SessionAction::Exit,
        )
    }
}

/// A session whose stream was opened, or was not, for the code and message given.
pub open spec fn after_connect(
    s: SharedView,
    b: Backoff,
    failure: Option<(ErrorCode, Seq<char>)>,
    cancelled: bool,
) -> (SharedView, Backoff, SessionAction) {
    match failure {
        None => (
            s,
            b,
            if cancelled {
                SessionAction::Exit
            } else {
                SessionAction::Build
            },
        ),
        Some((code, message)) => retried(s, b, cancelled, code, message),
    }
}

/// The ring of the session holds `filled` samples.
pub open spec fn filled_to(f: Feed, s: SharedView, cancelled: bool, filled: usize) -> (
    Feed,
    SharedView,
    Attach,
) {
    if !attaches_at(f, filled) {
        (f, s, Attach { attach: false, play: false })
    } else {
        (
            Feed { attached: true, ..f },
            session_written(
                s,
                cancelled,
                if s.paused {
                    StateView::Paused
                } else {
                    StateView::Playing
                },
            ),
            Attach { attach: true, play: !s.paused },
        )
    }
}

/// Retries after a failure, or fails the session once the attempts are spent.
pub fn retry_or_fail(
    shared: &mut Shared,
    backoff: &mut Backoff,
    cancelled: bool,
    code: ErrorCode,
    message: String,
) -> (a: SessionAction)
    ensures
        (final(shared)@, *final(backoff), a) == retried(
            old(shared)@,
            *old(backoff),
            cancelled,
            code,
            message@,
        ),
{
    match backoff.next() {
        Some((attempt, delay)) => {
            shared.set_session_state(cancelled, PlaybackState::Reconnecting { attempt });
            SessionAction::Wait(delay)
        },
        None => {
            let mut m = text::chars_of(message.as_str());
            text::push_str(&mut m, " (gave up after ");
            text::push_digits(&mut m, backoff.attempt() as u64);
            text::push_str(&mut m, " attempts)");
            shared.set_session_state(
                cancelled,
                PlaybackState::Error { code, message: text::string_of(&m) },
            );
            SessionAction::Exit
        },
    }
}

/// What a thread that begins, or has slept, does next.
pub fn waited(cancelled: bool) -> (a: SessionAction)
    ensures
        a == (if cancelled {
            SessionAction::Exit
        } else {
            SessionAction::Connect
        }),
{
    if cancelled {
        SessionAction::Exit
    } else {
        SessionAction::Connect
    }
}

/// The stream is open, or the attempt failed. A session that was cancelled meanwhile exits.
pub fn connected(
    shared: &mut Shared,
    backoff: &mut Backoff,
    opened: Result<(), StreamError>,
    cancelled: bool,
) -> (a: SessionAction)
    ensures
        (final(shared)@, *final(backoff), a) == after_connect(
            old(shared)@,
            *old(backoff),
            match opened {
                Ok(_) => None,
                Err(e) => Some((e.code, e.message@)),
            },
            cancelled,
        ),
{
    match opened {
        Ok(_) => if cancelled {
            SessionAction::Exit
        } else {
            SessionAction::Build
        },
        Err(e) => retry_or_fail(shared, backoff, cancelled, e.code, e.message),
    }
}

/// The decoder is built, or the attempt failed.
pub fn decoder_built(
    shared: &mut Shared,
    backoff: &mut Backoff,
    facts: StreamFacts,
    built: Built,
    cancelled: bool,
) -> (a: SessionAction)
    ensures
        (final(shared)@, *final(backoff), a) == (match built {
            Built::Ready { sample_rate, channels } => (
                session_written(
                    SharedView {
                        events: old(shared)@.events.push(
                            EventView::StreamInfo(info_of(facts, sample_rate, channels)),
                        ),
                        ..old(shared)@
                    },
                    cancelled,
                    StateView::Buffering,
                ),
                *old(backoff),
                SessionAction::Decode,
            ),
            Built::Unrecognised => (
                session_written(
                    old(shared)@,
                    cancelled,
                    StateView::Error(
                        ErrorCode::UnsupportedFormat,
                        unidentified(text_view(facts.content_type)),
                    ),
                ),
                *old(backoff),
                SessionAction::Exit,
            ),
            Built::Failed(message) => retried(
                old(shared)@,
                *old(backoff),
                cancelled,
                ErrorCode::Decode,
                message@,
            ),
        }),
        built matches Built::Ready { sample_rate, channels } ==> {
            &&& final(shared).events@.len() > old(shared).events@.len()
            &&& tells_facts(
                final(shared).events@[old(shared).events@.len() as int],
                facts,
                sample_rate,
                channels,
            )
        },
{
    match built {
        Built::Ready { sample_rate, channels } => {
            shared.emit(
                EngineEvent::StreamInfo(
                    StreamInfo {
                        content_type: facts.content_type,
                        bitrate_kbps: facts.bitrate_kbps,
                        station_name: facts.station_name,
                        sample_rate,
                        channels,
                    },
                ),
            );
            let ghost told = shared.events@;
            shared.set_session_state(cancelled, PlaybackState::Buffering);
            assert(shared.events@.subrange(0, told.len() as int)[told.len() - 1]
                == told[told.len() - 1]);
            SessionAction::Decode
        },
        Built::Unrecognised => {
            let named = match &facts.content_type {
                Some(t) => t.as_str(),
                None => "no content-type",
            };
            let message = "could not identify the audio format (".to_owned().concat(named).concat(
                ")",
            );
            shared.set_session_state(
                cancelled,
                PlaybackState::Error { code: ErrorCode::UnsupportedFormat, message },
            );
            SessionAction::Exit
        },
        Built::Failed(message) => retry_or_fail(
            shared,
            backoff,
            cancelled,
            ErrorCode::Decode,
            message,
        ),
    }
}

/// The stream ended or a read failed.
pub fn stream_ended(shared: &mut Shared, backoff: &mut Backoff, cancelled: bool) -> (a:
    SessionAction)
    ensures
        (final(shared)@, *final(backoff), a) == (if cancelled {
            (old(shared)@, *old(backoff), SessionAction::Exit)
        } else {
            retried(
                old(shared)@,
                *old(backoff),
                false,
                ErrorCode::Network,
                "the stream ended unexpectedly"@,
            )
        }),
{
    if cancelled {
        return SessionAction::Exit;
    }
    retry_or_fail(
        shared,
        backoff,
        false,
        ErrorCode::Network,
        "the stream ended unexpectedly".to_owned(),
    )
}

/// The ring holds `filled` samples. When its source is attached the session plays, or is paused
/// where the listener has paused.
pub fn report_fill(feed: &mut Feed, shared: &mut Shared, cancelled: bool, filled: usize) -> (a:
    Attach)
    ensures
        (*final(feed), final(shared)@, a) == filled_to(
            *old(feed),
            old(shared)@,
            cancelled,
            filled,
        ),
{
    if !feed.attaches(filled) {
        return Attach { attach: false, play: false };
    }
    if shared.paused {
        shared.set_session_state(cancelled, PlaybackState::Paused);
        Attach { attach: true, play: false }
    } else {
        shared.set_session_state(cancelled, PlaybackState::Playing);
        Attach { attach: true, play: true }
    }
}

// ---------------------------------------------------------------------------------------------
// What a listener is told, and when

/// A state that is written is the state from then on and is told once, after all that was told
/// before; one that is not new changes nothing, and neither does one of a cancelled session.
pub proof fn a_new_state_is_told_once(s: SharedView, cancelled: bool, state: StateView)
    ensures
        session_written(s, true, state) == s,
        ({
            let after = session_written(s, false, state);
            let n = s.events.len() as int;
            &&& after == written(s, state)
            &&& after.state == state
            &&& after.paused == s.paused
            &&& s.state == state ==> after == s
            &&& s.state != state ==> after.events == s.events.push(EventView::State(state))
        }),
{
}

/// What a tick of the live session does, from what it sees of its ring; see
/// [`crate::engine::what_a_tick_does`]. Here the dwell follows the recent underruns of the moment,
/// and no watchdog fails the session.
pub proof fn what_a_tick_does(
    e: EngineView,
    s: SharedView,
    reconnect_count: u64,
    r: RingSeen,
    now: Instant,
)
    requires
        ticks_in_order(e.underrun_ticks, e.tick_index),
        e.session is Some,
        e.tick_index < u64::MAX,
        e.ready_ticks < u32::MAX,
    ensures
        ({
            let seen = SessionSeen { reconnect_count, ring: Some(r) };
            let (next, after, a) = ticked(e, s, seen, false, now);
            let known = e.current_ring == Some(r.id);
            let underrun = known && r.underruns > e.last_underruns;
            let full = 4 * r.fill >= 3 * r.capacity;
            let ready = if full && !underrun {
                1 + (if known {
                    e.ready_ticks as int
                } else {
                    0
                })
            } else {
                0
            };
            let dwell: int = if next.underrun_ticks.len() >= 3 {
                40
            } else {
                10
            };
            let resumed = s.state is Buffering && full && !underrun && ready >= dwell;
            &&& a.pause_output <==> !(s.state is Buffering) && underrun && !s.paused
            &&& a.play_output <==> resumed && !s.paused
            &&& a.reset_backoff <==> s.state is Playing && e.was_playing && e.playing_since is Some
                && now.nanos >= e.playing_since->0.nanos + 30_000_000_000
            &&& after.state == (if a.pause_output {
                StateView::Buffering
            } else if a.play_output {
                StateView::Playing
            } else if resumed {
                StateView::Paused
            } else {
                s.state
            })
            &&& after.paused == s.paused
            &&& next.session == e.session
            &&& next.ready_ticks == ready
            &&& next.last_underruns == r.underruns
            &&& next.current_ring == Some(r.id)
            &&& next.tick_index == e.tick_index + 1
            &&& next.was_playing == (s.state is Playing)
            &&& ticked(e, s, seen, true, now).1.state == s.state
        }),
{
    let known = e.current_ring == Some(r.id);
    let index = (e.tick_index + 1) as u64;
    let noted = if !known {
        Seq::empty()
    } else if r.underruns > e.last_underruns {
        e.underrun_ticks.push(index)
    } else {
        e.underrun_ticks
    };
    recent_underruns_are_bounded(noted, index);
}

/// A tick without a live session, or without a ring, does nothing to the output or the state.
pub proof fn a_tick_without_a_ring_does_nothing(
    e: EngineView,
    s: SharedView,
    seen: SessionSeen,
    cancelled: bool,
    now: Instant,
)
    requires
        e.session is None || seen.ring is None,
    ensures
        ({
            let (next, after, a) = ticked(e, s, seen, cancelled, now);
            &&& !a.pause_output && !a.play_output && !a.reset_backoff
            &&& after.state == s.state && after.paused == s.paused
            &&& e.session is None ==> after == s
            &&& next.session == e.session
            &&& s.state is Playing && !e.was_playing ==> next.playing_since == Some(now)
            &&& s.state is Playing && e.was_playing ==> next.playing_since == e.playing_since
            &&& !(s.state is Playing) ==> next.playing_since is None
        }),
{
}

/// The reconnects of the live session are told when their count moves, with the count, and not on
/// the first look at a session.
pub proof fn reconnects_are_told(e: EngineView, s: SharedView, session: u64, count: u64)
    ensures
        ({
            let (next, after) = reconnects_seen(e, s, session, count);
            let moved = e.current_session == Some(session) && count != e.last_reconnect_count;
            &&& moved ==> after.events == s.events.push(EventView::Reconnect(count))
            &&& !moved ==> after.events == s.events
            &&& next.current_session == Some(session)
            &&& next.last_reconnect_count == count
            &&& after.state == s.state
        }),
{
}

/// What a failure does: it waits for the next of five attempts, a second before the first and
/// twice as long before each further one; once they are spent, it is shown and ends the session.
pub proof fn what_a_failure_does(s: SharedView, b: Backoff, code: ErrorCode, message: Seq<char>)
    ensures
        ({
            let (after, spent, a) = retried(s, b, false, code, message);
            let own: int = if b.attempt == 0 {
                1
            } else if b.attempt == 1 {
                2
            } else if b.attempt == 2 {
                4
            } else if b.attempt == 3 {
                8
            } else {
                16
            };
            &&& b.attempt < 5 ==> {
                &&& a is Wait && a->Wait_0.nanos == own * 1_000_000_000
                &&& after.state == StateView::Reconnecting((b.attempt + 1) as u32)
                &&& spent.attempt == b.attempt + 1
            }
            &&& b.attempt >= 5 ==> {
                &&& a == SessionAction::Exit
                &&& spent == b
                &&& after.state is Error && after.state->Error_0 == code
                &&& message.is_prefix_of(after.state->Error_1)
            }
            &&& retried(s, b, true, code, message).0 == s
        }),
{
    vstd::arithmetic::power2::lemma2_to64();
    let shown = message + " (gave up after "@ + digits(b.attempt as nat) + " attempts)"@;
    assert(message.is_prefix_of(shown));
}

/// A play drops the live session and forgets the pause; a text that is no URL shows its error.
pub proof fn a_play_begins_anew(
    e: EngineView,
    s: SharedView,
    url: Result<Seq<char>, (ErrorCode, Seq<char>)>,
)
    ensures
        ({
            let (next, after) = play_begun(e, s, url);
            &&& next == (EngineView { session: None, ..e })
            &&& !after.paused
            &&& url is Ok ==> after.state == s.state && after.events == s.events
            &&& url matches Err(err) ==> after.state == StateView::Error(err.0, err.1)
        }),
{
}

/// A pause shows, and is remembered; a resume takes it back, and shows that it plays where a pause
/// showed. Neither does anything where nothing plays. A stop leaves nothing playing.
pub proof fn a_resume_takes_a_pause_back(e: EngineView, s: SharedView)
    ensures
        pause_asked(s, false) == (s, false),
        resume_asked(s, false) == (s, false),
        ({
            let (paused, stop) = pause_asked(s, true);
            let (on, play) = resume_asked(paused, true);
            &&& stop && paused.state is Paused && paused.paused
            &&& play && on.state is Playing && !on.paused
        }),
        !(s.state is Paused) ==> resume_asked(s, true) == (
            SharedView { paused: false, ..s },
            false,
        ),
        stop_asked(e, s).0 == (EngineView { session: None, ..e }),
        stop_asked(e, s).1.state is Idle && !stop_asked(e, s).1.paused,
{
}

/// A ring is heard from half full on, once, and plays unless the listener has paused; a stream that
/// is open is decoded, unless the session was cancelled meanwhile; one that is not waits for the next
/// attempt.
pub proof fn a_stream_is_heard_from_half_a_ring(
    f: Feed,
    s: SharedView,
    b: Backoff,
    filled: usize,
    later: usize,
    code: ErrorCode,
    message: Seq<char>,
)
    requires
        !f.attached,
        b.attempt < 5,
    ensures
        ({
            let (next, after, a) = filled_to(f, s, false, filled);
            let half = 2 * filled + 1 >= f.capacity;
            &&& a.attach <==> half
            &&& a.play <==> half && !s.paused
            &&& next.attached == a.attach
            &&& half && s.paused ==> after.state is Paused
            &&& half && !s.paused ==> after.state is Playing
            &&& !half ==> after == s
            &&& half ==> !filled_to(next, after, false, later).2.attach
            &&& filled_to(f, s, true, filled).1 == s
        }),
        after_connect(s, b, None, false) == (s, b, SessionAction::Build),
        after_connect(s, b, None, true) == (s, b, SessionAction::Exit),
        after_connect(s, b, Some((code, message)), false).2 is Wait,
        after_connect(s, b, Some((code, message)), false).0.state == StateView::Reconnecting(
            (b.attempt + 1) as u32,
        ),
{
}

} // verus!
