//! The fetch task: it executes the planner's steps, one action at a time. The caller performs
//! the action (send a payload to the reader, fetch a segment, sleep, reload the playlist) and
//! hands back what happened; the task decides what comes next.

use vstd::prelude::*;

use super::fetch::{FetchedPlaylist, SegmentFetch};
use super::open::{parse_fetched, segment_frames, Opened};
use super::playlist::{
    can_take, fetched, from_seq, from_seq_is_in_order, in_order, increasing, is_bounded, parsed,
    reloaded, segment_views, started, EndCause, MediaPlaylist, MediaView, Planner, Playlist,
    PlaylistView, Segment, SegmentView, Step, StepView,
};
use super::segment;
use super::segment::{cleaned, format_of, FormatGuard};
use super::{
    after_failure, is_retried, kind_read, AfterFailure, Failure, Kind, SEGMENT_RETRY_STEP_SECS,
};
use crate::stream::StreamError;
use crate::time::{elapsed, secs, Duration, Instant};

verus! {

/// Why the task ended.
#[derive(Debug, Clone, Copy, PartialEq, Eq, Structural)]
pub enum Ended {
    /// The reader went away: a stop, another station, or the session's watchdog.
    Closed,
    Stall,
    Restarted,
    EndList,
    FormatChanged,
}

/// The name of a cause, as it is logged.
pub open spec fn ended_name(e: Ended) -> Seq<char> {
    match e {
        Ended::Closed => "closed"@,
        Ended::Stall => "stall"@,
        Ended::Restarted => "restarted"@,
        Ended::EndList => "end_list"@,
        Ended::FormatChanged => "format_changed"@,
    }
}

impl Ended {
    pub fn name(&self) -> (s: &'static str)
        ensures
            s@ == ended_name(*self),
    {
        match self {
            Ended::Closed => "closed",
            Ended::Stall => "stall",
            Ended::Restarted => "restarted",
            Ended::EndList => "end_list",
            Ended::FormatChanged => "format_changed",
        }
    }
}

/// What the task waits for.
#[derive(Debug, Clone, Copy, PartialEq, Eq, Structural)]
pub enum Doing {
    /// A payload is on its way to the reader.
    Sending,
    /// The first pending segment is fetched: since when, and how often it was tried again.
    Fetching { first_try: Instant, retries: u32 },
    /// The first pending segment failed and is tried again after a step.
    Pausing { first_try: Instant, retries: u32 },
    /// Every pending segment is done; the next reload is due.
    Waiting,
    Reloading,
}

#[derive(Debug, Clone)]
pub struct FetchTask {
    pub media_url: String,
    /// The playlist's target duration, within the bounds of a wait.
    pub target_duration: Duration,
    pub planner: Planner,
    pub guard: FormatGuard,
    /// Segments the last step said to fetch, not yet done.
    pub pending: Vec<Segment>,
    /// How long to wait after them before the next reload.
    pub then_wait: Duration,
    pub doing: Doing,
}

/// What happened.
#[derive(Debug)]
pub enum Event {
    /// The reader took the payload.
    Sent,
    /// The reader is gone.
    Closed,
    /// The segment request is over.
    Fetched(Result<SegmentFetch, StreamError>),
    /// The wait is over.
    Waited,
    /// The reload is over: the playlist, or nothing when it failed.
    Reloaded(Option<MediaPlaylist>),
}

/// What to do next.
#[derive(Debug, Clone, PartialEq, Eq)]
pub enum Action {
    /// Hand this to the reader.
    Send(Vec<u8>),
    /// Fetch the first pending segment, unsniffed.
    Fetch,
    /// Sleep, unless the reader goes away first.
    Wait(Duration),
    /// Fetch the media playlist again.
    Reload,
    /// Close the channel: the source ends, the decoder sees the end of the stream.
    End(Ended),
}

pub struct TaskView {
    pub media_url: Seq<char>,
    pub target_duration: Duration,
    pub planner: Planner,
    pub guard: FormatGuard,
    pub pending: Seq<SegmentView>,
    pub then_wait: Duration,
    pub doing: Doing,
}

pub enum ActionView {
    Send(Seq<u8>),
    Fetch,
    Wait(Duration),
    Reload,
    End(Ended),
}

impl View for FetchTask {
    type V = TaskView;

    open spec fn view(&self) -> TaskView {
        TaskView {
            media_url: self.media_url@,
            target_duration: self.target_duration,
            planner: self.planner,
            guard: self.guard,
            pending: segment_views(self.pending@),
            then_wait: self.then_wait,
            doing: self.doing,
        }
    }
}

impl View for Action {
    type V = ActionView;

    open spec fn view(&self) -> ActionView {
        match self {
            Action::Send(b) => ActionView::Send(b@),
            Action::Fetch => ActionView::Fetch,
            Action::Wait(d) => ActionView::Wait(*d),
            Action::Reload => ActionView::Reload,
            Action::End(e) => ActionView::End(*e),
        }
    }
}

/// The media playlist that a reload brought: nothing when the request failed, or when the body is
/// no media playlist.
pub open spec fn reload_of(fetched: Result<FetchedPlaylist, StreamError>) -> Option<MediaView> {
    match fetched {
        Ok(f) => media_of(parsed(f.text@, f.url@)),
        Err(_) => None,
    }
}

pub open spec fn media_of<E>(p: Result<PlaylistView, E>) -> Option<MediaView> {
    match p {
        Ok(PlaylistView::Media(m)) => Some(m),
        _ => None,
    }
}

pub open spec fn media_view(m: Option<MediaPlaylist>) -> Option<MediaView> {
    match m {
        Some(m) => Some(m@),
        None => None,
    }
}

/// Keeps the media playlist of a reload that was parsed.
pub fn reloaded_playlist(p: Result<Playlist, StreamError>) -> (r: Option<MediaPlaylist>)
    ensures
        media_view(r) == media_of(
            match p {
                Ok(p) => Ok(p@),
                Err(e) => Err(e),
            },
        ),
{
    match p {
        Ok(Playlist::Media(m)) => Some(m),
        _ => None,
    }
}

/// The media playlist that a reload brought, and the kind to log the request with.
pub fn reloaded_media(fetched: Result<FetchedPlaylist, StreamError>) -> (r: (
    Kind,
    Option<MediaPlaylist>,
))
    ensures
        media_view(r.1) == reload_of(fetched),
        r.0 == (match fetched {
            Ok(f) => kind_read(Kind::Media, parsed(f.text@, f.url@)),
            Err(_) => Kind::Media,
        }),
{
    match fetched {
        Ok(f) => {
            let (kind, p) = parse_fetched(&f, Kind::Media);
            (kind, reloaded_playlist(p))
        },
        Err(_) => (Kind::Media, None),
    }
}

/// How a fetch that brought no body counts.
pub open spec fn failure_of(r: Result<SegmentFetch, StreamError>) -> Option<Failure> {
    match r {
        Ok(SegmentFetch::Evicted(status)) => if status == 410 {
            Some(Failure::Gone)
        } else {
            Some(Failure::NotFound(status))
        },
        Err(e) => Some(Failure::Transient(e.message)),
        _ => None,
    }
}

/// The first pending segment, or the wait when there is none.
pub open spec fn go_on(t: TaskView, now: Instant) -> (TaskView, ActionView) {
    if t.pending.len() > 0 {
        (
            TaskView { doing: Doing::Fetching { first_try: now, retries: 0 }, ..t },
            ActionView::Fetch,
        )
    } else {
        (TaskView { doing: Doing::Waiting, ..t }, ActionView::Wait(t.then_wait))
    }
}

/// The first pending segment is done with.
pub open spec fn dropped_first(t: TaskView) -> TaskView {
    TaskView { pending: t.pending.skip(1), ..t }
}

/// What comes of a segment whose body holds `bytes`: it is normalised and sent, unless it holds
/// no frame (a gap) or its format differs from the session's first (the source ends).
pub open spec fn with_body(t: TaskView, bytes: Seq<u8>, now: Instant) -> (TaskView, ActionView) {
    let frames = segment_frames(bytes);
    let rest = dropped_first(t);
    if frames.len() == 0 {
        go_on(rest, now)
    } else {
        let format = format_of(frames[0]);
        match t.guard.first {
            Some(first) if first != format => (rest, ActionView::End(Ended::FormatChanged)),
            _ => (
                TaskView {
                    guard: FormatGuard { first: Some(format) },
                    doing: Doing::Sending,
                    ..rest
                },
                ActionView::Send(cleaned(frames)),
            ),
        }
    }
}

/// What comes of a segment request.
pub open spec fn with_fetched(
    t: TaskView,
    r: Result<SegmentFetch, StreamError>,
    now: Instant,
) -> (TaskView, ActionView) {
    match (r, t.doing) {
        (Ok(SegmentFetch::Body { bytes, .. }), _) => with_body(t, bytes@, now),
        (_, Doing::Fetching { first_try, retries }) => match failure_of(r) {
            Some(f) => if is_retried(f, retries, elapsed(first_try, now), t.target_duration) {
                (
                    TaskView {
                        doing: Doing::Pausing {
                            first_try,
                            retries: if retries < u32::MAX {
                                (retries + 1) as u32
                            } else {
                                retries
                            },
                        },
                        ..t
                    },
                    ActionView::Wait(secs(SEGMENT_RETRY_STEP_SECS as nat)),
                )
            } else {
                go_on(dropped_first(t), now)
            },
            None => go_on(dropped_first(t), now),
        },
        _ => go_on(dropped_first(t), now),
    }
}

/// The playlist of a reload, as far as the planner can take it: one whose last new segment has the
/// last number of 64 bits counts as a reload that failed.
pub open spec fn taken_by(p: Planner, reload: Option<MediaView>) -> Option<MediaView> {
    match reload {
        Some(m) if can_take(p, m) => Some(m),
        _ => None,
    }
}

/// What comes of a reload.
pub open spec fn with_reload(t: TaskView, reload: Option<MediaView>, now: Instant) -> (
    TaskView,
    ActionView,
) {
    let (planner, step) = reloaded(t.planner, taken_by(t.planner, reload), now);
    let moved = TaskView { planner, ..t };
    match step {
        StepView::Fetch { segments, skipped: _, then_wait } => go_on(
            TaskView { pending: segments, then_wait, ..moved },
            now,
        ),
        StepView::Wait(d) => go_on(TaskView { then_wait: d, ..moved }, now),
        StepView::End(EndCause::Stall) => (moved, ActionView::End(Ended::Stall)),
        StepView::End(EndCause::Restarted) => (moved, ActionView::End(Ended::Restarted)),
        StepView::End(EndCause::EndList) => (moved, ActionView::End(Ended::EndList)),
    }
}

/// The events that the task may meet while it is at `doing`. A reader that goes away during a
/// reload makes the reload fail.
pub open spec fn expects(doing: Doing, e: Event) -> bool {
    match doing {
        Doing::Sending => e is Sent || e is Closed,
        Doing::Fetching { .. } => e is Fetched || e is Closed,
        Doing::Pausing { .. } => e is Waited || e is Closed,
        Doing::Waiting => e is Waited || e is Closed,
        Doing::Reloading => e is Reloaded,
    }
}

/// The task and its action after an event.
pub open spec fn after_event(t: TaskView, e: Event, now: Instant) -> (TaskView, ActionView) {
    match (e, t.doing) {
        (Event::Closed, _) => (t, ActionView::End(Ended::Closed)),
        (Event::Sent, _) => go_on(t, now),
        (Event::Fetched(r), _) => with_fetched(t, r, now),
        (Event::Waited, Doing::Pausing { first_try, retries }) => (
            TaskView { doing: Doing::Fetching { first_try, retries }, ..t },
            ActionView::Fetch,
        ),
        (Event::Waited, _) => (TaskView { doing: Doing::Reloading, ..t }, ActionView::Reload),
        (Event::Reloaded(m), _) => with_reload(t, media_view(m), now),
    }
}

/// What holds of every task: a segment is fetched only while one is pending, the window is
/// waited for only when none is, and every wait is within its bounds.
pub open spec fn task_ok(t: TaskView) -> bool {
    &&& is_bounded(t.then_wait)
    &&& match t.doing {
        Doing::Sending => true,
        Doing::Fetching { .. } => t.pending.len() > 0,
        Doing::Pausing { .. } => t.pending.len() > 0,
        Doing::Waiting => t.pending.len() == 0,
        Doing::Reloading => t.pending.len() == 0,
    }
}

impl FetchTask {
    pub open spec fn wf(&self) -> bool {
        task_ok(self@)
    }

    /// The task of a station that is open; its first payload goes to the reader at once.
    pub fn new(opened: Opened) -> (r: (FetchTask, Action))
        requires
            opened.wf(),
        ensures
            r.0.wf(),
            r.0@ == (TaskView {
                media_url: opened.media_url@,
                target_duration: opened.target_duration,
                planner: opened.planner,
                guard: opened.guard,
                pending: segment_views(opened.pending@),
                then_wait: opened.then_wait,
                doing: Doing::Sending,
            }),
            r.1@ == ActionView::Send(opened.first_payload@),
    {
        (
            FetchTask {
                media_url: opened.media_url,
                target_duration: opened.target_duration,
                planner: opened.planner,
                guard: opened.guard,
                pending: opened.pending,
                then_wait: opened.then_wait,
                doing: Doing::Sending,
            },
            Action::Send(opened.first_payload),
        )
    }

    /// The segment that is fetched.
    pub fn current(&self) -> (s: &Segment)
        requires
            self.pending@.len() > 0,
        ensures
            *s == self.pending@[0],
    {
        &self.pending[0]
    }

    fn go_on(&mut self, now: Instant) -> (a: Action)
        ensures
            (final(self)@, a@) == go_on(old(self)@, now),
    {
        assert(self@.pending.len() == self.pending@.len());
        if self.pending.len() > 0 {
            self.doing = Doing::Fetching { first_try: now, retries: 0 };
            Action::Fetch
        } else {
            self.doing = Doing::Waiting;
            Action::Wait(self.then_wait)
        }
    }

    fn drop_first(&mut self)
        requires
            old(self).pending@.len() > 0,
        ensures
            final(self)@ == dropped_first(old(self)@),
    {
        let ghost before = self.pending@;
        let _ = self.pending.remove(0);
        assert(segment_views(self.pending@) =~= segment_views(before).skip(1));
    }

    /// Normalises a fetched segment, checks its format, and has it sent.
    fn body(&mut self, bytes: &Vec<u8>, now: Instant) -> (a: Action)
        requires
            old(self).pending@.len() > 0,
        ensures
            (final(self)@, a@) == with_body(old(self)@, bytes@, now),
    {
        self.drop_first();
        let normalised = segment::normalise(bytes);
        match normalised.format {
            None => self.go_on(now),
            Some(format) => match self.guard.check(format) {
                Err(_) => Action::End(Ended::FormatChanged),
                Ok(_) => {
                    self.doing = Doing::Sending;
                    Action::Send(normalised.bytes)
                },
            },
        }
    }

    /// Takes the outcome of a segment request: a body is sent, a failure is retried or skipped
    /// by [`after_failure`].
    fn fetched(&mut self, r: Result<SegmentFetch, StreamError>, now: Instant) -> (a: Action)
        requires
            old(self).pending@.len() > 0,
            old(self).doing is Fetching,
        ensures
            (final(self)@, a@) == with_fetched(old(self)@, r, now),
    {
        let failure = match r {
            Ok(SegmentFetch::Body { bytes, content_type: _ }) => {
                return self.body(&bytes, now);
            },
            Ok(SegmentFetch::Refused(_)) => {
                self.drop_first();
                return self.go_on(now);
            },
            Ok(SegmentFetch::Evicted(status)) => if status == 410 {
                Failure::Gone
            } else {
                Failure::NotFound(status)
            },
            Err(e) => Failure::Transient(e.message),
        };
        match self.doing {
            Doing::Fetching { first_try, retries } => {
                let since = now.duration_since(first_try);
                match after_failure(&failure, retries, since, self.target_duration) {
                    AfterFailure::Retry => {
                        self.doing = Doing::Pausing {
                            first_try,
                            retries: retries.saturating_add(1),
                        };
                        Action::Wait(Duration::from_secs(SEGMENT_RETRY_STEP_SECS))
                    },
                    AfterFailure::Skip => {
                        self.drop_first();
                        self.go_on(now)
                    },
                }
            },
            _ => {
                self.drop_first();
                self.go_on(now)
            },
        }
    }

    /// Takes the outcome of a reload.
    fn reloaded(&mut self, reload: Option<MediaPlaylist>, now: Instant) -> (a: Action)
        ensures
            (final(self)@, a@) == with_reload(old(self)@, media_view(reload), now),
    {
        let step = match &reload {
            Some(m) => if self.planner.takes(m) {
                self.planner.reload(Some(m), now)
            } else {
                self.planner.reload(None, now)
            },
            None => self.planner.reload(None, now),
        };
        match step {
            Step::Fetch { segments, skipped: _, then_wait } => {
                self.pending = segments;
                self.then_wait = then_wait;
                self.go_on(now)
            },
            Step::Wait(d) => {
                self.then_wait = d;
                self.go_on(now)
            },
            Step::End(EndCause::Stall) => Action::End(Ended::Stall),
            Step::End(EndCause::Restarted) => Action::End(Ended::Restarted),
            Step::End(EndCause::EndList) => Action::End(Ended::EndList),
        }
    }

    /// Decides what comes after an event. A task that has ended takes no more events.
    pub fn on(&mut self, event: Event, now: Instant) -> (a: Action)
        requires
            old(self).wf(),
            expects(old(self).doing, event),
        ensures
            (final(self)@, a@) == after_event(old(self)@, event, now),
            a !is End ==> final(self).wf(),
            a matches Action::Wait(d) ==> is_bounded(d),
    {
        let ghost before = self@;
        proof {
            assert(before.pending.len() == self.pending@.len());
            task_stays_ok(before, event, now);
        }
        match event {
            Event::Closed => Action::End(Ended::Closed),
            Event::Sent => self.go_on(now),
            Event::Fetched(r) => self.fetched(r, now),
            Event::Waited => match self.doing {
                Doing::Pausing { first_try, retries } => {
                    self.doing = Doing::Fetching { first_try, retries };
                    Action::Fetch
                },
                _ => {
                    self.doing = Doing::Reloading;
                    Action::Reload
                },
            },
            Event::Reloaded(m) => self.reloaded(m, now),
        }
    }
}

/// A task that goes on keeps its invariant, and waits within the bounds.
pub proof fn task_stays_ok(t: TaskView, e: Event, now: Instant)
    requires
        task_ok(t),
        expects(t.doing, e),
    ensures
        after_event(t, e, now).1 !is End ==> task_ok(after_event(t, e, now).0),
        after_event(t, e, now).1 matches ActionView::Wait(d) ==> is_bounded(d),
{
}

/// Whatever happens, what is sent is a run of cleaned frames whose first has the format the
/// guard holds, and the guard never changes once it holds a format.
pub proof fn one_format_is_sent(t: TaskView, e: Event, now: Instant)
    requires
        expects(t.doing, e),
    ensures
        ({
            let (next, action) = after_event(t, e, now);
            &&& t.guard.first is Some ==> next.guard == t.guard
            &&& action matches ActionView::Send(payload) ==> exists|frames: Seq<Seq<u8>>|
                frames.len() > 0 && next.guard.first == Some(format_of(frames[0])) && payload
                    == #[trigger] cleaned(frames)
        }),
{
}

/// A reader that is gone ends the task at once, unless a reload is under way.
pub proof fn a_closed_reader_ends_the_task(t: TaskView, now: Instant)
    ensures
        after_event(t, Event::Closed, now).1 == ActionView::End(Ended::Closed),
        !(t.doing is Reloading) ==> expects(t.doing, Event::Closed),
{
}

// ---------------------------------------------------------------------------------------------
// The order of segments

/// The pending segments are in order, and the planner has moved past them.
pub open spec fn task_in_order(t: TaskView) -> bool {
    &&& increasing(t.pending)
    &&& forall|i: int|
        0 <= i < t.pending.len() ==> (#[trigger] t.pending[i]).seq < t.planner.next_seq
}

/// The least number that may still be handled.
pub open spec fn next_handled(t: TaskView) -> u64 {
    if t.pending.len() > 0 {
        t.pending[0].seq
    } else {
        t.planner.next_seq
    }
}

/// The segment that an event is the end of: sent, skipped, or the one that ended the task.
pub open spec fn handled_by(t: TaskView, e: Event, now: Instant) -> Seq<u64> {
    if e is Fetched && after_event(t, e, now).0.pending != t.pending {
        seq![t.pending[0].seq]
    } else {
        Seq::empty()
    }
}

/// The segments that a run of events is the end of, in order; the run stops where the task ends.
pub open spec fn handled(t: TaskView, events: Seq<(Event, Instant)>) -> Seq<u64>
    decreases events.len(),
{
    if events.len() == 0 {
        Seq::empty()
    } else {
        let (e, now) = events[0];
        let (next, action) = after_event(t, e, now);
        handled_by(t, e, now) + (if action is End {
            Seq::empty()
        } else {
            handled(next, events.skip(1))
        })
    }
}

/// Every event is one that the task expects, and every playlist among them is in order.
pub open spec fn possible(t: TaskView, events: Seq<(Event, Instant)>) -> bool
    decreases events.len(),
{
    events.len() > 0 ==> {
        let (e, now) = events[0];
        let (next, action) = after_event(t, e, now);
        &&& expects(t.doing, e)
        &&& e matches Event::Reloaded(Some(m)) ==> increasing(m@.segments)
        &&& action is End || possible(next, events.skip(1))
    }
}

/// Whatever happens, the task is done with each segment once, in the order of their numbers.
pub proof fn each_segment_is_handled_once(t: TaskView, events: Seq<(Event, Instant)>)
    requires
        task_ok(t),
        task_in_order(t),
        possible(t, events),
    ensures
        forall|i: int, j: int|
            0 <= i < j < handled(t, events).len() ==> #[trigger] handled(t, events)[i]
                < #[trigger] handled(t, events)[j],
        forall|i: int|
            0 <= i < handled(t, events).len() ==> #[trigger] handled(t, events)[i] >= next_handled(
                t,
            ),
    decreases events.len(),
{
    if events.len() > 0 {
        let (e, now) = events[0];
        let (next, action) = after_event(t, e, now);
        let first = handled_by(t, e, now);
        one_event_keeps_the_order(t, e, now);
        if !(action is End) {
            task_stays_ok(t, e, now);
            each_segment_is_handled_once(next, events.skip(1));
            let rest = handled(next, events.skip(1));
            let all = handled(t, events);
            assert(all == first + rest);
            assert forall|i: int, j: int| 0 <= i < j < all.len() implies #[trigger] all[i]
                < #[trigger] all[j] by {
                if first.len() > 0 {
                    assert(all[j] == rest[j - 1]);
                    if i > 0 {
                        assert(all[i] == rest[i - 1]);
                    }
                } else {
                    assert(all[i] == rest[i] && all[j] == rest[j]);
                }
            }
            assert forall|i: int| 0 <= i < all.len() implies #[trigger] all[i] >= next_handled(t) by {
                if i >= first.len() {
                    assert(all[i] == rest[i - first.len()]);
                }
            }
        }
    }
}

proof fn one_event_keeps_the_order(t: TaskView, e: Event, now: Instant)
    requires
        task_ok(t),
        task_in_order(t),
        expects(t.doing, e),
        e matches Event::Reloaded(Some(m)) ==> increasing(m@.segments),
    ensures
        ({
            let (next, action) = after_event(t, e, now);
            let first = handled_by(t, e, now);
            &&& action is End || task_in_order(next)
            &&& next_handled(next) >= next_handled(t) || action is End
            &&& first.len() > 0 ==> first[0] == next_handled(t) && (action is End || next_handled(
                next,
            ) > first[0])
        }),
{
    let (next, action) = after_event(t, e, now);
    if e is Fetched {
        let rest = t.pending.skip(1);
        assert forall|i: int| 0 <= i < rest.len() implies (#[trigger] rest[i]).seq
            < t.planner.next_seq by {
            assert(rest[i] == t.pending[i + 1]);
        }
        assert(increasing(rest)) by {
            assert forall|i: int, j: int| 0 <= i < j < rest.len() implies (#[trigger] rest[i]).seq < (
            #[trigger] rest[j]).seq by {
                assert(rest[i] == t.pending[i + 1] && rest[j] == t.pending[j + 1]);
            }
        }
        assert(t.pending[0].seq < t.planner.next_seq);
        if rest.len() > 0 {
            assert(rest[0] == t.pending[1]);
            assert(t.pending[0].seq < t.pending[1].seq);
        }
    }
    if let Event::Reloaded(Some(m)) = e {
        from_seq_is_in_order(m@.segments, t.planner.next_seq);
        let segments = from_seq(m@.segments, t.planner.next_seq);
        if segments.len() > 0 {
            assert forall|i: int| 0 <= i < segments.len() implies (#[trigger] segments[i]).seq
                <= segments.last().seq by {
                if i < segments.len() - 1 {
                    assert(segments[i].seq < segments[segments.len() - 1].seq);
                }
            }
            assert(segments[0].seq >= t.planner.next_seq);
        }
    }
}

/// The task of a station that was opened on a playlist in order, with its first start segments
/// gone or taken, is in order.
pub proof fn an_opened_task_is_in_order(media: MediaView, now: Instant, taken: nat, t: TaskView)
    requires
        in_order(media),
        taken <= fetched(started(media, now).1).len(),
        t.planner == started(media, now).0,
        t.pending == fetched(started(media, now).1).skip(taken as int),
    ensures
        task_in_order(t),
{
    let n = media.segments.len();
    let listed = fetched(started(media, now).1);
    let from = n - listed.len() + taken;
    assert forall|i: int| 0 <= i < t.pending.len() implies #[trigger] t.pending[i]
        == media.segments[from + i] by {}
    assert forall|i: int, j: int| 0 <= i < j < t.pending.len() implies (#[trigger] t.pending[i]).seq
        < (#[trigger] t.pending[j]).seq by {
        assert(media.segments[from + i].seq < media.segments[from + j].seq);
    }
    assert forall|i: int| 0 <= i < t.pending.len() implies (#[trigger] t.pending[i]).seq
        < t.planner.next_seq by {
        if from + i < n - 1 {
            assert(media.segments[from + i].seq < media.segments[n - 1].seq);
        }
    }
}

// ---------------------------------------------------------------------------------------------
// What the task does

/// The task has gone on to the segments `rest`: it fetches the first of them, anew, or waits for
/// the window where there is none.
pub open spec fn goes_on_with(
    t: TaskView,
    rest: Seq<SegmentView>,
    now: Instant,
    next: TaskView,
    action: ActionView,
) -> bool {
    &&& next.pending == rest
    &&& rest.len() > 0 ==> action == ActionView::Fetch && next.doing == (Doing::Fetching {
        first_try: now,
        retries: 0,
    })
    &&& rest.len() == 0 ==> action == ActionView::Wait(next.then_wait) && next.doing
        == Doing::Waiting
    &&& next.media_url == t.media_url && next.target_duration == t.target_duration
}

/// A segment that came is sent, its frames cleaned, and is done with; one of another format than
/// the first of the session ends the task; one without a frame is passed over. A payload that was
/// sent leads to the next segment.
pub proof fn a_segment_that_came_is_sent(
    t: TaskView,
    bytes: Vec<u8>,
    content_type: Option<String>,
    now: Instant,
)
    requires
        t.pending.len() > 0,
    ensures
        ({
            let e = Event::Fetched(Ok(SegmentFetch::Body { bytes, content_type }));
            let (next, action) = after_event(t, e, now);
            let frames = segment::frames_of(bytes@.skip(segment::tags_len(bytes@) as int));
            let changed = t.guard.first is Some && t.guard.first->0 != format_of(frames[0]);
            &&& frames.len() == 0 ==> goes_on_with(t, t.pending.skip(1), now, next, action)
                && next.guard == t.guard
            &&& frames.len() > 0 && changed ==> action == ActionView::End(Ended::FormatChanged)
            &&& frames.len() > 0 && !changed ==> {
                &&& action == ActionView::Send(cleaned(frames))
                &&& next.doing == Doing::Sending
                &&& next.pending == t.pending.skip(1)
                &&& next.guard.first == Some(format_of(frames[0]))
            }
            &&& next.planner == t.planner && next.then_wait == t.then_wait
            &&& goes_on_with(
                t,
                t.pending,
                now,
                after_event(t, Event::Sent, now).0,
                after_event(t, Event::Sent, now).1,
            )
        }),
{
}

/// A segment that did not come is tried again a second later, the same segment, as long as the rule
/// for its failure says so, with one more try counted; then it is given up, and the next one
/// follows. A 410 and a container that was refused are given up at once.
pub proof fn a_segment_that_failed_is_tried_again_or_given_up(
    t: TaskView,
    r: Result<SegmentFetch, StreamError>,
    first_try: Instant,
    retries: u32,
    now: Instant,
)
    requires
        t.pending.len() > 0,
        t.doing == (Doing::Fetching { first_try, retries }),
        retries < u32::MAX,
        r matches Ok(f) ==> !(f is Body),
        r matches Ok(SegmentFetch::Evicted(s)) ==> s == 404 || s == 410,
    ensures
        ({
            let (next, action) = after_event(t, Event::Fetched(r), now);
            let since = if now.nanos >= first_try.nanos {
                now.nanos - first_try.nanos
            } else {
                0
            };
            let again = match r {
                Ok(SegmentFetch::Evicted(s)) => s == 404 && retries < 2,
                Ok(_) => false,
                Err(_) => since + 1_000_000_000 <= super::believed(t.target_duration),
            };
            &&& again ==> {
                &&& action is Wait && action->Wait_0.nanos == 1_000_000_000
                &&& next.pending == t.pending
                &&& next.doing == (Doing::Pausing { first_try, retries: (retries + 1) as u32 })
                &&& after_event(next, Event::Waited, now) == (
                    TaskView {
                        doing: Doing::Fetching { first_try, retries: (retries + 1) as u32 },
                        ..next
                    },
                    ActionView::Fetch,
                )
            }
            &&& !again ==> goes_on_with(t, t.pending.skip(1), now, next, action)
            &&& next.planner == t.planner && next.guard == t.guard && next.then_wait
                == t.then_wait
        }),
{
}

/// After a wait for the window it is loaded again; what the planner makes of it is done: the
/// segments that are new are fetched, in order, or the wait goes on, or the task ends for the
/// cause that the planner names.
pub proof fn a_reload_follows_the_planner(t: TaskView, m: Option<MediaPlaylist>, now: Instant)
    requires
        t.pending.len() == 0,
        m matches Some(p) ==> can_take(t.planner, p@),
    ensures
        t.doing == Doing::Waiting ==> after_event(t, Event::Waited, now) == (
            TaskView { doing: Doing::Reloading, ..t },
            ActionView::Reload,
        ),
        ({
            let (next, action) = after_event(t, Event::Reloaded(m), now);
            let view = match m {
                Some(p) => Some(p@),
                None => None,
            };
            let (planner, step) = reloaded(t.planner, view, now);
            &&& next.planner == planner
            &&& step is Fetch ==> goes_on_with(t, step->segments, now, next, action)
                && next.then_wait == step->then_wait
            &&& step is Wait ==> action == ActionView::Wait(step->Wait_0) && next.doing
                == Doing::Waiting
            &&& step == StepView::End(EndCause::Stall) ==> action == ActionView::End(Ended::Stall)
            &&& step == StepView::End(EndCause::Restarted) ==> action == ActionView::End(
                Ended::Restarted,
            )
            &&& step == StepView::End(EndCause::EndList) ==> action == ActionView::End(
                Ended::EndList,
            )
            &&& next.guard == t.guard
        }),
{
}

/// A reload that failed, and one that brought something else than a media playlist, count for
/// nothing; any media playlist counts as it is.
pub proof fn only_a_media_playlist_is_a_reload(p: Result<PlaylistView, StreamError>)
    ensures
        p matches Ok(PlaylistView::Media(m)) ==> media_of(p) == Some(m),
        p matches Ok(PlaylistView::Master(_)) ==> media_of(p) is None,
        p is Err ==> media_of(p) is None,
{
}

} // verus!
