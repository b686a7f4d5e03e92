//! The engine: what the threads share, the tick, the commands and a session.

use ondar::engine::{
    advance_progress, decide_tick, dwell_for_tick, is_refilled, select_dwell, watchdog_ticks,
    Attach, Built, Engine, Feed, RingSeen, SessionAction, SessionRun, SessionSeen, Shared,
    TickActions, TickInputs, TickOutcome, Transition, DWELL_TICKS, DWELL_TICKS_UNSTABLE,
    UNDERRUN_PANIC_COUNT,
};
use ondar::reconnect::Backoff;
use ondar::stream::{
    classify_open_error, parse_url, ErrorLink, OpenFailure, StreamError, StreamFacts,
};
use ondar::time::{Duration, Instant};
use ondar::types::{EngineEvent, ErrorCode, PlaybackState, ReconnectInfo, StreamInfo};

use PlaybackState::{Buffering, Connecting, Paused, Playing, Reconnecting};

// ---- what the threads share

fn drive(s: &mut Shared, states: &[PlaybackState]) {
    for st in states {
        s.set_state(st.clone());
    }
}

fn started_ids(s: &mut Shared) -> Vec<String> {
    let mut ids = Vec::new();
    for ev in s.events.drain(..) {
        if let EngineEvent::Started { station_id } = ev {
            ids.push(station_id);
        }
    }
    ids
}

#[test]
fn started_fires_once_per_session_whatever_the_route_back_to_playing() {
    let mut s = Shared::new();
    s.begin_session("u1".into());
    drive(&mut s, &[Connecting, Buffering, Playing]);
    assert_eq!(started_ids(&mut s), vec!["u1"]);
    drive(&mut s, &[Buffering, Playing]); // an underrun's refill
    drive(&mut s, &[Paused, Playing]); // a resume
    drive(&mut s, &[Reconnecting { attempt: 1 }, Buffering, Playing]); // a reconnect
    assert_eq!(started_ids(&mut s), Vec::<String>::new());
}

#[test]
fn a_second_play_for_the_same_station_starts_again() {
    let mut s = Shared::new();
    s.begin_session("u1".into());
    drive(&mut s, &[Connecting, Buffering, Playing, Paused]);
    assert_eq!(started_ids(&mut s), vec!["u1"]);
    s.begin_session("u1".into());
    drive(&mut s, &[Connecting, Buffering, Playing]);
    assert_eq!(started_ids(&mut s), vec!["u1"]);
}

#[test]
fn a_session_that_reconnected_before_ever_playing_starts_on_its_first_playing() {
    let mut s = Shared::new();
    s.begin_session("u1".into());
    drive(
        &mut s,
        &[Connecting, Reconnecting { attempt: 1 }, Buffering, Playing],
    );
    assert_eq!(started_ids(&mut s), vec!["u1"]);
}

#[test]
fn paused_while_buffering_starts_on_resume() {
    let mut s = Shared::new();
    s.begin_session("u1".into());
    drive(&mut s, &[Connecting, Buffering, Paused, Playing]);
    let events: Vec<EngineEvent> = s.events.drain(..).collect();
    let playing_at = events
        .iter()
        .position(|e| matches!(e, EngineEvent::State(Playing)))
        .expect("State(Playing)");
    let started_at = events
        .iter()
        .position(|e| matches!(e, EngineEvent::Started { .. }))
        .expect("one Started");
    assert!(started_at > playing_at, "Started after State(Playing)");
    assert_eq!(
        events
            .iter()
            .filter(|e| matches!(e, EngineEvent::Started { .. }))
            .count(),
        1
    );
}

#[test]
fn a_repeated_playing_is_a_no_op() {
    let mut s = Shared::new();
    s.begin_session("u1".into());
    drive(&mut s, &[Playing, Playing]);
    let events: Vec<EngineEvent> = s.events.drain(..).collect();
    assert_eq!(events.len(), 2, "one State and one Started: {events:?}");
}

#[test]
fn a_stale_sessions_playing_cannot_take_the_new_sessions_started() {
    let mut s = Shared::new();
    let stale = s.begin_session("u1".into());
    s.write_state(Some(stale), Connecting);
    let live = s.begin_session("u2".into());
    s.set_state(Connecting); // the engine thread, as a play does
    s.write_state(Some(stale), Playing); // the race
    assert_eq!(s.state(), Connecting, "the stale write is dropped");
    assert_eq!(started_ids(&mut s), Vec::<String>::new());
    s.write_state(Some(live), Buffering);
    s.write_state(Some(live), Playing);
    assert_eq!(started_ids(&mut s), vec!["u2"]);
}

#[test]
fn a_cancelled_sessions_write_is_dropped_before_any_successor() {
    let mut s = Shared::new();
    let old = s.begin_session("u1".into());
    s.write_state(Some(old), Connecting);
    s.end_session(old);
    s.set_state(PlaybackState::Idle);
    s.write_state(Some(old), Playing);
    assert_eq!(s.state(), PlaybackState::Idle, "the late write is dropped");
    assert_eq!(started_ids(&mut s), Vec::<String>::new());
    // Ending it again changes nothing.
    let g = s.session.generation;
    s.end_session(old);
    assert_eq!(s.session.generation, g);
}

// ---- the decision of a tick

const CAP: usize = 1000;
// Comfortably above the 75% resume threshold.
const REFILLED: usize = 800;
const WD: u32 = 150;

fn ti() -> TickInputs {
    TickInputs {
        capacity: CAP,
        dwell: DWELL_TICKS,
        watchdog_ticks: WD,
        ..Default::default()
    }
}

#[test]
fn no_new_underrun_is_a_no_op() {
    let out = decide_tick(&Playing, ti());
    assert_eq!(
        out,
        TickOutcome {
            transition: None,
            reset_backoff: false
        }
    );
}

#[test]
fn new_underrun_while_playing_pauses_and_buffers() {
    let out = decide_tick(
        &Playing,
        TickInputs {
            new_underrun: true,
            fill: 100,
            ..ti()
        },
    );
    assert_eq!(out.transition, Some(Transition::PauseAndBuffer));
}

#[test]
fn new_underrun_while_playing_pauses_even_if_ring_already_refilled() {
    let out = decide_tick(
        &Playing,
        TickInputs {
            new_underrun: true,
            fill: CAP,
            ready_ticks: 100,
            ..ti()
        },
    );
    assert_eq!(out.transition, Some(Transition::PauseAndBuffer));
}

#[test]
fn new_underrun_while_buffering_is_not_repeated() {
    let out = decide_tick(
        &Buffering,
        TickInputs {
            new_underrun: true,
            fill: 100,
            ..ti()
        },
    );
    assert_eq!(out.transition, None);
}

#[test]
fn buffering_refilled_and_dwelled_resumes_playing() {
    let out = decide_tick(
        &Buffering,
        TickInputs {
            fill: REFILLED,
            ready_ticks: DWELL_TICKS,
            ..ti()
        },
    );
    assert_eq!(out.transition, Some(Transition::ResumePlaying));
}

#[test]
fn buffering_refilled_but_not_dwelled_enough_stays_buffering() {
    let out = decide_tick(
        &Buffering,
        TickInputs {
            fill: REFILLED,
            ready_ticks: DWELL_TICKS - 1,
            ..ti()
        },
    );
    assert_eq!(out.transition, None);
}

#[test]
fn buffering_refilled_and_dwelled_but_new_underrun_stays_buffering() {
    let out = decide_tick(
        &Buffering,
        TickInputs {
            new_underrun: true,
            fill: REFILLED,
            ready_ticks: DWELL_TICKS,
            ..ti()
        },
    );
    assert_eq!(out.transition, None);
}

#[test]
fn buffering_refilled_and_dwelled_resumes_paused_if_user_paused() {
    let out = decide_tick(
        &Buffering,
        TickInputs {
            fill: REFILLED,
            user_paused: true,
            ready_ticks: DWELL_TICKS,
            ..ti()
        },
    );
    assert_eq!(out.transition, Some(Transition::ResumePaused));
}

#[test]
fn user_paused_while_playing_suppresses_pause_on_new_underrun() {
    let out = decide_tick(
        &Playing,
        TickInputs {
            new_underrun: true,
            fill: 100,
            user_paused: true,
            ..ti()
        },
    );
    assert_eq!(out.transition, None);
}

#[test]
fn unstable_connection_requires_longer_dwell() {
    let out = decide_tick(
        &Buffering,
        TickInputs {
            fill: REFILLED,
            ready_ticks: DWELL_TICKS,
            dwell: DWELL_TICKS_UNSTABLE,
            ..ti()
        },
    );
    assert_eq!(out.transition, None);

    let out = decide_tick(
        &Buffering,
        TickInputs {
            fill: REFILLED,
            ready_ticks: DWELL_TICKS_UNSTABLE,
            dwell: DWELL_TICKS_UNSTABLE,
            ..ti()
        },
    );
    assert_eq!(out.transition, Some(Transition::ResumePlaying));
}

#[test]
fn stability_resets_backoff_regardless_of_transition() {
    let out = decide_tick(
        &Playing,
        TickInputs {
            stable: true,
            ..ti()
        },
    );
    assert!(out.reset_backoff);
    assert_eq!(out.transition, None);

    let out = decide_tick(
        &Playing,
        TickInputs {
            new_underrun: true,
            stable: true,
            ..ti()
        },
    );
    assert!(out.reset_backoff);
    assert_eq!(out.transition, Some(Transition::PauseAndBuffer));
}

#[test]
fn select_dwell_at_panic_boundary() {
    assert_eq!(select_dwell(0), DWELL_TICKS);
    assert_eq!(select_dwell(UNDERRUN_PANIC_COUNT - 1), DWELL_TICKS);
    assert_eq!(select_dwell(UNDERRUN_PANIC_COUNT), DWELL_TICKS_UNSTABLE);
    assert_eq!(select_dwell(UNDERRUN_PANIC_COUNT + 1), DWELL_TICKS_UNSTABLE);
}

#[test]
fn latched_dwell_survives_prune_mid_wait() {
    let mut latched = None;
    assert_eq!(
        dwell_for_tick(&mut latched, true, UNDERRUN_PANIC_COUNT),
        DWELL_TICKS_UNSTABLE
    );
    for _ in 0..50 {
        assert_eq!(
            dwell_for_tick(&mut latched, true, UNDERRUN_PANIC_COUNT - 1),
            DWELL_TICKS_UNSTABLE,
            "a prune mid-wait must not shorten the latched dwell"
        );
    }
}

#[test]
fn latch_clears_on_leaving_buffering() {
    let mut latched = None;
    assert_eq!(
        dwell_for_tick(&mut latched, true, UNDERRUN_PANIC_COUNT),
        DWELL_TICKS_UNSTABLE
    );
    // Resumed: not buffering, so the latch drops.
    dwell_for_tick(&mut latched, false, UNDERRUN_PANIC_COUNT);
    assert_eq!(latched, None);
    // A later, calmer wait gets its own selection rather than inheriting the old one.
    assert_eq!(dwell_for_tick(&mut latched, true, 0), DWELL_TICKS);
}

#[test]
fn no_progress_while_buffering_fails_session_at_threshold() {
    let out = decide_tick(
        &Buffering,
        TickInputs {
            ticks_since_progress: WD,
            ..ti()
        },
    );
    assert_eq!(out.transition, Some(Transition::FailSession));
}

#[test]
fn no_progress_while_buffering_below_threshold_does_not_fail() {
    let out = decide_tick(
        &Buffering,
        TickInputs {
            ticks_since_progress: WD - 1,
            ..ti()
        },
    );
    assert_eq!(out.transition, None);
}

#[test]
fn paused_with_full_ring_never_fails_session() {
    let out = decide_tick(
        &Buffering,
        TickInputs {
            user_paused: true,
            fill: CAP,
            ticks_since_progress: WD * 10,
            ..ti()
        },
    );
    assert_ne!(out.transition, Some(Transition::FailSession));
}

#[test]
fn paused_and_buffering_still_resumes_paused() {
    let out = decide_tick(
        &Buffering,
        TickInputs {
            user_paused: true,
            fill: REFILLED,
            ready_ticks: DWELL_TICKS,
            ticks_since_progress: WD * 10,
            ..ti()
        },
    );
    assert_eq!(out.transition, Some(Transition::ResumePaused));
}

#[test]
fn watchdog_does_not_fire_while_playing() {
    let out = decide_tick(
        &Playing,
        TickInputs {
            ticks_since_progress: WD * 10,
            ..ti()
        },
    );
    assert_eq!(out.transition, None);
}

#[test]
fn progress_resets_the_watchdog() {
    let (mut last, mut ticks) = (0u64, 0u32);
    for _ in 0..5 {
        advance_progress(&mut last, &mut ticks, 1024);
    }
    assert_eq!(
        ticks, 4,
        "first call observes the change, the rest are stalled ticks"
    );
    advance_progress(&mut last, &mut ticks, 2048);
    assert_eq!(ticks, 0, "a push must reset the stall counter");
    advance_progress(&mut last, &mut ticks, 2048);
    assert_eq!(ticks, 1);
}

#[test]
fn the_thresholds_are_exact() {
    assert!(is_refilled(750, 1000) && !is_refilled(749, 1000));
    assert!(is_refilled(usize::MAX, usize::MAX));
    assert_eq!(watchdog_ticks(Duration::from_secs(5)), 150);
    assert_eq!(watchdog_ticks(Duration::from_secs(1)), 150);
    assert_eq!(watchdog_ticks(Duration::from_secs(10)), 300);
}

// ---- the tick

fn t0() -> Instant {
    Instant::at(Duration::from_secs(1_000))
}

fn later(secs: u64) -> Instant {
    Instant {
        nanos: t0().nanos + Duration::from_secs(secs).nanos,
    }
}

fn ring(id: u64, underruns: u64, fill: usize, pushed: u64) -> SessionSeen {
    SessionSeen {
        reconnect_count: 0,
        ring: Some(RingSeen {
            id,
            underruns,
            fill,
            capacity: CAP,
            pushed,
        }),
    }
}

const IDLE: TickActions = TickActions {
    pause_output: false,
    play_output: false,
    cancel_download: false,
    reset_backoff: false,
};

/// An engine that plays a session on ring 1.
fn playing() -> (Engine, Shared) {
    let mut e = Engine::new(WD);
    let mut s = Shared::new();
    let (g, url) = e.begin_play(&mut s, "http://h/live", "u1".into()).unwrap();
    assert_eq!(url, "http://h/live");
    assert!(e.device_opened(&mut s, g, Ok(())));
    s.write_state(Some(g), Buffering);
    s.write_state(Some(g), Playing);
    assert_eq!(e.tick(&mut s, ring(1, 0, CAP, 1024), t0()), IDLE);
    s.events.clear();
    (e, s)
}

#[test]
fn an_underrun_buffers_and_the_refilled_ring_resumes_after_the_dwell() {
    let (mut e, mut s) = playing();
    let a = e.tick(&mut s, ring(1, 1, 0, 1024), t0());
    assert!(a.pause_output && !a.play_output);
    assert_eq!(s.state(), Buffering);
    for i in 0..9 {
        assert_eq!(
            e.tick(&mut s, ring(1, 1, REFILLED, 2048 + i), t0()),
            IDLE,
            "tick {i}"
        );
    }
    let a = e.tick(&mut s, ring(1, 1, REFILLED, 9999), t0());
    assert!(a.play_output);
    assert_eq!(s.state(), Playing);
    assert_eq!(started_ids(&mut s), Vec::<String>::new());
}

#[test]
fn three_underruns_lengthen_the_dwell_for_the_whole_wait() {
    let (mut e, mut s) = playing();
    let mut underruns = 0;
    let mut pushed = 1024;
    let mut wait = |e: &mut Engine, s: &mut Shared, underruns: u64| {
        assert!(e.tick(s, ring(1, underruns, 0, 0), t0()).pause_output);
        let mut n = 0;
        loop {
            pushed += 1;
            n += 1;
            if e.tick(s, ring(1, underruns, REFILLED, pushed), t0()).play_output {
                return n;
            }
        }
    };
    let mut waits = Vec::new();
    for _ in 0..3 {
        underruns += 1;
        waits.push(wait(&mut e, &mut s, underruns));
    }
    assert_eq!(waits, [10, 10, 40]);
}

#[test]
fn a_new_ring_starts_the_books_over() {
    let (mut e, mut s) = playing();
    // Another ring with underruns of its own is no new underrun.
    assert_eq!(e.tick(&mut s, ring(2, 7, 0, 0), t0()), IDLE);
    assert_eq!(s.state(), Playing);
    assert!(e.tick(&mut s, ring(2, 8, 0, 0), t0()).pause_output);
}

#[test]
fn the_watchdog_cancels_the_download_and_waits_again() {
    let (mut e, mut s) = playing();
    e.tick(&mut s, ring(1, 1, 0, 1024), t0());
    let mut fired = Vec::new();
    for i in 0..(2 * WD) {
        if e.tick(&mut s, ring(1, 1, 0, 1024), t0()).cancel_download {
            fired.push(i);
        }
    }
    // Two ticks without progress have passed before, and a full window follows each.
    assert_eq!(fired, [WD - 3, 2 * WD - 3]);
}

#[test]
fn stable_playback_resets_the_backoff_and_reconnects_are_told() {
    let (mut e, mut s) = playing();
    assert!(!e.tick(&mut s, ring(1, 0, CAP, 0), later(29)).reset_backoff);
    assert!(e.tick(&mut s, ring(1, 0, CAP, 0), later(30)).reset_backoff);
    let mut seen = ring(1, 0, CAP, 0);
    seen.reconnect_count = 3;
    e.tick(&mut s, seen, later(31));
    e.tick(&mut s, seen, later(32));
    assert_eq!(
        s.events,
        [EngineEvent::Reconnect(ReconnectInfo { count: 3 })]
    );
}

// ---- commands

#[test]
fn commands_write_the_state() {
    let (mut e, mut s) = playing();
    assert!(e.pause(&mut s, true));
    assert_eq!((s.state(), s.paused), (Paused, true));
    assert!(e.resume(&mut s, true));
    assert_eq!((s.state(), s.paused), (Playing, false));
    assert!(!e.resume(&mut s, true), "nothing to resume");
    assert!(!e.pause(&mut s, false), "no output");
    let g = e.session.unwrap();
    e.stop(&mut s);
    assert_eq!(s.state(), PlaybackState::Idle);
    assert!(!e.pause(&mut s, true), "no session");
    s.write_state(Some(g), Playing);
    assert_eq!(s.state(), PlaybackState::Idle, "a late write is dropped");
    // A URL that is none, and a device that does not open.
    assert_eq!(e.begin_play(&mut s, "not a url", "u2".into()), None);
    assert_eq!(
        s.state(),
        PlaybackState::Error {
            code: ErrorCode::InvalidUrl,
            message: "invalid stream URL: relative URL without a base".into()
        }
    );
    let (g, _) = e.begin_play(&mut s, "http://H", "u2".into()).unwrap();
    assert!(!e.device_opened(&mut s, g, Err("no device".into())));
    assert_eq!(
        s.state(),
        PlaybackState::Error {
            code: ErrorCode::Device,
            message: "no device".into()
        }
    );
    assert_eq!(parse_url("http://H").unwrap(), "http://h/");
}

// ---- a session

fn session() -> (SessionRun, Shared, Backoff) {
    let mut s = Shared::new();
    let g = s.begin_session("u1".into());
    s.set_state(Connecting);
    s.events.clear();
    (SessionRun::new(g), s, Backoff::default())
}

fn status(code: u16, retry_after: Option<&str>) -> StreamError {
    classify_open_error(OpenFailure::Response {
        status: code,
        retry_after: retry_after.map(|s| s.to_string()),
        message: format!("HTTP status {code}"),
    })
}

fn icy() -> StreamError {
    classify_open_error(OpenFailure::Fetch {
        chain: vec![
            ErrorLink {
                message: "error sending request".into(),
                is_parse: false,
            },
            ErrorLink {
                message: "invalid HTTP version parsed".into(),
                is_parse: true,
            },
        ],
        status: None,
    })
}

fn wait(secs: u64) -> SessionAction {
    SessionAction::Wait(Duration::from_secs(secs))
}

#[test]
fn an_icy_server_fails_the_session_on_the_first_attempt() {
    let (mut r, mut s, mut b) = session();
    assert_eq!(
        r.connected(&mut s, &mut b, Err(icy()), false),
        SessionAction::Exit
    );
    assert!(matches!(
        s.state(),
        PlaybackState::Error {
            code: ErrorCode::Http,
            ..
        }
    ));
    assert_eq!(b.attempt(), 0);
}

#[test]
fn a_404_fails_the_session_on_the_first_attempt() {
    let (mut r, mut s, mut b) = session();
    assert_eq!(
        r.connected(&mut s, &mut b, Err(status(404, None)), false),
        SessionAction::Exit
    );
    assert!(matches!(
        s.state(),
        PlaybackState::Error {
            code: ErrorCode::Http,
            ..
        }
    ));
}

#[test]
fn a_503_is_retried_through_the_backoff() {
    let (mut r, mut s, mut b) = session();
    for (attempt, delay) in [(1, 1), (2, 2), (3, 4), (4, 8), (5, 16)] {
        assert_eq!(
            r.connected(&mut s, &mut b, Err(status(503, None)), false),
            wait(delay)
        );
        assert_eq!(s.state(), Reconnecting { attempt });
        assert_eq!(r.waited(false), SessionAction::Connect);
    }
    assert_eq!(
        r.connected(&mut s, &mut b, Err(status(503, None)), false),
        SessionAction::Exit
    );
    assert_eq!(
        s.state(),
        PlaybackState::Error {
            code: ErrorCode::Http,
            message: "HTTP status 503 (gave up after 5 attempts)".into()
        }
    );
    assert_eq!(r.waited(true), SessionAction::Exit);
}

#[test]
fn a_429_is_retried_after_its_retry_after() {
    let (mut r, mut s, mut b) = session();
    assert_eq!(
        r.connected(&mut s, &mut b, Err(status(429, Some("3"))), false),
        wait(3)
    );
    assert_eq!(s.state(), Reconnecting { attempt: 1 });
    // Capped, and never below the backoff's own delay.
    assert_eq!(
        r.connected(&mut s, &mut b, Err(status(429, Some("3600"))), false),
        wait(30)
    );
    assert_eq!(
        r.connected(&mut s, &mut b, Err(status(429, Some("1"))), false),
        wait(4)
    );
}

fn facts() -> StreamFacts {
    StreamFacts {
        metaint: None,
        content_type: Some("audio/mpeg".into()),
        bitrate_kbps: Some(128),
        station_name: None,
    }
}

#[test]
fn a_404_on_a_reconnect_keeps_the_backoff() {
    let (mut r, mut s, mut b) = session();
    assert_eq!(
        r.connected(&mut s, &mut b, Ok(()), false),
        SessionAction::Build
    );
    assert_eq!(r.stream_ended(&mut s, &mut b, false), wait(1));
    assert_eq!(s.state(), Reconnecting { attempt: 1 });
    assert_eq!(
        r.connected(&mut s, &mut b, Err(status(404, None)), false),
        wait(2)
    );
    assert_eq!(s.state(), Reconnecting { attempt: 2 });
    assert_eq!(r.stream_ended(&mut s, &mut b, true), SessionAction::Exit);
}

#[test]
fn started_is_sent_once_per_session_across_a_reconnect() {
    let (mut r, mut s, mut b) = session();
    for _ in 0..2 {
        assert_eq!(
            r.connected(&mut s, &mut b, Ok(()), false),
            SessionAction::Build
        );
        let ready = Built::Ready {
            sample_rate: 44_100,
            channels: 1,
        };
        assert_eq!(
            r.built(&mut s, &mut b, &facts(), ready),
            SessionAction::Decode
        );
        let mut feed = Feed::new(88_200);
        for i in 0..1024 {
            assert_eq!(feed.pushed(), i == 1023);
        }
        assert_eq!(
            feed.report(&mut s, r.generation, 44_099),
            Attach {
                attach: false,
                play: false
            }
        );
        assert_eq!(
            feed.report(&mut s, r.generation, 44_100),
            Attach {
                attach: true,
                play: true
            }
        );
        assert_eq!(
            feed.report(&mut s, r.generation, 44_100),
            Attach {
                attach: false,
                play: false
            }
        );
        assert!(matches!(
            r.stream_ended(&mut s, &mut b, false),
            SessionAction::Wait(_)
        ));
    }
    assert_eq!(
        s.events[0],
        EngineEvent::StreamInfo(StreamInfo {
            content_type: Some("audio/mpeg".into()),
            bitrate_kbps: Some(128),
            station_name: None,
            sample_rate: 44_100,
            channels: 1,
        })
    );
    let playing = s
        .events
        .iter()
        .filter(|e| matches!(e, EngineEvent::State(Playing)))
        .count();
    assert_eq!(playing, 2);
    assert_eq!(started_ids(&mut s), vec!["u1"]);
}

#[test]
fn a_decoder_that_does_not_build_fails_by_its_cause() {
    let (r, mut s, mut b) = session();
    assert_eq!(
        r.built(&mut s, &mut b, &facts(), Built::Failed("io".into())),
        wait(1)
    );
    assert_eq!(
        r.built(&mut s, &mut b, &facts(), Built::Unrecognised),
        SessionAction::Exit
    );
    assert_eq!(
        s.state(),
        PlaybackState::Error {
            code: ErrorCode::UnsupportedFormat,
            message: "could not identify the audio format (audio/mpeg)".into()
        }
    );
    // A source that attaches while the listener has paused does not play.
    s.paused = true;
    let mut feed = Feed::new(10);
    assert_eq!(
        feed.report(&mut s, r.generation, 5),
        Attach {
            attach: true,
            play: false
        }
    );
    assert_eq!(s.state(), Paused);
}
