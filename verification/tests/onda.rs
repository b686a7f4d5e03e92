//! The small player.

use ondar::engine::{
    Built, RingSeen, SessionAction, SessionSeen, DWELL_TICKS, DWELL_TICKS_UNSTABLE,
    UNDERRUN_PANIC_COUNT,
};
use ondar::onda::engine::{
    connected, decide_tick, decoder_built, stream_ended, waited, Engine, Shared, TickOutcome,
    Transition,
};
use ondar::onda::stream::{classify_http_error, parse_url, prefetch_bytes};
use ondar::reconnect::Backoff;
use ondar::stream::StreamFacts;
use ondar::time::{Duration, Instant};
use ondar::types::{EngineEvent, ErrorCode, PlaybackState, ReconnectInfo};

const CAP: usize = 1000;
// Comfortably above the 75% resume threshold.
const REFILLED: usize = 800;

#[test]
fn engine_no_new_underrun_is_a_no_op() {
    let out = decide_tick(false, 0, CAP, &PlaybackState::Playing, false, false, 0, 0);
    assert_eq!(
        out,
        TickOutcome {
            transition: None,
            reset_backoff: false
        }
    );
}

#[test]
fn engine_new_underrun_while_playing_pauses_and_buffers() {
    let out = decide_tick(true, 100, CAP, &PlaybackState::Playing, false, false, 0, 0);
    assert_eq!(out.transition, Some(Transition::PauseAndBuffer));
}

#[test]
fn engine_new_underrun_while_playing_pauses_even_if_ring_already_refilled() {
    let out = decide_tick(
        true,
        CAP,
        CAP,
        &PlaybackState::Playing,
        false,
        false,
        100,
        0,
    );
    assert_eq!(out.transition, Some(Transition::PauseAndBuffer));
}

#[test]
fn engine_new_underrun_while_buffering_is_not_repeated() {
    let out = decide_tick(
        true,
        100,
        CAP,
        &PlaybackState::Buffering,
        false,
        false,
        0,
        0,
    );
    assert_eq!(out.transition, None);
}

#[test]
fn engine_buffering_refilled_and_dwelled_resumes_playing() {
    let out = decide_tick(
        false,
        REFILLED,
        CAP,
        &PlaybackState::Buffering,
        false,
        false,
        DWELL_TICKS,
        0,
    );
    assert_eq!(out.transition, Some(Transition::ResumePlaying));
}

#[test]
fn engine_buffering_refilled_but_not_dwelled_enough_stays_buffering() {
    let out = decide_tick(
        false,
        REFILLED,
        CAP,
        &PlaybackState::Buffering,
        false,
        false,
        DWELL_TICKS - 1,
        0,
    );
    assert_eq!(out.transition, None);
}

#[test]
fn engine_buffering_refilled_and_dwelled_but_new_underrun_stays_buffering() {
    let out = decide_tick(
        true,
        REFILLED,
        CAP,
        &PlaybackState::Buffering,
        false,
        false,
        DWELL_TICKS,
        0,
    );
    assert_eq!(out.transition, None);
}

#[test]
fn engine_buffering_refilled_and_dwelled_resumes_paused_if_user_paused() {
    let out = decide_tick(
        false,
        REFILLED,
        CAP,
        &PlaybackState::Buffering,
        true,
        false,
        DWELL_TICKS,
        0,
    );
    assert_eq!(out.transition, Some(Transition::ResumePaused));
}

#[test]
fn engine_user_paused_while_playing_suppresses_pause_on_new_underrun() {
    let out = decide_tick(true, 100, CAP, &PlaybackState::Playing, true, false, 0, 0);
    assert_eq!(out.transition, None);
}

#[test]
fn engine_unstable_connection_requires_longer_dwell() {
    let out = decide_tick(
        false,
        REFILLED,
        CAP,
        &PlaybackState::Buffering,
        false,
        false,
        DWELL_TICKS,
        UNDERRUN_PANIC_COUNT,
    );
    assert_eq!(out.transition, None);

    let out = decide_tick(
        false,
        REFILLED,
        CAP,
        &PlaybackState::Buffering,
        false,
        false,
        DWELL_TICKS_UNSTABLE,
        UNDERRUN_PANIC_COUNT,
    );
    assert_eq!(out.transition, Some(Transition::ResumePlaying));
}

#[test]
fn engine_stability_resets_backoff_regardless_of_transition() {
    let out = decide_tick(false, 0, CAP, &PlaybackState::Playing, false, true, 0, 0);
    assert!(out.reset_backoff);
    assert_eq!(out.transition, None);

    let out = decide_tick(true, 0, CAP, &PlaybackState::Playing, false, true, 0, 0);
    assert!(out.reset_backoff);
    assert_eq!(out.transition, Some(Transition::PauseAndBuffer));
}

fn seen(id: u64, underruns: u64, fill: usize, reconnect_count: u64) -> SessionSeen {
    SessionSeen {
        reconnect_count,
        ring: Some(RingSeen {
            id,
            underruns,
            fill,
            capacity: CAP,
            pushed: 0,
        }),
    }
}

#[test]
fn onda_supervises_its_ring() {
    let t = Instant::at(Duration::from_secs(1));
    let mut e = Engine::new();
    let mut s = Shared::new();
    assert_eq!(e.begin_play(&mut s, "nonsense"), None);
    assert!(matches!(
        s.state(),
        PlaybackState::Error {
            code: ErrorCode::InvalidUrl,
            ..
        }
    ));
    assert_eq!(
        e.begin_play(&mut s, "http://h"),
        Some("http://h/".to_string())
    );
    assert!(!e.device_opened(&mut s, 1, Err("gone".into())));
    assert!(e.device_opened(&mut s, 1, Ok(())));
    assert_eq!(s.state(), PlaybackState::Connecting);
    s.set_session_state(true, PlaybackState::Playing);
    assert_eq!(s.state(), PlaybackState::Connecting, "cancelled");
    s.set_session_state(false, PlaybackState::Playing);
    s.events.clear();
    e.tick(&mut s, seen(1, 0, CAP, 0), false, t);
    assert!(e.tick(&mut s, seen(1, 1, 0, 2), false, t).pause_output);
    assert_eq!(s.state(), PlaybackState::Buffering);
    assert_eq!(
        s.events[0],
        EngineEvent::Reconnect(ReconnectInfo { count: 2 })
    );
    for _ in 0..9 {
        assert!(!e.tick(&mut s, seen(1, 1, REFILLED, 2), false, t).play_output);
    }
    assert!(e.tick(&mut s, seen(1, 1, REFILLED, 2), false, t).play_output);
    assert_eq!(s.state(), PlaybackState::Playing);
    let a = e.tick(&mut s, seen(1, 1, REFILLED, 2), false, t);
    assert!(!a.reset_backoff);
    let later = Instant::at(Duration::from_secs(31));
    assert!(e.tick(&mut s, seen(1, 1, CAP, 2), false, later).reset_backoff);
    assert!(e.pause(&mut s, true));
    assert!(e.resume(&mut s, true));
    e.stop(&mut s);
    assert_eq!(s.state(), PlaybackState::Idle);
}

#[test]
fn onda_retries_every_failure() {
    let mut s = Shared::new();
    let mut b = Backoff::default();
    let e = classify_http_error("HTTP status 404".into());
    assert_eq!(e.code, ErrorCode::Http);
    assert_eq!(
        connected(&mut s, &mut b, Err(e.clone()), false),
        SessionAction::Wait(Duration::from_secs(1))
    );
    assert_eq!(s.state(), PlaybackState::Reconnecting { attempt: 1 });
    assert_eq!(
        stream_ended(&mut s, &mut b, false),
        SessionAction::Wait(Duration::from_secs(2))
    );
    let facts = StreamFacts {
        metaint: None,
        content_type: None,
        bitrate_kbps: None,
        station_name: None,
    };
    assert_eq!(
        decoder_built(
            &mut s,
            &mut b,
            facts.clone(),
            Built::Failed("io".into()),
            false
        ),
        SessionAction::Wait(Duration::from_secs(4))
    );
    assert_eq!(
        decoder_built(&mut s, &mut b, facts, Built::Unrecognised, false),
        SessionAction::Exit
    );
    assert_eq!(
        s.state(),
        PlaybackState::Error {
            code: ErrorCode::UnsupportedFormat,
            message: "could not identify the audio format (no content-type)".into()
        }
    );
    b.next();
    b.next();
    assert_eq!(
        connected(&mut s, &mut b, Err(e), false),
        SessionAction::Exit
    );
    assert_eq!(
        s.state(),
        PlaybackState::Error {
            code: ErrorCode::Http,
            message: "HTTP status 404 (gave up after 5 attempts)".into()
        }
    );
    assert_eq!(connected(&mut s, &mut b, Ok(()), true), SessionAction::Exit);
    assert_eq!(
        connected(&mut s, &mut b, Ok(()), false),
        SessionAction::Build
    );
    assert_eq!(waited(false), SessionAction::Connect);
}

#[test]
fn onda_reads_errors_by_their_words() {
    for m in ["HTTP Status 503", "Invalid HTTP x", "cannot PARSE", "version"] {
        assert_eq!(classify_http_error(m.into()).code, ErrorCode::Http, "{m}");
    }
    assert_eq!(
        classify_http_error("dns error".into()).code,
        ErrorCode::Network
    );
    assert_eq!(
        parse_url("x").unwrap_err().message,
        "invalid stream URL: relative URL without a base"
    );
    assert_eq!(prefetch_bytes(None), 32_768);
    assert_eq!(prefetch_bytes(Some("100")), 100);
    assert_eq!(prefetch_bytes(Some("1e3")), 32_768);
}
