//! HLS: the rules, the requests, the open and the fetch task.

use std::io::Write;

use flate2::write::GzEncoder;
use flate2::Compression;

use ondar::hls::fetch::{
    playlist_head, segment_head, ClientError, FetchedPlaylist, Head, SegmentBody, SegmentFetch,
    SegmentHead,
};
use ondar::hls::open::{after_playlist, Asked, Opened, Stage, Start, Tried};
use ondar::hls::playlist::parse;
use ondar::hls::segment::{normalise, Container};
use ondar::hls::task::{reloaded_media, Action, Ended, Event, FetchTask};
use ondar::hls::{
    after_failure, is_hls_content_type, log_normalised, logged_kind, refused_container,
    retry_timeout_for, segment_timeout, AfterFailure, Failure, Kind, PLAYLIST_MAX_BYTES,
    SEGMENT_MAX_BYTES,
};
use ondar::stream::{ErrorLink, StreamError};
use ondar::time::{Duration, Instant};
use ondar::types::ErrorCode;

#[test]
fn after_failure_bounds_every_retry() {
    let td = Duration::from_secs(3600);
    let zero = Duration::from_secs(0);
    let t = Failure::Transient("HTTP 503".into());
    assert_eq!(
        after_failure(&t, 28, Duration::from_secs(29), td),
        AfterFailure::Retry
    );
    assert_eq!(
        after_failure(&t, 29, Duration::from_millis(29_001), td),
        AfterFailure::Skip
    );
    assert_eq!(after_failure(&Failure::Gone, 0, zero, td), AfterFailure::Skip);
    let nf = Failure::NotFound(404);
    assert_eq!(after_failure(&nf, 0, zero, td), AfterFailure::Retry);
    assert_eq!(
        after_failure(&nf, 1, Duration::from_secs(1), td),
        AfterFailure::Retry
    );
    assert_eq!(
        after_failure(&nf, 2, Duration::from_secs(2), td),
        AfterFailure::Skip
    );
    // A 404 is retried twice even where the target duration is shorter than the two steps.
    assert_eq!(
        after_failure(&nf, 1, Duration::from_secs(1), Duration::from_secs(1)),
        AfterFailure::Retry
    );
}

#[test]
fn hls_content_types_match_case_insensitively_without_parameters() {
    for ct in [
        "application/vnd.apple.mpegurl",
        "application/vnd.apple.mpegurl; charset=UTF-8",
        "application/x-mpegURL",
        "Audio/X-MpegURL",
        "audio/mpegurl",
    ] {
        assert!(is_hls_content_type(ct), "{ct}");
    }
    for ct in [
        "audio/aac",
        "audio/mpeg",
        "text/html",
        "",
        "application/octet-stream",
    ] {
        assert!(!is_hls_content_type(ct), "{ct}");
    }
}

#[test]
fn hls_retry_timeout_is_above_the_longest_legitimate_silence() {
    assert_eq!(
        retry_timeout_for(Duration::from_secs(10)),
        Duration::from_secs(55)
    );
    assert_eq!(
        retry_timeout_for(Duration::from_secs(5)),
        Duration::from_secs(30)
    );
    assert_eq!(
        segment_timeout(Duration::from_secs(4)),
        Duration::from_secs(10)
    );
    assert_eq!(
        segment_timeout(Duration::from_secs(13)),
        Duration::from_secs(26)
    );
}

#[test]
fn a_failed_playlist_request_logs_the_kind_it_asked_for() {
    let base = "http://h/p.m3u8";
    let media = parse(
        "#EXTM3U\n#EXT-X-TARGETDURATION:5\n#EXTINF:5,\ns.aac\n",
        base,
    )
    .unwrap();
    let master = parse(
        "#EXTM3U\n#EXT-X-STREAM-INF:BANDWIDTH=1,CODECS=\"mp4a.40.2\"\nv.m3u8\n",
        base,
    )
    .unwrap();
    assert_eq!(logged_kind(Kind::Media, None), Kind::Media);
    assert_eq!(logged_kind(Kind::Master, None), Kind::Master);
    assert_eq!(logged_kind(Kind::Master, Some(&media)), Kind::Media);
    assert_eq!(logged_kind(Kind::Media, Some(&master)), Kind::Master);
}

#[test]
fn timeouts_on_an_absurd_target_duration_are_bounded() {
    let td = Duration::from_secs(u64::MAX);
    assert_eq!(segment_timeout(td), Duration::from_secs(60));
    assert_eq!(retry_timeout_for(td), Duration::from_secs(90 + 60 + 5));
    assert_eq!(
        segment_timeout(Duration::from_secs(0)),
        Duration::from_secs(10)
    );
}

// ---- requests

fn head(status: u16) -> Head {
    Head {
        url: "http://edge/p.m3u8".into(),
        status,
        status_text: format!("{status} Some Reason"),
        retry_after: None,
        content_type: Some(" audio/aac ".into()),
        content_encoding: None,
    }
}

fn failed(status: Option<u16>) -> ClientError {
    ClientError {
        chain: vec![
            ErrorLink {
                message: "error sending request".into(),
                is_parse: false,
            },
            ErrorLink {
                message: "connection refused".into(),
                is_parse: false,
            },
        ],
        status,
    }
}

fn gzip(bytes: &[u8]) -> Vec<u8> {
    let mut enc = GzEncoder::new(Vec::new(), Compression::default());
    enc.write_all(bytes).unwrap();
    enc.finish().unwrap()
}

#[test]
fn a_playlist_request_fails_by_its_cause() {
    let e = playlist_head(Kind::Media, "http://h/p.m3u8", Err(failed(None))).unwrap_err();
    assert_eq!(
        e,
        StreamError {
            code: ErrorCode::Network,
            message: "HLS media request to http://h/p.m3u8 failed: error sending request: connection refused".into(),
            terminal: false,
            retry_after: None,
        }
    );
    let e = playlist_head(Kind::Media, "http://h/p.m3u8", Err(failed(Some(404)))).unwrap_err();
    assert_eq!((e.code, e.terminal), (ErrorCode::Http, true));
    let mut h = head(429);
    h.retry_after = Some(" 7 ".into());
    let e = playlist_head(Kind::Master, "http://h/p.m3u8", Ok(h)).unwrap_err();
    assert_eq!(
        e,
        StreamError {
            code: ErrorCode::Http,
            message: "HLS master request to http://edge/p.m3u8 answered HTTP 429 Some Reason".into(),
            terminal: false,
            retry_after: Some(Duration::from_secs(7)),
        }
    );
    let b = playlist_head(Kind::Master, "http://h/p.m3u8", Ok(head(200))).unwrap();
    assert_eq!(
        b.broke(&failed(None)).message,
        "HLS playlist http://edge/p.m3u8: error sending request"
    );
}

#[test]
fn a_playlist_body_is_capped_inflated_and_made_text() {
    let mut b = playlist_head(Kind::Media, "u", Ok(head(200))).unwrap();
    assert_eq!(b.chunk(b"#EXT"), Ok(()));
    assert_eq!(b.chunk(b"M3U\xff"), Ok(()));
    let f = b.finish().unwrap();
    assert_eq!(f.url, "http://edge/p.m3u8");
    assert_eq!(f.text, "#EXTM3U\u{fffd}");

    let mut h = head(200);
    h.content_encoding = Some(" GZip".into());
    let mut b = playlist_head(Kind::Media, "u", Ok(h.clone())).unwrap();
    assert!(b.gzipped);
    b.chunk(&gzip("#EXTM3U é".as_bytes())).unwrap();
    assert_eq!(b.finish().unwrap().text, "#EXTM3U é");

    let mut b = playlist_head(Kind::Media, "u", Ok(h.clone())).unwrap();
    b.chunk(b"plain text, not gzip").unwrap();
    let e = b.finish().unwrap_err();
    assert_eq!(
        e.message,
        "HLS playlist http://edge/p.m3u8: content-encoding gzip but invalid gzip header"
    );
    assert_eq!((e.code, e.terminal), (ErrorCode::UnsupportedFormat, true));

    let mut b = playlist_head(Kind::Media, "u", Ok(h)).unwrap();
    b.chunk(&gzip(&vec![b' '; PLAYLIST_MAX_BYTES + 1])).unwrap();
    assert_eq!(
        b.finish().unwrap_err().message,
        "HLS playlist http://edge/p.m3u8 is over 1048576 bytes inflated"
    );

    let mut b = playlist_head(Kind::Media, "u", Ok(head(200))).unwrap();
    b.chunk(&vec![0; PLAYLIST_MAX_BYTES]).unwrap();
    assert_eq!(
        b.chunk(&[0]).unwrap_err().message,
        "HLS playlist http://edge/p.m3u8 is over 1048576 bytes"
    );
}

fn frame(sri: u8, payload: usize, fill: u8) -> Vec<u8> {
    let len = 7 + payload;
    let mut h = vec![
        0xFF,
        0xF1,
        (1 << 6) | (sri << 2),
        (2 << 6) | ((len >> 11) & 0x03) as u8,
        ((len >> 3) & 0xFF) as u8,
        ((len & 0x07) << 5) as u8 | 0x1F,
        0xFC,
    ];
    h.extend(std::iter::repeat(fill).take(payload));
    h
}

fn adts(sri: u8) -> Vec<u8> {
    let mut b = b"ID3\x04\x00\x00\x00\x00\x00\x0a0123456789".to_vec();
    for i in 0..6 {
        b.extend(frame(sri, 100, i));
    }
    b
}

fn ts() -> Vec<u8> {
    let mut b = vec![0u8; 3 * 188];
    for i in 0..3 {
        b[i * 188] = 0x47;
    }
    b
}

fn body(sniff: bool, encoding: Option<&str>) -> SegmentBody {
    let mut h = head(200);
    h.content_encoding = encoding.map(|e| e.to_string());
    match segment_head("http://h/s.aac", sniff, Ok(h)).unwrap() {
        SegmentHead::Read(b) => b,
        other => panic!("{other:?}"),
    }
}

#[test]
fn a_segment_head_is_a_body_an_eviction_or_an_error() {
    for status in [404, 410] {
        assert_eq!(
            segment_head("u", true, Ok(head(status))),
            Ok(SegmentHead::Evicted(status))
        );
    }
    for status in [401, 403] {
        let e = segment_head("u", true, Ok(head(status))).unwrap_err();
        assert_eq!((e.code, e.terminal), (ErrorCode::Http, true));
    }
    assert!(!segment_head("u", true, Ok(head(503))).unwrap_err().terminal);
    assert_eq!(
        segment_head("u", true, Err(failed(None))).unwrap_err().message,
        "HLS segment request to u failed: error sending request: connection refused"
    );
    assert_eq!(body(true, None).content_type.as_deref(), Some("audio/aac"));
}

#[test]
fn a_plain_segment_is_sniffed_at_its_head() {
    let ts = ts();
    let mut b = body(true, None);
    assert_eq!(b.chunk(&ts[..300]), Ok(None));
    assert_eq!(b.chunk(&ts[300..400]), Ok(Some(Container::MpegTs)));
    // Unsniffed, it is read whole.
    let mut b = body(false, None);
    assert_eq!(b.chunk(&ts), Ok(None));
    assert_eq!(
        b.finish(),
        Ok(SegmentFetch::Body {
            bytes: ts.clone(),
            content_type: Some("audio/aac".into())
        })
    );
    // ADTS goes on, and so does what follows it.
    let mut b = body(true, None);
    for chunk in adts(3).chunks(50) {
        assert_eq!(b.chunk(chunk), Ok(None));
    }
    assert!(b.sniffed_early);
    assert!(matches!(b.finish(), Ok(SegmentFetch::Body { bytes, .. }) if bytes == adts(3)));
    // A short segment is sniffed at its end.
    let mut b = body(true, None);
    assert_eq!(b.chunk(&ts[..200]), Ok(None));
    assert_eq!(b.finish(), Ok(SegmentFetch::Refused(Container::MpegTs)));
    let mut b = body(true, None);
    assert_eq!(b.chunk(b"<html>"), Ok(None));
    assert_eq!(b.finish(), Ok(SegmentFetch::Refused(Container::Unknown)));
}

#[test]
fn a_gzipped_segment_is_sniffed_when_it_is_inflated() {
    let mut b = body(true, Some("gzip"));
    assert_eq!(b.chunk(&gzip(&ts())), Ok(None));
    assert_eq!(b.finish(), Ok(SegmentFetch::Refused(Container::MpegTs)));
    let mut b = body(true, Some("gzip"));
    assert_eq!(b.chunk(&gzip(&adts(3))), Ok(None));
    assert!(matches!(b.finish(), Ok(SegmentFetch::Body { bytes, .. }) if bytes == adts(3)));
    let mut b = body(true, Some("gzip"));
    assert_eq!(b.chunk(b"not gzip at all"), Ok(None));
    assert_eq!(
        b.finish().unwrap_err().message,
        "HLS segment http://h/s.aac: gzip: not gzip: invalid gzip header"
    );
    let mut b = body(false, None);
    assert_eq!(b.chunk(&vec![0; SEGMENT_MAX_BYTES]), Ok(None));
    assert_eq!(
        b.chunk(&[0]).unwrap_err().message,
        "HLS segment http://h/s.aac is over 4194304 bytes"
    );
    assert_eq!(b.broke(&failed(None)).code, ErrorCode::Network);
}

#[test]
fn refusals_and_causes_have_their_words() {
    assert_eq!(
        refused_container(Container::MpegTs).message,
        "HLS with MPEG-TS segments is not supported yet"
    );
    assert_eq!(
        refused_container(Container::Fmp4).message,
        "HLS with fMP4 segments is not supported yet"
    );
    assert_eq!(
        refused_container(Container::Unknown).message,
        "HLS segment format not recognised"
    );
    assert_eq!(Failure::Gone.cause(), "HTTP 410");
    assert_eq!(Failure::NotFound(404).cause(), "HTTP 404");
    assert_eq!(Failure::Transient("x".into()).cause(), "x");
    assert_eq!(Kind::Segment.name(), "segment");
    assert_eq!(Ended::EndList.name(), "end_list");
    assert_eq!(log_normalised(7, &normalise(&adts(3))), None);
    let mut cut = adts(3);
    cut.extend_from_slice(b"garbage!");
    assert_eq!(
        log_normalised(7, &normalise(&cut)).unwrap(),
        "hls segment seq=7 frames=6 rewritten=0 crc_dropped=0 partial_dropped=0 sync_lost=Some((642, 8))"
    );
}

// ---- open

fn t0() -> Instant {
    Instant::at(Duration::from_secs(1_000))
}

fn later(secs: u64) -> Instant {
    Instant {
        nanos: t0().nanos + Duration::from_secs(secs).nanos,
    }
}

fn fetched(text: &str) -> Result<FetchedPlaylist, StreamError> {
    Ok(FetchedPlaylist {
        url: "http://h/dir/p.m3u8".into(),
        text: text.into(),
    })
}

fn media_text(first: u64, n: u64) -> String {
    let mut s = format!("#EXTM3U\n#EXT-X-TARGETDURATION:5\n#EXT-X-MEDIA-SEQUENCE:{first}\n");
    for i in 0..n {
        s.push_str(&format!("#EXTINF:5,\n{}.aac\n", first + i));
    }
    s
}

fn start(first: u64, n: u64) -> Start {
    match after_playlist(Stage::First, fetched(&media_text(first, n)), t0()).1 {
        Ok(Asked::Segments(s)) => s,
        other => panic!("{other:?}"),
    }
}

#[test]
fn a_master_leads_to_its_variant_and_a_variant_to_its_segments() {
    let master = "#EXTM3U\n#EXT-X-STREAM-INF:BANDWIDTH=96500,CODECS=\"mp4a.40.2\"\nv.m3u8\n";
    match after_playlist(Stage::First, fetched(master), t0()).1 {
        Ok(Asked::Variant { uri, bitrate_kbps }) => {
            assert_eq!(uri, "http://h/dir/v.m3u8");
            assert_eq!(bitrate_kbps, Some(96));
        }
        other => panic!("{other:?}"),
    }
    // A bandwidth past 32 bits is capped.
    let huge = "#EXTM3U\n#EXT-X-STREAM-INF:BANDWIDTH=18446744073709551615\nv.m3u8\n";
    assert!(matches!(
        after_playlist(Stage::First, fetched(huge), t0()).1,
        Ok(Asked::Variant {
            bitrate_kbps: Some(u32::MAX),
            ..
        })
    ));
    let stage = Stage::Variant {
        bitrate_kbps: Some(96),
    };
    assert_eq!(
        after_playlist(stage, fetched(master), t0()).1.unwrap_err().message,
        "HLS variant is another master playlist"
    );
    match after_playlist(stage, fetched(&media_text(10, 5)), t0()).1 {
        Ok(Asked::Segments(s)) => {
            assert_eq!(s.bitrate_kbps, Some(96));
            assert_eq!(s.candidate().seq, 12);
            assert_eq!(s.candidate().uri, "http://h/dir/12.aac");
            assert_eq!(s.planner.next_seq(), 15);
        }
        other => panic!("{other:?}"),
    }
    // Logged as what came, or as what was asked for.
    let kind = |stage, text: &str| after_playlist(stage, fetched(text), t0()).0;
    assert_eq!(kind(Stage::First, master), Kind::Master);
    assert_eq!(kind(Stage::First, &media_text(10, 5)), Kind::Media);
    assert_eq!(kind(Stage::First, "<html>"), Kind::Master);
    assert_eq!(kind(stage, master), Kind::Master);
    assert_eq!(kind(stage, "<html>"), Kind::Media);
    // Refusals.
    let e = after_playlist(Stage::First, fetched("<html>"), t0()).1.unwrap_err();
    assert_eq!(
        (e.code, e.terminal, e.message.as_str()),
        (
            ErrorCode::UnsupportedFormat,
            true,
            "not a playlist (no #EXTM3U)"
        )
    );
    let e = after_playlist(Stage::First, fetched(&media_text(1, 0)), t0()).1.unwrap_err();
    assert_eq!(
        (e.code, e.message.as_str()),
        (
            ErrorCode::Network,
            "HLS media playlist http://h/dir/p.m3u8 lists no segment"
        )
    );
    let video = "#EXTM3U\n#EXT-X-STREAM-INF:BANDWIDTH=1,CODECS=\"avc1\"\nv.m3u8\n";
    assert_eq!(
        after_playlist(Stage::First, fetched(video), t0()).1.unwrap_err().message,
        "HLS stream has no audio variant (video only: avc1)"
    );
    let last = media_text(u64::MAX, 1);
    assert_eq!(
        after_playlist(Stage::First, fetched(&last), t0()).1.unwrap_err().message,
        "malformed playlist: EXT-X-MEDIA-SEQUENCE:18446744073709551615"
    );
}

fn body_of(sri: u8) -> Result<SegmentFetch, StreamError> {
    Ok(SegmentFetch::Body {
        bytes: adts(sri),
        content_type: None,
    })
}

#[test]
fn start_segments_that_are_gone_are_passed_over() {
    let s = start(10, 5);
    let s = match s.tried(Ok(SegmentFetch::Evicted(404))) {
        Tried::Again(s) => s,
        other => panic!("{other:?}"),
    };
    assert_eq!(s.candidate().seq, 13);
    let s = match s.tried(Ok(SegmentFetch::Evicted(410))) {
        Tried::Again(s) => s,
        other => panic!("{other:?}"),
    };
    match s.tried(Ok(SegmentFetch::Evicted(404))) {
        Tried::Failed(e) => {
            assert_eq!(
                e.message,
                "HLS start segments are gone (404 at seq 14); the window moved on"
            );
            assert_eq!((e.code, e.terminal), (ErrorCode::Network, false));
        }
        other => panic!("{other:?}"),
    }
}

fn opened() -> Opened {
    match start(10, 5).tried(body_of(3)) {
        Tried::Opened(o) => o,
        other => panic!("{other:?}"),
    }
}

#[test]
fn the_first_segment_opens_the_station() {
    let o = opened();
    assert_eq!(o.first_payload, adts(3)[20..].to_vec());
    assert_eq!(o.content_type, "audio/aac");
    assert_eq!(o.retry_timeout, Duration::from_secs(30));
    assert_eq!(o.target_duration, Duration::from_secs(5));
    assert_eq!(o.guard.first().unwrap().sample_rate(), Some(48_000));
    assert_eq!(o.pending.iter().map(|s| s.seq).collect::<Vec<_>>(), [13, 14]);
    assert!(matches!(
        start(10, 5).tried(Ok(SegmentFetch::Refused(Container::Fmp4))),
        Tried::Failed(e) if e.code == ErrorCode::UnsupportedFormat
    ));
    let junk = SegmentFetch::Body {
        bytes: b"nothing to hear".to_vec(),
        content_type: None,
    };
    assert!(matches!(
        start(10, 5).tried(Ok(junk)),
        Tried::Failed(e) if e.message == "HLS segment format not recognised"
    ));
}

// ---- the task

fn payload(a: &Action) -> Vec<u8> {
    match a {
        Action::Send(b) => b.clone(),
        other => panic!("{other:?}"),
    }
}

#[test]
fn the_task_sends_every_segment_waits_and_reloads() {
    let (mut t, a) = FetchTask::new(opened());
    assert_eq!(payload(&a), adts(3)[20..].to_vec());
    assert_eq!(t.on(Event::Sent, t0()), Action::Fetch);
    assert_eq!(t.current().seq, 13);
    let a = t.on(Event::Fetched(body_of(3)), t0());
    assert_eq!(payload(&a), adts(3)[20..].to_vec());
    assert_eq!(t.on(Event::Sent, t0()), Action::Fetch);
    assert_eq!(t.current().seq, 14);
    // A segment without a frame is a gap.
    let junk = SegmentFetch::Body {
        bytes: b"nothing to hear".to_vec(),
        content_type: None,
    };
    assert_eq!(
        t.on(Event::Fetched(Ok(junk)), t0()),
        Action::Wait(Duration::from_secs(5))
    );
    assert_eq!(t.on(Event::Waited, later(5)), Action::Reload);
    // A failed reload waits half a target duration.
    let (kind, none) = reloaded_media(Err(StreamError {
        code: ErrorCode::Network,
        message: "x".into(),
        terminal: false,
        retry_after: None,
    }));
    assert!(none.is_none() && kind == Kind::Media);
    assert_eq!(
        t.on(Event::Reloaded(none), later(6)),
        Action::Wait(Duration::from_millis(2500))
    );
    assert_eq!(t.on(Event::Waited, later(9)), Action::Reload);
    let (_, m) = reloaded_media(fetched(&media_text(12, 5)));
    assert_eq!(t.on(Event::Reloaded(m), later(9)), Action::Fetch);
    assert_eq!(t.current().seq, 15);
    // Another format ends the source.
    assert_eq!(
        t.on(Event::Fetched(body_of(7)), later(9)),
        Action::End(Ended::FormatChanged)
    );
}

#[test]
fn the_task_retries_by_the_rule() {
    let (mut t, _) = FetchTask::new(opened());
    t.on(Event::Sent, t0());
    let step = Action::Wait(Duration::from_secs(1));
    // A 404 twice.
    for _ in 0..2 {
        assert_eq!(
            t.on(Event::Fetched(Ok(SegmentFetch::Evicted(404))), t0()),
            step
        );
        assert_eq!(t.on(Event::Waited, t0()), Action::Fetch);
        assert_eq!(t.current().seq, 13);
    }
    assert_eq!(
        t.on(Event::Fetched(Ok(SegmentFetch::Evicted(404))), t0()),
        Action::Fetch
    );
    assert_eq!(t.current().seq, 14);
    // A transient failure while the next try falls within the target duration.
    let err = || {
        Err(StreamError {
            code: ErrorCode::Http,
            message: "HTTP 503".into(),
            terminal: false,
            retry_after: None,
        })
    };
    assert_eq!(t.on(Event::Fetched(err()), later(4)), step);
    assert_eq!(t.on(Event::Waited, later(5)), Action::Fetch);
    assert_eq!(
        t.on(Event::Fetched(err()), later(5)),
        Action::Wait(Duration::from_secs(5))
    );
    // A 410 never; a closed reader ends the task.
    let (mut t, _) = FetchTask::new(opened());
    t.on(Event::Sent, t0());
    assert_eq!(
        t.on(Event::Fetched(Ok(SegmentFetch::Evicted(410))), t0()),
        Action::Fetch
    );
    assert_eq!(t.current().seq, 14);
    assert_eq!(t.on(Event::Closed, t0()), Action::End(Ended::Closed));
}

#[test]
fn the_task_ends_with_the_window() {
    let waiting = || {
        let (mut t, _) = FetchTask::new(opened());
        t.on(Event::Sent, t0());
        t.on(Event::Fetched(body_of(3)), t0());
        t.on(Event::Sent, t0());
        t.on(Event::Fetched(body_of(3)), t0());
        t.on(Event::Sent, t0());
        assert_eq!(t.on(Event::Waited, later(5)), Action::Reload);
        t
    };
    assert_eq!(
        waiting().on(Event::Reloaded(None), later(15)),
        Action::End(Ended::Stall)
    );
    let (_, back) = reloaded_media(fetched(&media_text(1, 3)));
    assert_eq!(
        waiting().on(Event::Reloaded(back), later(5)),
        Action::End(Ended::Restarted)
    );
    let done = format!("{}#EXT-X-ENDLIST\n", media_text(10, 5));
    let (_, done) = reloaded_media(fetched(&done));
    assert_eq!(
        waiting().on(Event::Reloaded(done), later(5)),
        Action::End(Ended::EndList)
    );
    // A master, and a last new segment that has no next, are failed reloads.
    let (kind, none) = reloaded_media(fetched("#EXTM3U\n#EXT-X-STREAM-INF:BANDWIDTH=1\nv\n"));
    assert!(none.is_none() && kind == Kind::Master);
    let (_, last) = reloaded_media(fetched(&media_text(u64::MAX, 1)));
    assert!(last.is_some());
    assert_eq!(
        waiting().on(Event::Reloaded(last.clone()), later(6)),
        Action::Wait(Duration::from_millis(2500))
    );
    assert_eq!(
        waiting().on(Event::Reloaded(last), later(15)),
        Action::End(Ended::Stall)
    );
}

#[test]
fn a_window_that_went_back_ends_the_stream_whatever_it_numbers() {
    let opened = match start(u64::MAX - 4, 3).tried(body_of(3)) {
        Tried::Opened(o) => o,
        other => panic!("{other:?}"),
    };
    let (mut t, _) = FetchTask::new(opened);
    t.on(Event::Sent, t0());
    for _ in 0..2 {
        t.on(Event::Fetched(body_of(3)), t0());
        t.on(Event::Sent, t0());
    }
    assert_eq!(t.on(Event::Waited, later(5)), Action::Reload);
    let (_, back) = reloaded_media(fetched(&media_text(u64::MAX - 5, 6)));
    assert_eq!(back.as_ref().unwrap().segments[5].seq, u64::MAX);
    assert_eq!(
        t.on(Event::Reloaded(back), later(5)),
        Action::End(Ended::Restarted)
    );
}
