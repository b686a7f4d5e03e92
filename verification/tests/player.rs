//! The parts of the player: metadata, backoff, ring, equalizer, and the opening of a stream.

use ondar::eq::{changed_bands, EqGains, EqStep, FrameCursor, BAND_COUNT};
use ondar::icy::{block_len, parse_stream_title, stream_title, IcyReader, Want};
use ondar::reconnect::Backoff;
use ondar::ring::ring;
use ondar::stream::{
    chain_message, classify_http_error, classify_open_error, env_duration_secs, is_client_error,
    non_http_wording, parse_url, prefetch_bytes, read_timeout, resolved_timeouts, retry_after,
    retry_timeout, status_is_terminal, stream_facts, ErrorLink, HeldTimeouts, OpenFailure,
};
use ondar::time::Duration;
use ondar::types::ErrorCode;

// ---- metadata

fn meta_block(text: &str) -> Vec<u8> {
    let mut body = text.as_bytes().to_vec();
    let padded = body.len().div_ceil(16) * 16;
    body.resize(padded, 0);
    let mut out = vec![(padded / 16) as u8];
    out.extend(body);
    out
}

#[test]
fn parses_title() {
    assert_eq!(
        parse_stream_title(b"StreamTitle='Artist - Song';StreamUrl='';\0\0"),
        Some("Artist - Song".into())
    );
    assert_eq!(parse_stream_title(b"StreamTitle='';"), None);
    assert_eq!(
        parse_stream_title(b"StreamTitle='Don't Stop Me Now';"),
        Some("Don't Stop Me Now".into())
    );
}

/// A stream in memory behind the reader.
struct Memory {
    data: Vec<u8>,
    at: usize,
    reader: IcyReader,
    titles: Vec<String>,
}

impl Memory {
    fn new(data: Vec<u8>, metaint: Option<usize>) -> Memory {
        Memory {
            data,
            at: 0,
            reader: IcyReader::new(metaint),
            titles: Vec::new(),
        }
    }

    /// One read into a buffer of `len` bytes; `None` at the end of the stream.
    fn read(&mut self, len: usize) -> Option<Vec<u8>> {
        loop {
            match self.reader.want(len) {
                Want::Nothing => return Some(Vec::new()),
                Want::Metadata => {
                    let n = block_len(*self.data.get(self.at)?);
                    let block = &self.data[self.at + 1..self.at + 1 + n];
                    if let Some(t) = self.reader.read_metadata_block(block) {
                        self.titles.push(t);
                    }
                    self.at += 1 + n;
                }
                Want::Audio(n) => {
                    let n = n.min(self.data.len() - self.at);
                    if n == 0 {
                        return None;
                    }
                    let out = self.data[self.at..self.at + n].to_vec();
                    self.at += n;
                    self.reader.took(n);
                    return Some(out);
                }
            }
        }
    }
}

#[test]
fn strips_metadata_and_reports_titles() {
    let metaint = 8;
    let mut stream = Vec::new();
    stream.extend(b"AAAAAAAA");
    stream.extend(meta_block("StreamTitle='One';"));
    stream.extend(b"BBBBBBBB");
    stream.extend([0u8]); // empty metadata block
    stream.extend(b"CCCCCCCC");
    stream.extend(meta_block("StreamTitle='One';")); // duplicate: must not re-fire
    stream.extend(b"DDDD");

    let mut m = Memory::new(stream, Some(metaint));
    // Read in awkward chunk sizes to exercise the boundary logic.
    let mut audio: Vec<u8> = Vec::new();
    while let Some(chunk) = m.read(5) {
        audio.extend(chunk);
    }
    assert_eq!(audio, b"AAAAAAAABBBBBBBBCCCCCCCCDDDD");
    assert_eq!(m.titles, vec!["One".to_string()]);
}

#[test]
fn passthrough_without_metaint() {
    let mut m = Memory::new(b"hello".to_vec(), None);
    let mut out = Vec::new();
    while let Some(chunk) = m.read(32) {
        out.extend(chunk);
    }
    assert_eq!(out, b"hello");
}

#[test]
fn a_title_ends_before_the_end_of_data_or_the_next_key() {
    // A `';` inside a title.
    assert_eq!(
        stream_title("StreamTitle='It's 'Now'; or never';StreamUrl='x';"),
        Some("It's 'Now'; or never".into())
    );
    assert_eq!(
        stream_title("StreamTitle='a'; StreamUrl='x';\0"),
        Some("a".into())
    );
    // A key holds more than letters and digits, but no quote and no white space.
    for block in [
        "StreamTitle='Song';adw_ad='true';",
        "StreamTitle='Song';x-ad='1';",
        "StreamTitle='Song';a.b='1';",
        "StreamTitle='Song'; clé='1';",
    ] {
        assert_eq!(stream_title(block), Some("Song".into()), "{block}");
    }
    assert_eq!(
        stream_title("StreamTitle='A';B'C=1';StreamUrl='x';"),
        Some("A';B'C=1".into())
    );
    // No terminator with what belongs behind it: the first one; and none at all.
    assert_eq!(stream_title("StreamTitle='a';;"), Some("a".into()));
    assert_eq!(stream_title("StreamTitle='  a b "), Some("a b".into()));
    assert_eq!(stream_title("StreamUrl='x';"), None);
    assert_eq!(
        parse_stream_title(b"StreamTitle='R\xe1dio';"),
        Some("R\u{fffd}dio".into())
    );
}

// ---- backoff

#[test]
fn five_attempts_then_gives_up() {
    let mut b = Backoff::default();
    let delays: Vec<u128> = std::iter::from_fn(|| b.next())
        .map(|(_, d)| d.as_secs())
        .collect();
    assert_eq!(delays, vec![1, 2, 4, 8, 16]);
    assert!(b.next().is_none());
    b.reset();
    assert_eq!(b.next().map(|(a, _)| a), Some(1));
    assert_eq!(b.attempt(), 1);
}

// ---- ring

const HALF: u32 = 0x3f00_0000;
const QUARTER: u32 = 0x3e80_0000;
const ONE: u32 = 0x3f80_0000;

#[test]
fn underrun_run_increments_underruns_once() {
    let (mut h, mut src) = ring(100, 1);
    assert_eq!((HALF, QUARTER, ONE), (0.5f32.to_bits(), 0.25f32.to_bits(), 1.0f32.to_bits()));
    assert!(h.push(HALF));
    assert_eq!(src.next(), Some(HALF));
    assert_eq!(src.stats.underruns, 0);
    // A run of three consecutive underrun pops must count as one event, not three.
    assert_eq!(src.next(), Some(0.0f32.to_bits()));
    assert_eq!(src.next(), Some(0.0f32.to_bits()));
    assert_eq!(src.next(), Some(0.0f32.to_bits()));
    assert_eq!(src.stats.underruns, 1);
}

#[test]
fn underrun_zeroes_stale_fill_and_counts_separate_runs() {
    let (mut h, mut src) = ring(100, 1);
    // As if the decode thread reported a near-full ring just before hanging.
    src.stats.fill = 80;
    assert_eq!(src.next(), Some(0));
    assert_eq!(src.stats.fill, 0);
    assert_eq!(src.stats.underruns, 1);

    // A push and a pop end the run; a second, separate underrun run increments again.
    assert!(h.push(QUARTER));
    assert_eq!(src.next(), Some(QUARTER));
    assert_eq!(src.next(), Some(0));
    assert_eq!(src.stats.underruns, 2);
}

#[test]
fn ends_when_producer_dropped_and_drained() {
    let (mut h, mut src) = ring(100, 2);
    assert!(h.push(ONE));
    drop(h);
    assert_eq!(src.next(), Some(ONE));
    assert_eq!(src.next(), None);
    assert_eq!(src.next(), None);
}

#[test]
fn a_ring_holds_two_seconds_and_refuses_more() {
    let (mut h, mut src) = ring(10, 2);
    assert_eq!((h.capacity, src.stats.capacity), (40, 40));
    for i in 0..40 {
        assert_eq!(h.filled(), i as usize);
        assert!(h.push(i));
    }
    assert!(!h.push(99), "full");
    assert_eq!(h.filled(), 40);
    assert_eq!((h.filled_beside(40), h.filled_beside(15)), (0, 25));
    for i in 0..40 {
        assert_eq!(src.next(), Some(i));
    }
    assert_eq!(h.filled(), 0);
}

// ---- equalizer

#[test]
fn gains_are_clamped() {
    let mut g = EqGains::default();
    g.set(0, 99.0f32.to_bits());
    g.set(1, (-99.0f32).to_bits());
    g.set(2, 6.5f32.to_bits());
    g.set(3, f32::INFINITY.to_bits());
    g.set(4, f32::NAN.to_bits());
    g.set(BAND_COUNT, 1.0f32.to_bits()); // no such band
    assert_eq!(f32::from_bits(g.get(0)), 12.0);
    assert_eq!(f32::from_bits(g.get(1)), -12.0);
    assert_eq!(f32::from_bits(g.get(2)), 6.5);
    assert_eq!(f32::from_bits(g.get(3)), 12.0);
    assert!(f32::from_bits(g.get(4)).is_nan());
    assert_eq!(f32::from_bits(g.get(9)), 0.0);
}

#[test]
fn changed_gains_are_found() {
    let mut g = EqGains::default();
    let applied = g.snapshot();
    assert!(changed_bands(&applied, &g.snapshot()).is_empty());
    g.set(3, 1.0f32.to_bits());
    g.set(7, (-1.0f32).to_bits());
    g.set(8, (-0.0f32).to_bits());
    assert_eq!(changed_bands(&applied, &g.snapshot()), [3, 7]);
    let none = vec![f32::NAN.to_bits(); BAND_COUNT];
    assert_eq!(changed_bands(&none, &none).len(), BAND_COUNT);
}

#[test]
fn the_cursor_walks_the_frame_and_looks_every_64_frames() {
    let mut c = FrameCursor::new(48_000, 2);
    for frame in 1..=64 {
        let s = c.step(48_000, 2);
        assert_eq!((s.channel, s.rebuild, s.refresh), (0, false, frame == 64));
        let s = c.step(48_000, 2);
        assert_eq!((s.channel, s.rebuild, s.refresh), (1, false, false));
    }
    // A change in the middle of a frame is seen at the next one.
    c.step(48_000, 2);
    assert!(!c.step(44_100, 1).rebuild);
    assert_eq!(
        c.step(44_100, 1),
        EqStep {
            rebuild: true,
            refresh: false,
            channel: 0
        }
    );
    assert_eq!(c.step(44_100, 1).channel, 0);
}

// ---- opening a stream

#[test]
fn status_wording_is_not_a_non_http_answer() {
    assert!(!non_http_wording(
        "HTTP status server error (503 Service Unavailable)"
    ));
    assert!(non_http_wording("invalid HTTP version parsed"));
    let e = classify_http_error("HTTP status server error (503 Service Unavailable)".into());
    assert_eq!((e.code, e.terminal), (ErrorCode::Http, false));
    let e = classify_http_error("invalid HTTP version parsed".into());
    assert_eq!((e.code, e.terminal), (ErrorCode::Http, true));
}

fn link(message: &str, is_parse: bool) -> ErrorLink {
    ErrorLink {
        message: message.into(),
        is_parse,
    }
}

#[test]
fn a_failed_open_is_classified_by_its_chain() {
    let fetch = |chain: Vec<ErrorLink>, status| {
        let e = classify_open_error(OpenFailure::Fetch { chain, status });
        (e.code, e.terminal)
    };
    let top = || link("error sending request", false);
    assert_eq!(
        fetch(vec![top(), link("hyper", true), link("x", false)], None),
        (ErrorCode::Http, true)
    );
    assert_eq!(
        fetch(vec![top(), link("Invalid HTTP version", false)], None),
        (ErrorCode::Http, true)
    );
    assert_eq!(
        fetch(vec![top(), link("connection refused", false)], None),
        (ErrorCode::Network, false)
    );
    assert_eq!(fetch(vec![top()], Some(503)), (ErrorCode::Http, false));
    assert_eq!(fetch(vec![top()], Some(410)), (ErrorCode::Http, true));
    let e = classify_open_error(OpenFailure::Response {
        status: 429,
        retry_after: Some("7".into()),
        message: "m".into(),
    });
    assert_eq!(
        (e.code, e.terminal, e.retry_after, e.message.as_str()),
        (ErrorCode::Http, false, Some(Duration::from_secs(7)), "m")
    );
    assert_eq!(
        chain_message(&vec![link("a", false), link("b", false), link("c", false)]),
        "a: b: c"
    );
    for s in [401, 403, 404, 410] {
        assert!(status_is_terminal(s) && is_client_error(Some(s)));
    }
    for s in [400, 408, 429, 500, 503] {
        assert!(!status_is_terminal(s));
    }
    assert!(!is_client_error(None));
    assert_eq!(retry_after(Some(" 12 ")), Some(Duration::from_secs(12)));
    assert_eq!(retry_after(Some("Wed, 21 Oct 2015 07:28:00 GMT")), None);
    assert_eq!(retry_after(None), None);
}

fn answered(status: u16, header: Option<&str>) -> (ErrorCode, bool, Option<Duration>) {
    let e = classify_open_error(OpenFailure::Response {
        status,
        retry_after: header.map(String::from),
        message: "refused".into(),
    });
    (e.code, e.terminal, e.retry_after)
}

#[test]
fn icy_status_line_is_http_not_network() {
    let e = classify_open_error(OpenFailure::Fetch {
        chain: vec![
            link("error sending request for url (http://127.0.0.1/)", false),
            link("client error (SendRequest)", false),
            link("invalid HTTP version parsed", true),
        ],
        status: None,
    });
    assert_eq!((e.code, e.terminal), (ErrorCode::Http, true));
}

#[test]
fn a_5xx_status_is_http() {
    assert_eq!(answered(500, None), (ErrorCode::Http, false, None));
}

#[test]
fn a_4xx_status_is_http_and_terminal() {
    assert_eq!(answered(404, None), (ErrorCode::Http, true, None));
}

#[test]
fn a_429_is_http_retriable_and_carries_its_retry_after() {
    assert_eq!(
        answered(429, Some("7")),
        (ErrorCode::Http, false, Some(Duration::from_secs(7)))
    );
}

#[test]
fn a_403_is_http_and_terminal() {
    assert_eq!(answered(403, None), (ErrorCode::Http, true, None));
}

#[test]
fn a_refused_connection_is_network() {
    let e = classify_open_error(OpenFailure::Fetch {
        chain: vec![
            link("error sending request for url (http://127.0.0.1:9/stream)", false),
            link("client error (Connect)", false),
            link("tcp connect error", false),
            link("Connection refused (os error 111)", false),
        ],
        status: None,
    });
    assert_eq!((e.code, e.terminal), (ErrorCode::Network, false));
}

#[test]
fn a_url_is_parsed_or_refused() {
    assert_eq!(
        parse_url("HTTP://Example.com:80/a b").unwrap(),
        "http://example.com/a%20b"
    );
    let e = parse_url("example").unwrap_err();
    assert_eq!(
        (e.code, e.terminal, e.message.as_str()),
        (
            ErrorCode::InvalidUrl,
            true,
            "invalid stream URL: relative URL without a base"
        )
    );
}

#[test]
fn the_timeouts_keep_their_order() {
    let secs = Duration::from_secs;
    assert_eq!(resolved_timeouts(None, None), (secs(20), secs(5)));
    assert_eq!(resolved_timeouts(Some("3"), Some("8")), (secs(16), secs(8)));
    assert_eq!(resolved_timeouts(Some("0"), Some("0")), (secs(1), secs(0)));
    assert_eq!(resolved_timeouts(Some("1"), Some("0")), (secs(1), secs(0)));
    assert_eq!(resolved_timeouts(Some("1"), Some("1")), (secs(2), secs(1)));
    assert_eq!(resolved_timeouts(Some("8"), Some("8")), (secs(16), secs(8)));
    assert_eq!(read_timeout(Some("9"), Some("8")), secs(9));
    assert_eq!(retry_timeout(Some("x"), Some("-1")), secs(5));
    assert_eq!(env_duration_secs(Some("+7"), 1), secs(7));
    assert_eq!(env_duration_secs(Some(" 7"), 1), secs(1));
}

#[test]
fn the_head_start_fills_the_ring_and_covers_one_read() {
    assert_eq!(prefetch_bytes(None, None), 32_768);
    assert_eq!(prefetch_bytes(None, Some(64)), 32_768);
    assert_eq!(prefetch_bytes(None, Some(128)), 32_768);
    assert_eq!(prefetch_bytes(None, Some(320)), 80_000);
    assert_eq!(prefetch_bytes(Some("8192"), Some(320)), 8_192);
    assert_eq!(prefetch_bytes(None, Some(u32::MAX)), 1_073_741_823_750);
}

#[test]
fn the_headers_of_a_stream_are_read() {
    let f = stream_facts(
        Some(" 16000 "),
        Some("128"),
        Some(" Radio X "),
        Some(("audio", "mpeg")),
    );
    assert_eq!(f.metaint, Some(16_000));
    assert_eq!(f.bitrate_kbps, Some(128));
    assert_eq!(f.station_name.as_deref(), Some("Radio X"));
    assert_eq!(f.content_type.as_deref(), Some("audio/mpeg"));
    let f = stream_facts(Some("0"), Some("128,128"), None, None);
    assert_eq!((f.metaint, f.bitrate_kbps), (None, None));
    assert_eq!((f.station_name, f.content_type), (None, None));
}

#[test]
fn the_timeouts_are_resolved_once() {
    let secs = Duration::from_secs;
    let mut held = HeldTimeouts { pair: None };
    assert_eq!(held.resolve(Some("3"), Some("8")), (secs(16), secs(8)));
    assert_eq!(held.resolve(Some("30"), Some("1")), (secs(16), secs(8)));
    assert_eq!(held.resolve(None, None), (secs(16), secs(8)));
}

#[test]
fn a_run_reports_each_change_of_title_once() {
    let mut data = Vec::new();
    let titles = ["One", "One", "", "Two", "One", "Caf\u{e9}"];
    for t in titles {
        data.extend_from_slice(b"AAAA");
        data.extend(match t {
            "" => vec![0],
            t => meta_block(&format!("StreamTitle='{t}';")),
        });
    }
    data.extend_from_slice(b"BB");
    for buf in [1, 3, 64] {
        let mut m = Memory::new(data.clone(), Some(4));
        let mut audio = Vec::new();
        while let Some(chunk) = m.read(buf) {
            audio.extend(chunk);
        }
        assert_eq!(audio, [b"AAAA".repeat(6), b"BB".to_vec()].concat());
        assert_eq!(m.titles, ["One", "Two", "One", "Caf\u{e9}"]);
    }
}
