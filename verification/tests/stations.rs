//! The station directory.

use ondar::stations::cache::{
    pending_migrations, Cache, CacheError, Stored, SCHEMA_VERSION, TTL_COUNTRIES, TTL_STATIONS,
};
use ondar::stations::client::{
    check_complete, countries_path, qenc, search_path, stations_path, Client, ClientError, Fetch,
    Next, Response, STATIONS_LIMIT, TOTAL_LIST_SECS, TOTAL_SMALL_SECS,
};
use ondar::stations::filter::{fold, rank, rank_folded, CAP};
use ondar::stations::model::{
    CacheSource, Codec, Country, ListedStations, RefreshOutcome, Station,
};
use ondar::stations::normalise::{codec, countries, station, stations, RawCountry, RawStation};
use ondar::stations::service::{
    country_key, search_answer, stations_fetched, written, Event, Service, ServiceError,
};
use ondar::stations::srv::{order, SrvRecord};
use ondar::stations::store::{
    add_favourite, is_favourite, list_favourites, list_recents, record_played, remove_favourite,
    Entry, RECENTS_CAP,
};
use ondar::stations::{client, store};
use ondar::time::{Duration, Instant};

// ---- server discovery

fn rec(priority: u16, weight: u16, target: &str) -> SrvRecord {
    SrvRecord {
        priority,
        weight,
        port: 443,
        target: target.into(),
    }
}

#[test]
fn the_order_of_the_answers_does_not_matter() {
    let records = [rec(1, 5, "b."), rec(0, 1, "c."), rec(1, 5, "a"), rec(1, 9, "d.")];
    let mut turned = records.to_vec();
    turned.rotate_left(2);
    turned.swap(0, 1);
    assert_eq!(order(records.to_vec()), ["c", "d", "a", "b"]);
    assert_eq!(order(turned), ["c", "d", "a", "b"]);
}

#[test]
fn lower_priority_first_then_higher_weight() {
    let hosts = order(vec![
        rec(2, 50, "b."),
        rec(1, 10, "c."),
        rec(1, 90, "a."),
        rec(2, 50, "a2."),
    ]);
    assert_eq!(hosts, ["a", "c", "a2", "b"]);
}

#[test]
fn no_records_means_the_measured_fallbacks() {
    assert_eq!(
        order(Vec::new()),
        ["de1.api.radio-browser.info", "all.api.radio-browser.info"]
    );
}

#[test]
fn a_host_that_repeats_is_tried_once() {
    let hosts = order(vec![
        rec(1, 1, "a.."),
        rec(1, 1, "a"),
        rec(2, 1, "a."),
        rec(1, 9, "b"),
    ]);
    assert_eq!(hosts, ["b", "a"]);
}

// ---- normalisation

/// 250 rows: 240 countries, nine of them once more in small letters, and `XX`.
fn country_rows() -> Vec<RawCountry> {
    let row = |iso: &str, name: &str, n: u32| RawCountry {
        name: name.into(),
        iso_3166_1: iso.into(),
        stationcount: n,
    };
    let doubled = ["CH", "DE", "FR", "GR", "NZ", "RU", "TR", "US", "UY"];
    let mut rows = Vec::new();
    for c in doubled {
        let (name, n) = if c == "DE" {
            ("Germany", 6410)
        } else {
            ("Somewhere", 100)
        };
        rows.push(row(c, &format!(" {name} "), n));
    }
    let mut others = 0;
    for a in b'A'..=b'Z' {
        for b in b'A'..=b'Z' {
            let code = String::from_utf8(vec![a, b]).unwrap();
            if others < 231 && code != "XX" && !doubled.contains(&code.as_str()) {
                rows.push(row(&code, &code, 7));
                others += 1;
            }
        }
    }
    rows.push(row("XX", "", 1));
    for c in doubled {
        rows.push(row(&c.to_ascii_lowercase(), "Somewhere", 1));
    }
    assert_eq!(rows.len(), 250);
    rows
}

#[test]
fn parses_p2_fixture_to_240_countries() {
    let cs = countries(country_rows());
    assert_eq!(cs.len(), 240);
    assert!(cs
        .iter()
        .all(|c| c.code.len() == 2 && c.code.bytes().all(|b| b.is_ascii_uppercase())));
    assert!(!cs.iter().any(|c| c.code == "XX"));
    assert_eq!(cs.iter().filter(|c| c.code == "DE").count(), 1);
}

#[test]
fn lowercase_codes_are_merged_into_the_uppercase_row_with_their_count() {
    let cs = countries(country_rows());
    let de = cs.iter().find(|c| c.code == "DE").expect("DE");
    assert_eq!(de.station_count, 6410 + 1);
    assert_eq!(de.name, "Germany");
}

#[test]
fn counts_that_do_not_fit_are_capped() {
    let row = |n| RawCountry {
        name: "x".into(),
        iso_3166_1: " pt".into(),
        stationcount: n,
    };
    let cs = countries(vec![row(u32::MAX), row(5)]);
    assert_eq!((cs.len(), cs[0].station_count), (1, u32::MAX));
}

fn raw(i: usize) -> RawStation {
    RawStation {
        stationuuid: format!("u{i}"),
        name: format!(" Station {i}"),
        url_resolved: format!("http://s{i}/ "),
        homepage: "h".into(),
        favicon: "f".into(),
        countrycode: "pt".into(),
        codec: "MP3".into(),
        bitrate: 128,
        hls: 0,
        lastcheckok: 1,
        votes: 0,
        clickcount: 3,
        clicktrend: -4,
        geo_lat: None,
        geo_long: None,
    }
}

/// `n` rows, the first with the most votes.
fn rows(n: usize) -> Vec<RawStation> {
    (0..n)
        .map(|i| RawStation {
            votes: (n - i) as i64,
            ..raw(i)
        })
        .collect()
}

/// 56 rows of one country: 6 broken (one of them without a URL), 8 without a bitrate, 25 HLS, and
/// six of the playable ones under another spelling of their names.
fn pt_rows() -> Vec<RawStation> {
    let mut all = rows(50);
    for r in all.iter_mut().take(5) {
        r.lastcheckok = 0;
    }
    for r in all.iter_mut().skip(10).take(8) {
        r.bitrate = 0;
    }
    for r in all.iter_mut().take(25) {
        r.hls = 1;
    }
    all[20].name = "RÁDIO Um".into();
    for i in 0..5 {
        let mut twin = raw(900 + i);
        twin.name = format!("STATION {} ", 30 + i);
        twin.url_resolved = format!("http://s{}/", 30 + i);
        all.push(twin);
    }
    let mut empty = raw(990);
    empty.url_resolved = " ".into();
    empty.lastcheckok = 0;
    all.push(empty);
    let mut accent = raw(20);
    accent.stationuuid = "accent".into();
    accent.name = "rádio um".into();
    all[49] = accent;
    all
}

#[test]
fn parses_pt60_fixture_with_its_edge_rows() {
    let ss = stations(pt_rows());
    assert_eq!(ss.len(), 56);
    assert!(ss.iter().all(|s| s.country_code == "PT"));
    assert_eq!(ss.iter().filter(|s| !s.last_check_ok).count(), 6);
    assert_eq!(
        ss.iter().filter(|s| s.bitrate_kbps.is_none()).count(),
        8,
        "bitrate 0 is None"
    );
    assert_eq!(ss.iter().filter(|s| s.hls).count(), 25);
    assert_eq!(
        ss.iter().filter(|s| s.url.is_empty()).count(),
        1,
        "one empty url_resolved row"
    );
}

#[test]
fn mt_fixture_is_the_whole_country() {
    let mut mt = rows(14);
    mt[0].name = "89.7 Bay".into();
    mt[0].bitrate = 256;
    let ss = stations(mt);
    assert_eq!(ss.len(), 14);
    assert_eq!(ss[0].name, "89.7 Bay");
    assert_eq!(ss[0].bitrate_kbps, Some(256));
    assert_eq!(ss[0].codec, Codec::Mp3);
    assert_eq!(ss[0].geo, None, "geo_lat null is None");
    assert_eq!((ss[1].url.as_str(), ss[1].click_count, ss[1].click_trend), ("http://s1/", 3, -4));
}

#[test]
fn codec_strings_map_and_video_is_flagged() {
    assert_eq!(codec("MP3"), (Codec::Mp3, false));
    assert_eq!(codec("AAC+"), (Codec::AacPlus, false));
    assert_eq!(codec("AAC"), (Codec::Aac, false));
    assert_eq!(codec("OGG"), (Codec::Ogg, false));
    assert_eq!(codec("UNKNOWN"), (Codec::Unknown, false));
    assert_eq!(codec(""), (Codec::Unknown, false));
    assert_eq!(codec("AAC,H.264"), (Codec::Aac, true));
    assert_eq!(codec("aac"), (Codec::Aac, false), "case-insensitive");
    assert_eq!(codec("hevc , flac, mp3"), (Codec::Flac, true));
}

#[test]
fn geo_both_zero_is_none() {
    let mk = |lat: Option<f64>, lng: Option<f64>| {
        station(RawStation {
            stationuuid: "u".into(),
            name: "n".into(),
            url_resolved: "http://x".into(),
            homepage: String::new(),
            favicon: String::new(),
            countrycode: "pt".into(),
            codec: "MP3".into(),
            bitrate: 128,
            hls: 0,
            lastcheckok: 1,
            votes: 0,
            clickcount: 0,
            clicktrend: 0,
            geo_lat: lat.map(f64::to_bits),
            geo_long: lng.map(f64::to_bits),
        })
    };
    assert_eq!(mk(Some(0.0), Some(0.0)).geo, None);
    assert_eq!(mk(Some(0.0), Some(-0.0)).geo, None);
    assert_eq!(mk(Some(38.7), None).geo, None);
    assert_eq!(
        mk(Some(38.7), Some(-9.1)).geo,
        Some((38.7f64.to_bits(), (-9.1f64).to_bits()))
    );
    assert_eq!(
        mk(None, None).country_code,
        "PT",
        "country code upper-cased"
    );
}

// ---- ranking

fn ranked_st(
    uuid: &str,
    name: &str,
    url: &str,
    votes: i64,
    bitrate: Option<u32>,
    trend: i64,
) -> Station {
    Station {
        uuid: uuid.into(),
        name: name.into(),
        url: url.into(),
        homepage: String::new(),
        favicon: String::new(),
        country_code: "PT".into(),
        codec: Codec::Mp3,
        codec_raw: "MP3".into(),
        bitrate_kbps: bitrate,
        hls: false,
        video: false,
        votes,
        click_count: 0,
        click_trend: trend,
        geo: None,
        last_check_ok: true,
    }
}

fn ids(v: &[Station]) -> Vec<&str> {
    v.iter().map(|s| s.uuid.as_str()).collect()
}

#[test]
fn bitrate_zero_sorts_last_among_equal_votes() {
    let out = rank(
        vec![
            ranked_st("a", "A", "http://a", 10, None, 99),
            ranked_st("b", "B", "http://b", 10, Some(128), 0),
        ],
        CAP,
    );
    assert_eq!(ids(&out), ["b", "a"]);
    // Votes still win over bitrate.
    let out = rank(
        vec![
            ranked_st("a", "A", "http://a", 11, None, 0),
            ranked_st("b", "B", "http://b", 10, Some(128), 0),
        ],
        CAP,
    );
    assert_eq!(out[0].uuid, "a");
}

#[test]
fn dedupe_keeps_the_higher_votes_row() {
    let out = rank(
        vec![
            ranked_st("first", " Rádio X ", "http://x", 3, Some(128), 0),
            ranked_st("second", "RÁDIO X", "http://x", 9, Some(128), 0),
        ],
        CAP,
    );
    assert_eq!(out.len(), 1);
    assert_eq!(out[0].uuid, "second");
    // A different url is a different station, whatever the name.
    let out = rank(
        vec![
            ranked_st("a", "Same", "http://a", 1, None, 0),
            ranked_st("b", "same", "http://b", 1, None, 0),
        ],
        CAP,
    );
    assert_eq!(out.len(), 2);
}

#[test]
fn broken_and_empty_url_rows_are_dropped() {
    let mut broken = ranked_st("x", "X", "http://x", 100, Some(128), 0);
    broken.last_check_ok = false;
    let empty = ranked_st("y", "Y", "", 100, Some(128), 0);
    let ok = ranked_st("z", "Z", "http://z", 1, Some(128), 0);
    let out = rank(vec![broken, empty, ok], CAP);
    assert_eq!(ids(&out), ["z"]);
}

#[test]
fn the_cap_truncates_after_sorting() {
    let many: Vec<Station> = (0..900)
        .map(|i| {
            ranked_st(
                &format!("u{i:04}"),
                &format!("N{i}"),
                &format!("http://{i}"),
                i,
                Some(128),
                0,
            )
        })
        .collect();
    let out = rank(many, CAP);
    assert_eq!(out.len(), CAP);
    assert_eq!(out[0].votes, 899, "highest votes first, then cut");
    assert_eq!(out[CAP - 1].votes, 899 - (CAP as i64 - 1));
}

#[test]
fn the_pt60_fixture_ranks_to_its_playable_rows() {
    let ss = stations(pt_rows());
    assert_eq!(ss.len(), 56);
    let out = rank(ss, CAP);
    // 56 rows, 6 broken, 50 playable, 44 distinct among the playable.
    assert_eq!(out.len(), 44);
    assert!(out.windows(2).all(|w| w[0].votes >= w[1].votes));
    assert!(out.iter().all(|s| s.last_check_ok && !s.url.is_empty()));
}

#[test]
fn equal_rows_are_ordered_by_trend_and_identifier() {
    let out = rank(
        vec![
            ranked_st("b", "1", "u1", 5, Some(1), 0),
            ranked_st("a", "2", "u2", 5, Some(9), 0),
            ranked_st("c", "3", "u3", 5, Some(1), 7),
        ],
        2,
    );
    assert_eq!(ids(&out), ["c", "a"]);
    assert_eq!(fold(" RÁDIO "), "rádio");
    // Of equal duplicates the first stays.
    let out = rank_folded(
        vec![
            ranked_st("x", "1", "u", 5, None, 0),
            ranked_st("y", "2", "u", 5, None, 9),
        ],
        vec!["k".into(), "k".into()],
        9,
    );
    assert_eq!(ids(&out), ["x"]);
}

// ---- the client

#[test]
fn stations_request_always_carries_an_explicit_limit() {
    let path = stations_path("pt");
    assert!(path.contains(&format!("limit={STATIONS_LIMIT}")), "{path}");
    assert!(path.contains("hidebroken=true"));
    assert!(
        path.starts_with("/json/stations/bycountrycodeexact/PT?"),
        "{path}"
    );
}

#[test]
fn a_full_page_is_reported_as_truncated() {
    assert!(matches!(
        check_complete(1000, 1000, None),
        Err(ClientError::Truncated {
            reason: "full page",
            ..
        })
    ));
    assert!(check_complete(999, 1000, None).is_ok());
}

#[test]
fn the_server_default_of_1000_is_reported_as_truncated() {
    assert!(matches!(
        check_complete(1000, STATIONS_LIMIT, Some(8190)),
        Err(ClientError::Truncated {
            reason: "server default 1000",
            ..
        })
    ));
    assert!(matches!(
        check_complete(1000, STATIONS_LIMIT, None),
        Err(ClientError::Truncated {
            reason: "server default 1000",
            ..
        })
    ));
}

#[test]
fn a_real_1000_station_country_is_not_truncated() {
    assert!(check_complete(1000, STATIONS_LIMIT, Some(1050)).is_ok());
    assert!(check_complete(1000, STATIONS_LIMIT, Some(1171)).is_ok());
    assert!(matches!(
        check_complete(1000, STATIONS_LIMIT, Some(1172)),
        Err(ClientError::Truncated {
            reason: "server default 1000",
            ..
        })
    ));
}

#[test]
fn far_below_station_count_is_reported_as_truncated() {
    assert!(matches!(
        check_complete(1200, STATIONS_LIMIT, Some(8190)),
        Err(ClientError::Truncated {
            reason: "far below station_count",
            ..
        })
    ));
    assert!(check_complete(7235, STATIONS_LIMIT, Some(8190)).is_ok());
    assert!(check_complete(4095, STATIONS_LIMIT, Some(8190)).is_ok());
}

/// A fetch driven on a clock of its own: the answers in order (the last repeated), and how long
/// each takes. The result, the URLs asked for, the pauses, and how often hosts were resolved.
fn drive(
    c: &mut Client,
    path: &str,
    total: Duration,
    script: Vec<Result<Response, String>>,
    takes: Duration,
) -> (
    Result<Vec<u8>, ClientError>,
    Vec<String>,
    Vec<Duration>,
    usize,
) {
    let mut now = Instant::at(Duration::from_secs(1_000));
    let mut fetch: Fetch = c.fetch(path.into(), total, now);
    let (mut urls, mut pauses, mut resolved) = (Vec::new(), Vec::new(), 0);
    let mut refresh = false;
    for i in 0.. {
        let host = match c.known_host(refresh) {
            Some(h) => h,
            None => {
                resolved += 1;
                c.resolved(vec!["de1.api.radio-browser.info".into()])
            }
        };
        urls.push(fetch.url(&host));
        now.nanos += takes.nanos;
        let answer = script[i.min(script.len() - 1)].clone();
        match fetch.answered(answer, now) {
            Next::Done(body) => return (Ok(body), urls, pauses, resolved),
            Next::Failed(e) => return (Err(e), urls, pauses, resolved),
            Next::Again { wait, refresh: r } => {
                refresh = r;
                now.nanos += wait.nanos;
                pauses.push(wait);
            }
        }
    }
    unreachable!()
}

fn ok(body: &[u8]) -> Result<Response, String> {
    Ok(Response {
        status: 200,
        body: body.to_vec(),
    })
}

fn status(code: u16) -> Result<Response, String> {
    Ok(Response {
        status: code,
        body: Vec::new(),
    })
}

fn small() -> Duration {
    Duration::from_secs(TOTAL_SMALL_SECS)
}

const ZERO: Duration = Duration { nanos: 0 };

#[test]
fn three_attempts_same_host_then_exhausted() {
    let mut c = Client::new();
    let (r, urls, pauses, resolved) = drive(
        &mut c,
        "/json/countries",
        small(),
        vec![Err("connect refused".into())],
        ZERO,
    );
    let err = r.unwrap_err();
    assert!(
        matches!(err, ClientError::Exhausted { attempts: 3, .. }),
        "{err:?}"
    );
    assert_eq!(urls.len(), 3, "a 4th attempt was made");
    assert!(
        urls.iter()
            .all(|u| u.starts_with("https://de1.api.radio-browser.info/")),
        "a second host was used: {urls:?}"
    );
    assert_eq!(
        resolved, 2,
        "resolved at first use and once more before attempt 2"
    );
    assert_eq!(pauses, [Duration::from_secs(1), Duration::from_secs(2)]);
    assert_eq!(
        err.message(),
        "radio-browser unreachable after 3 attempt(s) in 3s: connect refused"
    );
}

#[test]
fn the_retry_sequence_stops_at_its_wall_clock_budget() {
    for (budget, attempts) in [(4, 3u32), (2, 2)] {
        let mut c = Client::new().with_budget(Duration::from_secs(budget));
        let (r, urls, _, _) = drive(
            &mut c,
            "/json/countries",
            Duration::from_millis(100),
            vec![Err("timeout".into())],
            Duration::from_millis(400),
        );
        match r.unwrap_err() {
            ClientError::Exhausted { attempts: a, .. } => assert_eq!(a, attempts),
            other => panic!("{other:?}"),
        }
        assert_eq!(urls.len() as u32, attempts);
    }
}

#[test]
fn four_xx_does_not_retry_but_five_xx_and_429_do() {
    let mut c = Client::new();
    let (r, urls, _, _) = drive(&mut c, "/x", small(), vec![status(404)], ZERO);
    assert_eq!(r.unwrap_err(), ClientError::Http { status: 404 });
    assert_eq!(urls.len(), 1);
    assert_eq!(
        ClientError::Http { status: 404 }.message(),
        "radio-browser answered 404"
    );

    let (r, urls, _, _) = drive(
        &mut c,
        "/x",
        small(),
        vec![status(503), status(429), ok(b"[]")],
        ZERO,
    );
    assert_eq!(r.unwrap(), b"[]");
    assert_eq!(urls.len(), 3);
}

#[test]
fn list_requests_carry_the_long_total_and_small_ones_the_short() {
    let c = Client::new();
    let now = Instant::at(ZERO);
    let list = c.fetch(stations_path("PT"), Duration::from_secs(TOTAL_LIST_SECS), now);
    assert_eq!(list.total, Duration::from_secs(180));
    let few = c.fetch(countries_path(), small(), now);
    assert_eq!(few.total, Duration::from_secs(30));
    assert!(client::stations(Ok(rows(3)), None).is_ok());
}

#[test]
fn stations_applies_the_guard_to_the_parsed_rows() {
    let err = client::stations(Ok(rows(1000)), Some(8190)).unwrap_err();
    assert!(
        matches!(err, ClientError::Truncated { got: 1000, .. }),
        "{err:?}"
    );
    assert_eq!(
        err.message(),
        "station list truncated: got 1000 rows (expected Some(8190)) — server default 1000"
    );
    assert_eq!(
        client::stations(Err("eof".into()), None).unwrap_err().message(),
        "radio-browser JSON: eof"
    );
}

#[test]
fn an_empty_countries_answer_is_refused() {
    let err = client::countries(Ok(Vec::new())).unwrap_err();
    assert_eq!(err, ClientError::EmptyCountries);
    assert_eq!(err.message(), "the countries list came back empty");
}

#[test]
fn parses_the_countries_fixture_through_the_client() {
    let cs = client::countries(Ok(country_rows())).unwrap();
    assert_eq!(cs.len(), 240);
    let mut c = Client::new();
    assert_eq!(c.resolved(vec!["h".into()]), "h");
    let f = c.fetch(countries_path(), small(), Instant::at(ZERO));
    assert_eq!(f.url("h"), "https://h/json/countries?hidebroken=true");
    assert_eq!(c.resolved(Vec::new()), "de1.api.radio-browser.info");
}

#[test]
fn search_query_is_percent_encoded_and_results_are_ranked() {
    let mut all = rows(3);
    let mut broken = raw(7);
    broken.lastcheckok = 0;
    broken.votes = 99;
    all.push(broken);
    let mut twin = raw(0);
    twin.stationuuid = "d".into();
    twin.name = " station 0 ".into();
    twin.votes = 1;
    all.push(twin);
    let url = search_path("Rádio &");
    assert!(url.contains("name=R%C3%A1dio%20%26&"), "{url}");
    let out = client::search(Ok(all)).unwrap();
    assert_eq!(
        out.len(),
        3,
        "broken row dropped, duplicate merged: {:?}",
        ids(&out)
    );
    assert!(out.windows(2).all(|w| w[0].votes >= w[1].votes));
    assert_eq!(
        out[0].uuid, "u0",
        "the higher-votes row of the duplicate pair survives"
    );
    assert_eq!(qenc("aZ9-_.~ /€"), "aZ9-_.~%20%2F%E2%82%AC");
}

// ---- the cache

fn st(uuid: &str, votes: i64) -> Station {
    let mut s = ranked_st(
        uuid,
        &format!("Station {uuid}"),
        &format!("http://{uuid}/"),
        votes,
        Some(128),
        0,
    );
    s.country_code = "PT".into();
    s
}

const T0: i64 = 1_800_000_000;

fn pt() -> String {
    "PT".to_string()
}

#[test]
fn migrations_are_idempotent_and_versioned() {
    assert_eq!(pending_migrations(0), (1..=SCHEMA_VERSION).collect::<Vec<_>>());
    assert!(pending_migrations(SCHEMA_VERSION).is_empty());
    assert!(pending_migrations(u32::MAX).is_empty());
}

#[test]
fn a_stored_list_is_fresh_within_its_ttl_and_expired_one_second_past_it() {
    let mut cache = Cache::new();
    cache
        .put_stations(&pt(), &vec![st("a", 5), st("b", 3)], 10, T0)
        .unwrap();
    let s = cache.stations(&pt(), T0).unwrap();
    assert_eq!((s.age_secs, s.expired), (0, false));
    assert_eq!(ids(&s.items), ["a", "b"], "rank order");
    let s = cache.stations(&pt(), T0 + TTL_STATIONS - 1).unwrap();
    assert_eq!((s.age_secs, s.expired), ((TTL_STATIONS - 1) as u64, false));
    assert!(
        cache.stations(&pt(), T0 + TTL_STATIONS).unwrap().expired,
        "expired at exactly the time to live"
    );
    let s = cache.stations(&pt(), T0 + TTL_STATIONS + 1).unwrap();
    assert_eq!((s.age_secs, s.expired), ((TTL_STATIONS + 1) as u64, true));
    // A clock that went back.
    assert_eq!(cache.stations(&pt(), T0 - 5).unwrap().age_secs, 0);
}

#[test]
fn an_expired_list_is_kept_with_its_true_age_and_no_ceiling() {
    let mut cache = Cache::new();
    cache.put_stations(&pt(), &vec![st("a", 1)], 1, T0).unwrap();
    let s = cache
        .stations(&pt(), T0 + 9 * 24 * 3600)
        .expect("no age ceiling");
    assert_eq!(s.age_secs, 9 * 24 * 3600);
    assert!(s.expired);
    assert_eq!(s.fetched_at, T0);
    assert_eq!(s.items.len(), 1);
    assert!(
        cache.stations(&"ES".to_string(), T0).is_none(),
        "a country never fetched has no list"
    );
}

#[test]
fn put_replaces_the_list_atomically_and_updates_the_fetch_time() {
    let mut cache = Cache::new();
    cache
        .put_stations(&pt(), &vec![st("a", 1), st("b", 1)], 2, T0)
        .unwrap();
    cache
        .put_stations(&pt(), &vec![st("c", 1)], 5, T0 + 100)
        .unwrap();
    let s = cache.stations(&pt(), T0 + 100).unwrap();
    assert_eq!(ids(&s.items), ["c"]);
    assert_eq!(s.fetched_at, T0 + 100);
    assert_eq!(
        (cache.lists[0].source_rows, cache.lists[0].kept_rows),
        (5, 1)
    );
    // Another country's list is untouched.
    let es = "ES".to_string();
    cache.put_stations(&es, &vec![st("z", 1)], 1, T0).unwrap();
    cache.put_stations(&pt(), &vec![], 0, T0 + 200).unwrap();
    assert_eq!(cache.stations(&es, T0).unwrap().items.len(), 1);
    // An identifier that stands twice is refused, and nothing changes.
    let before = cache.clone();
    let e = cache
        .put_stations(&es, &vec![st("q", 1), st("q", 2)], 2, T0)
        .unwrap_err();
    assert_eq!(
        e.message(),
        "sqlite: UNIQUE constraint failed: stations.cc, stations.uuid"
    );
    assert_eq!(cache, before);
}

fn country(code: &str, name: &str, station_count: u32) -> Country {
    Country {
        code: code.into(),
        name: name.into(),
        station_count,
    }
}

#[test]
fn countries_round_trip_with_their_ttl_and_station_count() {
    let mut cache = Cache::new();
    assert!(cache.countries(T0).is_none());
    let cs = vec![country("PT", "Portugal", 371), country("MT", "Malta", 14)];
    cache.put_countries(&cs, T0).unwrap();
    let c = cache.countries(T0).unwrap();
    assert_eq!(c.items, cs);
    assert!(!c.expired);
    assert_eq!(cache.station_count("PT"), Some(371));
    assert_eq!(cache.station_count("XX"), None);
    assert!(cache.countries(T0 + TTL_COUNTRIES).unwrap().expired);
    let twice = vec![country("PT", "a", 1), country("PT", "b", 1)];
    assert_eq!(
        cache.put_countries(&twice, T0),
        Err(CacheError::Sqlite(
            "UNIQUE constraint failed: countries.code".into()
        ))
    );
    assert_eq!(
        CacheError::Json("eof".into()).message(),
        "stored station is not valid JSON: eof"
    );
    assert_eq!(cache.countries(T0).unwrap().items, cs);
}

#[test]
fn local_search_is_a_case_insensitive_substring_over_every_cached_list() {
    let mut cache = Cache::new();
    let mut a = st("a", 9);
    a.name = "Rádio Comercial".into();
    let mut b = st("b", 3);
    b.name = "RÁDIO Renascença".into();
    let mut c = st("c", 7);
    c.name = "Bay".into();
    cache.put_stations(&pt(), &vec![a, b], 2, T0).unwrap();
    cache
        .put_stations(&"MT".to_string(), &vec![c], 1, T0)
        .unwrap();
    let hits = cache.search_local("comercial", 10);
    assert_eq!(ids(&hits), ["a"]);
    let hits = cache.search_local("r", 10);
    assert_eq!(
        ids(&hits),
        ["a", "b"],
        "by votes, across countries; ASCII case is folded"
    );
    // Everything holds the empty query, and the limit holds.
    assert_eq!(ids(&cache.search_local("  ", 2)), ["a", "c"]);
}

#[test]
fn ranking_again_changes_nothing() {
    let mut twin = st("d", 1);
    twin.url = "http://a/".into();
    twin.name = st("a", 1).name;
    let once = rank(vec![st("a", 2), twin, st("b", 9), st("c", 2)], 3);
    assert_eq!(ids(&once), ["b", "a", "c"]);
    assert_eq!(rank(once.clone(), 3), once);
}

#[test]
fn local_search_takes_every_character_as_it_is() {
    let mut cache = Cache::new();
    let mut u = st("u", 2);
    u.name = "a_b".into();
    let mut v = st("v", 1);
    v.name = "a-b 100% hits".into();
    cache.put_stations(&pt(), &vec![u, v], 2, T0).unwrap();
    assert_eq!(ids(&cache.search_local("a_b", 10)), ["u"]);
    assert_eq!(ids(&cache.search_local(" A_B ", 10)), ["u"]);
    assert_eq!(ids(&cache.search_local("0% H", 10)), ["v"]);
    assert!(cache.search_local("a%b", 10).is_empty());
    assert!(cache.search_local("ab", 10).is_empty());
}

// ---- the store

#[test]
fn replay_moves_to_top_without_duplicate() {
    let mut recents: Vec<Entry> = Vec::new();
    record_played(&mut recents, &st("a", 1), T0);
    record_played(&mut recents, &st("b", 1), T0 + 10);
    record_played(&mut recents, &st("a", 1), T0 + 20);
    assert_eq!(ids(&list_recents(&recents)), ["a", "b"]);
}

#[test]
fn a_replay_within_one_second_moves_to_the_top() {
    let t: i64 = 1_800_000_000;
    let mut recents: Vec<Entry> = Vec::new();
    for uuid in ["a", "b", "a"] {
        record_played(&mut recents, &st(uuid, 1), t);
    }
    assert_eq!(ids(&list_recents(&recents)), ["a", "b"]);
    assert_eq!(recents.len(), 2);
    // In a full list of one time, the oldest play goes, not the replay.
    let mut recents: Vec<Entry> = Vec::new();
    for i in 0..RECENTS_CAP {
        record_played(&mut recents, &st(&format!("s{i:02}"), 1), t);
    }
    record_played(&mut recents, &st("s00", 1), t);
    record_played(&mut recents, &st("new", 1), t);
    let list = list_recents(&recents);
    assert_eq!(ids(&list)[..3], ["new", "s00", "s19"]);
    assert_eq!(ids(&list)[RECENTS_CAP - 1], "s02");
}

#[test]
fn recents_cap_evicts_the_oldest() {
    let mut recents: Vec<Entry> = Vec::new();
    for i in 0..(RECENTS_CAP + 5) {
        record_played(&mut recents, &st(&format!("s{i:02}"), 1), T0 + i as i64);
    }
    let list = list_recents(&recents);
    let ids = ids(&list);
    assert_eq!(ids.len(), RECENTS_CAP);
    assert_eq!(ids[0], "s24", "newest first");
    assert_eq!(ids[RECENTS_CAP - 1], "s05", "s00..s04 evicted");
    assert_eq!(
        recents.len(),
        RECENTS_CAP,
        "trimmed in the table, not only in the list"
    );
}

#[test]
fn favourite_survives_list_replacement() {
    let mut cache = Cache::new();
    let mut favourites: Vec<Entry> = Vec::new();
    let fav = st("fav", 5);
    cache
        .put_stations(&pt(), &vec![fav.clone(), st("x", 1)], 2, T0)
        .unwrap();
    add_favourite(&mut favourites, &fav, T0);
    cache
        .put_stations(&pt(), &vec![st("y", 1)], 1, T0 + 1)
        .unwrap();
    let favs = list_favourites(&favourites);
    assert_eq!(favs.len(), 1);
    assert_eq!(favs[0].url, "http://fav/");
    assert!(is_favourite(&favourites, "fav"));
}

#[test]
fn add_is_idempotent_and_remove_reports_whether_it_removed() {
    let mut favs: Vec<Entry> = Vec::new();
    add_favourite(&mut favs, &st("a", 1), T0);
    add_favourite(&mut favs, &st("b", 1), T0 + 1);
    add_favourite(&mut favs, &st("a", 1), T0 + 1);
    assert_eq!(
        ids(&list_favourites(&favs)),
        ["b", "a"],
        "most recently added first; a re-add keeps its place"
    );
    assert!(remove_favourite(&mut favs, "a"));
    assert!(!remove_favourite(&mut favs, "a"));
    assert!(!is_favourite(&favs, "a"));
    assert_eq!(store::list_favourites(&favs).len(), 1);
    // A re-add takes the new snapshot.
    let mut renamed = st("b", 9);
    renamed.name = "B".into();
    add_favourite(&mut favs, &renamed, T0 + 9);
    assert_eq!((favs[0].at, favs[0].station.name.as_str()), (T0 + 1, "B"));
    // Of one time, the last put in comes first.
    add_favourite(&mut favs, &st("c", 1), T0 + 1);
    assert_eq!(ids(&list_favourites(&favs)), ["c", "b"]);
}

// ---- the service

/// The service with its cache, and what it told.
struct Desk {
    service: Service,
    cache: Cache,
    now: i64,
    fetches: Vec<String>,
    events: Vec<Event>,
    replies: Vec<(u64, Result<ListedStations, ServiceError>)>,
    /// The cache cannot be written.
    read_only: bool,
}

impl Desk {
    fn new(cache: Cache, now: i64) -> Desk {
        Desk {
            service: Service::new(),
            cache,
            now,
            fetches: Vec::new(),
            events: Vec::new(),
            replies: Vec::new(),
            read_only: false,
        }
    }

    fn list(&mut self, cc: &str, reply: u64) {
        let key = country_key(cc).unwrap();
        let cached = Ok(self.cache.stations(&key, self.now));
        let r = self.service.list_stations(&key, reply, cached);
        if let Some(a) = r.answer {
            self.replies.push((reply, a));
        }
        if r.fetch {
            self.fetches.push(key);
        }
    }

    fn done(&mut self, cc: &str, result: Result<Vec<Station>, ClientError>) {
        let key = cc.to_string();
        let stored = match stations_fetched(result) {
            Err(e) => Err(e),
            Ok((ranked, source_rows)) => {
                let put = if self.read_only {
                    Err(CacheError::Sqlite(
                        "attempt to write a readonly database".into(),
                    ))
                } else {
                    self.cache.put_stations(&key, &ranked, source_rows, self.now)
                };
                written(ranked, self.now, put)
            }
        };
        let d = self.service.stations_done(&key, stored);
        for w in d.waiters {
            self.replies.push((w, d_clone(&d.result)));
        }
        self.events.push(d.event);
    }
}

fn d_clone(r: &Result<ListedStations, ServiceError>) -> Result<ListedStations, ServiceError> {
    r.clone()
}

fn expired_pt(now: i64) -> Desk {
    let mut cache = Cache::new();
    cache
        .put_stations(&pt(), &vec![st("old", 1)], 1, T0)
        .unwrap();
    Desk::new(cache, now)
}

fn updated(cc: &str, outcome: RefreshOutcome) -> Event {
    Event::StationsUpdated {
        country_code: cc.into(),
        outcome,
    }
}

fn exhausted() -> ClientError {
    ClientError::Exhausted {
        last: "connect refused".into(),
        attempts: 3,
        elapsed: ZERO,
    }
}

#[test]
fn a_blocked_fetch_does_not_delay_store_calls() {
    let mut d = Desk::new(Cache::new(), T0);
    d.list("US", 1);
    assert_eq!(d.fetches, ["US"], "the fetch started");
    assert!(d.replies.is_empty(), "and holds its caller");
    assert!(list_favourites(&vec![]).is_empty());
    d.done("US", Ok(stations(rows(3))));
    let us = d.replies[0].1.as_ref().unwrap();
    assert_eq!(us.source, CacheSource::Fresh);
    assert_eq!(us.items.len(), 3);
    assert!(!us.refreshing);
}

#[test]
fn concurrent_requests_for_one_country_share_one_fetch() {
    let mut d = Desk::new(Cache::new(), T0);
    for i in 0..3 {
        d.list("us", i);
    }
    assert_eq!(d.fetches, ["US"], "one fetch for three callers");
    assert!(d.replies.is_empty());
    d.done("US", Ok(stations(rows(2))));
    assert_eq!(d.replies.len(), 3);
    for (i, (reply, r)) in d.replies.iter().enumerate() {
        let r = r.as_ref().unwrap();
        assert_eq!(*reply, i as u64);
        assert_eq!(r.source, CacheSource::Fresh);
        assert_eq!(r.country_code, "US");
        assert!(!r.refreshing);
    }
    assert_eq!(d.fetches.len(), 1);
}

#[test]
fn an_expired_list_is_served_before_the_refresh_completes() {
    let mut d = expired_pt(T0 + 25 * 3600);
    d.list("PT", 1);
    let r = d.replies[0].1.as_ref().unwrap();
    assert_eq!(r.source, CacheSource::Cached);
    assert!(r.refreshing);
    assert_eq!(r.age_secs, 25 * 3600);
    assert_eq!(r.items[0].uuid, "old");
    assert_eq!(d.fetches, ["PT"], "the refresh started in the background");
    d.list("PT", 2);
    assert_eq!(d.fetches.len(), 1, "and no second one");
}

#[test]
fn stations_updated_fires_once_when_the_refresh_lands() {
    let mut d = expired_pt(T0 + TTL_STATIONS + 1);
    d.list("PT", 1);
    assert!(d.replies[0].1.as_ref().unwrap().refreshing);
    d.done("PT", Ok(stations(rows(4))));
    assert_eq!(d.events, [updated("PT", RefreshOutcome::Landed)]);
    d.list("PT", 2);
    let again = d.replies[1].1.as_ref().unwrap();
    assert_eq!(again.source, CacheSource::Cached);
    assert!(!again.refreshing);
    assert_eq!(again.age_secs, 0, "fetched_at is the landing time");
    assert_eq!(again.items.len(), 4, "the new list");
    assert_eq!(d.fetches.len(), 1, "a fresh list is not refetched");
}

#[test]
fn a_missing_list_returns_the_error_when_every_attempt_fails_and_an_expired_one_is_kept() {
    let mut d = Desk::new(Cache::new(), T0);
    d.list("US", 1);
    d.done("US", Err(exhausted()));
    assert!(matches!(
        d.replies[0].1,
        Err(ServiceError::Client(ClientError::Exhausted {
            attempts: 3,
            ..
        }))
    ));
    assert_eq!(d.events, [updated("US", RefreshOutcome::Failed)]);
    // With an expired list present: served, the refresh fails, the list is still there.
    let mut d = expired_pt(T0 + 9 * 24 * 3600);
    d.list("PT", 1);
    let r = d.replies[0].1.as_ref().unwrap();
    assert!(r.refreshing && r.age_secs == 9 * 24 * 3600);
    d.done("PT", Err(exhausted()));
    assert_eq!(d.events, [updated("PT", RefreshOutcome::Failed)]);
    d.list("PT", 2);
    assert_eq!(
        d.replies[1].1.as_ref().unwrap().items[0].uuid,
        "old",
        "no age ceiling"
    );
}

#[test]
fn a_failed_refresh_ends_with_one_failed_event() {
    let mut d = expired_pt(T0 + TTL_STATIONS + 1);
    d.list("PT", 1);
    assert!(d.replies[0].1.as_ref().unwrap().refreshing);
    d.done("PT", Err(exhausted()));
    assert_eq!(d.events, [updated("PT", RefreshOutcome::Failed)]);
    assert_eq!(d.fetches.len(), 1, "one fetch");
}

#[test]
fn a_refused_cache_write_ends_as_failed_not_landed() {
    let mut d = expired_pt(T0 + TTL_STATIONS + 1);
    d.read_only = true;
    d.list("PT", 1);
    d.done("PT", Ok(stations(rows(4))));
    assert_eq!(d.events, [updated("PT", RefreshOutcome::Failed)]);
    assert_eq!(d.fetches.len(), 1);
    d.list("PT", 2);
    assert_eq!(
        d.replies[1].1.as_ref().unwrap().items[0].uuid,
        "old",
        "nothing replaced"
    );
    // A caller with no list gets the cache's error.
    let mut d = Desk::new(Cache::new(), T0);
    d.read_only = true;
    d.list("US", 1);
    d.done("US", Ok(stations(rows(4))));
    assert_eq!(
        d.replies[0].1,
        Err(ServiceError::Cache(
            "sqlite: attempt to write a readonly database".into()
        ))
    );
    assert_eq!(d.events, [updated("US", RefreshOutcome::Failed)]);
    assert_eq!(
        d.replies[0].1.as_ref().unwrap_err().message(),
        "cache: sqlite: attempt to write a readonly database"
    );
}

#[test]
fn a_cache_that_cannot_be_read_answers_with_its_error() {
    let mut s = Service::new();
    let r = s.list_stations(&pt(), 1, Err(CacheError::Sqlite("locked".into())));
    assert_eq!(
        r.answer,
        Some(Err(ServiceError::Cache("sqlite: locked".into())))
    );
    assert!(!r.fetch);
    let r = s.list_countries(1, Err(CacheError::Sqlite("locked".into())));
    assert!(r.answer.is_some() && !r.fetch);
}

#[test]
fn search_falls_back_to_the_cache_when_offline_and_invalid_codes_are_refused() {
    let mut cache = Cache::new();
    let mut a = st("a", 5);
    a.name = "Rádio Comercial".into();
    a.codec = Codec::Aac;
    cache.put_stations(&pt(), &vec![a], 1, T0).unwrap();
    let hits = search_answer(Err(exhausted()), &cache, "comercial");
    assert_eq!(hits.len(), 1);
    assert_eq!(hits[0].codec, Codec::Aac);
    assert!(search_answer(Ok(Vec::new()), &cache, "comercial").is_empty());
    assert_eq!(
        country_key("P").unwrap_err(),
        ServiceError::InvalidCountry("P".into())
    );
    assert_eq!(
        country_key("p1").unwrap_err(),
        ServiceError::InvalidCountry("P1".into())
    );
    assert_eq!(country_key(" pt ").unwrap(), "PT");
    assert_eq!(
        country_key("p\"").unwrap_err().message(),
        "invalid country code \"P\\\"\""
    );
    assert_eq!(
        ServiceError::Closed.message(),
        "the stations service is not running"
    );
}

#[test]
fn countries_follow_the_same_path() {
    let mut s = Service::new();
    let mut cache = Cache::new();
    let r = s.list_countries(7, Ok(cache.countries(T0)));
    assert!(r.answer.is_none() && r.fetch);
    let r = s.list_countries(8, Ok(cache.countries(T0)));
    assert!(r.answer.is_none() && !r.fetch);
    let items = client::countries(Ok(country_rows())).unwrap();
    let put = cache.put_countries(&items, T0);
    let d = s.countries_done(written(items, T0, put));
    assert_eq!(d.waiters, [7, 8]);
    let c = d.result.unwrap();
    assert_eq!(
        (c.source, c.items.len(), c.refreshing),
        (CacheSource::Fresh, 240, false)
    );
    assert_eq!(
        d.event,
        Event::CountriesUpdated {
            outcome: RefreshOutcome::Landed
        }
    );
    let r = s.list_countries(9, Ok(cache.countries(T0)));
    assert!(!r.fetch);
    assert_eq!(r.answer.unwrap().unwrap().source, CacheSource::Cached);
    // Expired: served, and refreshed behind it.
    let r = s.list_countries(10, Ok(cache.countries(T0 + TTL_COUNTRIES)));
    assert!(r.fetch && r.answer.unwrap().unwrap().refreshing);
    assert_eq!(Stored::just_fetched(1, T0).age_secs, 0);
}
