//! Playlists: parsing, the choice of a variant, and the planner.

use std::io::Write;

use flate2::write::GzEncoder;
use flate2::Compression;

use ondar::hls::playlist::{
    attribute_list, choose_variant, is_audio_codec, is_he_aac, kind, parse, EndCause, Kind,
    MasterPlaylist, MediaPlaylist, NoAudio, Planner, Playlist, PlaylistError, Segment, Step,
    Variant, MAX_WAIT_SECS, MIN_WAIT_SECS,
};
use ondar::hls::segment::gunzip;
use ondar::text::{chars_of, string_of};
use ondar::time::{Duration, Instant};

fn master(text: &str, base: &str) -> MasterPlaylist {
    match parse(text, base).unwrap() {
        Playlist::Master(m) => m,
        other => panic!("expected a master playlist, got {other:?}"),
    }
}

fn media(text: &str, base: &str) -> MediaPlaylist {
    match parse(text, base).unwrap() {
        Playlist::Media(m) => m,
        other => panic!("expected a media playlist, got {other:?}"),
    }
}

fn secs(d: Duration) -> f64 {
    d.nanos as f64 / 1e9
}

fn from_secs_f64(s: f64) -> Duration {
    Duration {
        nanos: std::time::Duration::from_secs_f64(s).as_nanos(),
    }
}

fn gzip(text: &str) -> Vec<u8> {
    let mut enc = GzEncoder::new(Vec::new(), Compression::default());
    enc.write_all(text.as_bytes()).unwrap();
    enc.finish().unwrap()
}

fn inflate(bytes: &[u8]) -> String {
    String::from_utf8(gunzip(bytes, 1 << 20).unwrap()).unwrap()
}

const BASE_01: &str = "https://voa-ingest.akamaized.net/hls/live/2035206/151_124L/playlist.m3u8";
const BASE_01_MEDIA: &str =
    "https://voa-ingest.akamaized.net/hls/live/2035206/151_124L/playlist124L.m3u8";
const BASE_02: &str = "http://n1db-e2.revma.ihrhls.com/zc6951/hls.m3u8";
const BASE_04: &str =
    "https://dwamdstream104.akamaized.net/hls/live/2015530/dwstream104/index.m3u8";
const BASE_06: &str =
    "https://stream.radiofrance.fr/franceinter/franceinter_hifi.m3u8?id=radiofrance";
const BASE_07_MEDIA: &str = "https://20043.live.streamtheworld.com:443/OCAAC/HLS/3b89e087-67f3-43a9-8646-908f163bd29c/0/playlist.m3u8";
const BASE_09: &str = "https://hls-igi.cdnvideo.ru/igi/radio1/tracks-a1/mono.m3u8";
const BASE_10: &str = "http://streaming-live-app.rtp.pt/liveradio/antena180a/playlist.m3u8";
const BASE_10_MEDIA: &str = "http://streaming-live-app.rtp.pt/liveradio/antena180a/chunklist.m3u8";

const MASTER_01: &str = "#EXTM3U\n#EXT-X-VERSION:3\n#EXT-X-STREAM-INF:BANDWIDTH=140800,CODECS=\"mp4a.40.2\"\nhttps://voa-ingest.akamaized.net/hls/live/2035206/151_124L/playlist124L.m3u8\n";
const MASTER_02: &str =
    "#EXTM3U\n#EXT-X-STREAM-INF:BANDWIDTH=24000,CODECS=\"mp4a.40.2\"\nhttp://n1db-e2.revma.ihrhls.com/zc6951/main.m3u8\n";
const MASTER_03: &str = "#EXTM3U\n#EXT-X-STREAM-INF:BANDWIDTH=815296,CODECS=\"avc1.42c020\"\nhigh.m3u8\n#EXT-X-STREAM-INF:BANDWIDTH=415296,CODECS=\"avc1.42c020\"\nlow.m3u8\n";
const MASTER_04: &str = "#EXTM3U\r\n#EXT-X-VERSION:4\r\n#EXT-X-MEDIA:TYPE=SUBTITLES,GROUP-ID=\"subs_wvtt\",NAME=\"English\",URI=\"subs/playlist.m3u8\"\r\n#EXT-X-STREAM-INF:BANDWIDTH=1061313,CODECS=\"avc1.4D401E,mp4a.40.2\",RESOLUTION=480x270,SUBTITLES=\"subs_wvtt\"\r\nstream01/streamPlaylist.m3u8\r\n#EXT-X-STREAM-INF:BANDWIDTH=1561313,CODECS=\"avc1.4D401E,mp4a.40.2\"\r\nstream02/streamPlaylist.m3u8\r\n#EXT-X-STREAM-INF:BANDWIDTH=2061313,CODECS=\"avc1.4D401F,mp4a.40.2\"\r\nstream03/streamPlaylist.m3u8\r\n#EXT-X-STREAM-INF:BANDWIDTH=3061313,CODECS=\"avc1.4D401F,mp4a.40.2\"\r\nstream04/streamPlaylist.m3u8\r\n#EXT-X-STREAM-INF:BANDWIDTH=5061313,CODECS=\"avc1.640028,mp4a.40.2\"\r\nstream05/streamPlaylist.m3u8\r\n";
const MASTER_07: &str =
    "#EXTM3U\n#EXT-X-STREAM-INF:PROGRAM-ID=1,BANDWIDTH=128000,CODECS=\"mp4a.40.2\"\n0/playlist.m3u8\n";
const MASTER_08: &str =
    "#EXTM3U\n#EXT-X-STREAM-INF:BANDWIDTH=64000,CODECS=\"mp4a.40.5\"\n0/playlist.m3u8\n";
const MASTER_10: &str =
    "#EXTM3U\n#EXT-X-VERSION:3\n#EXT-X-STREAM-INF:BANDWIDTH=96000,CODECS=\"mp4a.40.2\"\nchunklist.m3u8\n";

/// Ten segments from `first` on.
fn media_01(first: u64) -> String {
    let mut s = format!(
        "#EXTM3U\n#EXT-X-VERSION:3\n#EXT-X-TARGETDURATION:10\n#EXT-X-MEDIA-SEQUENCE:{first}\n"
    );
    for i in 0..10 {
        s.push_str(&format!(
            "#EXTINF:10.00533,\n20260824T023940/playlist124L/02441/playlist124L4_{:05}.aac\n",
            first + i - 244_100
        ));
    }
    s
}

const MEDIA_02: &str = "#EXTM3U\n#EXT-X-VERSION:3\n#EXT-X-TARGETDURATION:10\n#EXT-X-MEDIA-SEQUENCE:179287668\n#EXT-X-DISCONTINUITY\n#EXTINF:10,title=\"One, Two\",artist=\"Three, Four\"\nhttp://cloud-proxy-hls.revma.ihrhls.com/zc6951/29_1q6zwms8wshwa02/main/179287666.aac?rj-org=n1db-e2\n#EXTINF:10,title=\"One, Two\",artist=\"Three, Four\"\nhttp://cloud-proxy-hls.revma.ihrhls.com/zc6951/29_1q6zwms8wshwa02/main/179287667.aac?rj-org=n1db-e2\n#EXTINF:10,title=\"One, Two\",artist=\"Three, Four\"\nhttp://cloud-proxy-hls.revma.ihrhls.com/zc6951/29_1q6zwms8wshwa02/main/179287668.aac?rj-org=n1db-e2\n";
const MEDIA_06: &str = "#EXTM3U\n#EXT-X-TARGETDURATION:4\n#EXT-X-MEDIA-SEQUENCE:2099281\n#EXTINF:4.0,\n/accs3/franceinter/prod1transcoder2/franceinter_aac_hifi_4_2099281_1790008140.ts?id=radiofrance\n#EXTINF:4.0,\n/accs3/a2.ts?id=radiofrance\n#EXTINF:4.0,\n/accs3/a3.ts?id=radiofrance\n#EXTINF:4.0,\n/accs3/a4.ts?id=radiofrance\n#EXTINF:4.0,\n/accs3/a5.ts?id=radiofrance\n#EXTINF:4.0,\n/accs3/a6.ts?id=radiofrance\n#EXTINF:4.0,\n/accs3/a7.ts?id=radiofrance\n";
const MEDIA_07: &str = "#EXTM3U\n#EXT-X-TARGETDURATION:10\n#EXT-X-MEDIA-SEQUENCE:1\n#EXTINF:9.984,\n1.aac\n#EXTINF:9.984,\n2.aac\n#EXTINF:9.984,\n3.aac\n";
const MEDIA_09: &str = "#EXTM3U\n#EXT-X-TARGETDURATION:7\n#EXT-X-MEDIA-SEQUENCE:77\n#EXTINF:6.016,\n2026/09/21/16/30/05-06016.ts?hls_proxy_host=e3f8932b050e87d55d9c3dc9bf52d17a\n#EXTINF:6.016,\n2026/09/21/16/30/11-06016.ts?hls_proxy_host=x\n#EXTINF:6.016,\n2026/09/21/16/30/17-06016.ts?hls_proxy_host=x\n#EXTINF:6.016,\n2026/09/21/16/30/23-06016.ts?hls_proxy_host=x\n";

/// Twenty segments from `first` on.
fn media_10(first: u64) -> String {
    let mut s = format!(
        "#EXTM3U\n#EXT-X-VERSION:3\n#EXT-X-TARGETDURATION:5\n#EXT-X-MEDIA-SEQUENCE:{first}\n"
    );
    for i in 0..20 {
        let d = if i % 2 == 0 { "4.032" } else { "3.968" };
        s.push_str(&format!("#EXTINF:{d},\nmedia_{}.aac\n", first + i));
    }
    s
}

#[test]
fn t1_masters_parse_and_relative_uris_join_against_the_base() {
    let m = master(MASTER_01, BASE_01);
    assert_eq!(m.variants.len(), 1);
    assert_eq!(m.variants[0].bandwidth, Some(140_800));
    assert_eq!(
        m.variants[0].codecs.as_deref(),
        Some(&["mp4a.40.2".to_string()][..])
    );
    assert_eq!(m.variants[0].uri.as_str(), BASE_01_MEDIA);

    // A relative variant URI.
    let m = master(MASTER_10, BASE_10);
    assert_eq!(m.variants[0].uri.as_str(), BASE_10_MEDIA);
    // The base it is given is the one used.
    let redirected = "http://edge-3.rtp.pt/other/path/playlist.m3u8";
    let m = master(MASTER_10, redirected);
    assert_eq!(
        m.variants[0].uri.as_str(),
        "http://edge-3.rtp.pt/other/path/chunklist.m3u8"
    );

    for (text, bw, codec) in [
        (MASTER_02, 24_000, "mp4a.40.2"),
        (MASTER_07, 128_000, "mp4a.40.2"),
        (MASTER_08, 64_000, "mp4a.40.5"),
    ] {
        let m = master(text, BASE_02);
        assert_eq!(m.variants.len(), 1);
        assert_eq!(m.variants[0].bandwidth, Some(bw));
        assert_eq!(
            m.variants[0].codecs.as_deref(),
            Some(&[codec.to_string()][..])
        );
    }

    // Two variants, video only.
    let m = master(MASTER_03, BASE_01);
    assert_eq!(m.variants.len(), 2);
    assert_eq!(m.variants[1].bandwidth, Some(415_296));
}

#[test]
fn t1_codecs_with_a_comma_is_one_attribute_and_crlf_parses() {
    let text = MASTER_04;
    assert!(text.contains("\r\n"), "the text is CRLF as served");
    let m = master(text, BASE_04);
    assert_eq!(m.variants.len(), 5);
    assert_eq!(
        m.variants[0].codecs.as_deref(),
        Some(&["avc1.4D401E".to_string(), "mp4a.40.2".to_string()][..])
    );
    assert_eq!(m.variants[0].bandwidth, Some(1_061_313));
    assert_eq!(
        m.variants[0].uri.as_str(),
        "https://dwamdstream104.akamaized.net/hls/live/2015530/dwstream104/stream01/streamPlaylist.m3u8"
    );
}

fn variant(bw: u64, codecs: Option<&[&str]>) -> Variant {
    Variant {
        uri: format!("http://h/{bw}.m3u8"),
        bandwidth: Some(bw),
        codecs: codecs.map(|c| c.iter().map(|s| s.to_string()).collect()),
    }
}

#[test]
fn t2_video_only_master_is_refused_and_muxed_takes_the_lowest_bandwidth() {
    let m = master(MASTER_03, BASE_01);
    assert_eq!(choose_variant(&m), Err(NoAudio("avc1.42c020".to_string())));
    assert_eq!(
        NoAudio("avc1.42c020".to_string()).message(),
        "HLS stream has no audio variant (video only: avc1.42c020)"
    );

    // Five muxed variants: the lowest bandwidth.
    let m = master(MASTER_04, BASE_04);
    assert_eq!(choose_variant(&m).unwrap().bandwidth, Some(1_061_313));
}

#[test]
fn t2_audio_only_prefers_lc_over_he_then_the_highest_bandwidth() {
    let m = MasterPlaylist {
        variants: vec![
            variant(128_000, Some(&["mp4a.40.5"])),
            variant(96_000, Some(&["mp4a.40.2"])),
        ],
    };
    assert_eq!(choose_variant(&m).unwrap().bandwidth, Some(96_000));
    let m = MasterPlaylist {
        variants: vec![
            variant(48_000, Some(&["mp4a.40.2"])),
            variant(256_000, Some(&["mp4a.40.2"])),
            variant(128_000, Some(&["mp4a.40.2"])),
        ],
    };
    assert_eq!(choose_variant(&m).unwrap().bandwidth, Some(256_000));
    // HE-AAC v2 counts as HE; audio-only beats muxed whatever the bandwidth.
    let m = MasterPlaylist {
        variants: vec![
            variant(1_000_000, Some(&["avc1.4D401E", "mp4a.40.2"])),
            variant(64_000, Some(&["mp4a.40.29"])),
        ],
    };
    assert_eq!(choose_variant(&m).unwrap().bandwidth, Some(64_000));
}

#[test]
fn t2_no_codecs_is_tried_before_muxed_and_never_a_video_only_one() {
    let m = MasterPlaylist {
        variants: vec![
            variant(2_000_000, Some(&["avc1.4D401E", "mp4a.40.2"])),
            variant(300_000, None),
            variant(500_000, Some(&["avc1.42c020"])),
        ],
    };
    assert_eq!(choose_variant(&m).unwrap().bandwidth, Some(300_000));
    let m = MasterPlaylist { variants: vec![] };
    assert_eq!(choose_variant(&m), Err(NoAudio("no variants".to_string())));
}

#[test]
fn t3_media_playlists_parse_with_the_duration_up_to_the_first_comma() {
    let m = media(&media_01(244_198), BASE_01_MEDIA);
    assert_eq!(m.target_duration, Duration::from_secs(10));
    assert_eq!(m.media_sequence, 244_198);
    assert_eq!(m.segments.len(), 10);
    assert_eq!(m.segments[0].seq, 244_198);
    assert_eq!(m.last_seq(), Some(244_207));
    assert!((secs(m.segments[0].duration) - 10.00533).abs() < 1e-9);
    assert_eq!(
        m.segments[0].uri.as_str(),
        "https://voa-ingest.akamaized.net/hls/live/2035206/151_124L/20260824T023940/playlist124L/02441/playlist124L4_00098.aac"
    );
    assert!(!m.end_list);
    assert_eq!(m.discontinuities(), 0);

    // A discontinuity before the first segment and titles that carry quoted commas.
    let m = media(MEDIA_02, BASE_02);
    assert_eq!(m.target_duration, Duration::from_secs(10));
    assert_eq!(m.media_sequence, 179_287_668);
    assert_eq!(m.segments.len(), 3);
    assert_eq!(m.discontinuities(), 1);
    assert!(m.segments[0].discontinuity && !m.segments[1].discontinuity);
    for s in &m.segments {
        assert_eq!(secs(s.duration), 10.0);
    }
    assert_eq!(
        m.segments[2].uri.as_str(),
        "http://cloud-proxy-hls.revma.ihrhls.com/zc6951/29_1q6zwms8wshwa02/main/179287668.aac?rj-org=n1db-e2"
    );

    let m = media(MEDIA_07, BASE_07_MEDIA);
    assert_eq!(m.segments.len(), 3);
    assert_eq!(m.media_sequence, 1);
    assert!((secs(m.segments[0].duration) - 9.984).abs() < 1e-9);
    assert!(m.segments[0].uri.as_str().ends_with("/0/1.aac"));
}

#[test]
fn t3_gzipped_media_playlist_parses_after_gunzip() {
    let raw = gzip(&media_10(97_863));
    assert_eq!(&raw[..2], &[0x1f, 0x8b]);
    let m = media(&inflate(&raw), BASE_10_MEDIA);
    assert_eq!(m.target_duration, Duration::from_secs(5));
    assert_eq!(m.media_sequence, 97_863);
    assert_eq!(m.segments.len(), 20);
    assert_eq!(m.last_seq(), Some(97_882));
    assert!((secs(m.segments[0].duration) - 4.032).abs() < 1e-9);
    assert!((secs(m.segments[1].duration) - 3.968).abs() < 1e-9);
    assert_eq!(
        m.segments[0].uri.as_str(),
        "http://streaming-live-app.rtp.pt/liveradio/antena180a/media_97863.aac"
    );
}

#[test]
fn t3_media_playlists_given_directly_parse_with_absolute_path_and_query_uris() {
    let m = media(MEDIA_06, BASE_06);
    assert_eq!(m.target_duration, Duration::from_secs(4));
    assert_eq!(m.media_sequence, 2_099_281);
    assert_eq!(m.segments.len(), 7);
    assert_eq!(
        m.segments[0].uri.as_str(),
        "https://stream.radiofrance.fr/accs3/franceinter/prod1transcoder2/franceinter_aac_hifi_4_2099281_1790008140.ts?id=radiofrance"
    );
    let m = media(MEDIA_09, BASE_09);
    assert_eq!(m.target_duration, Duration::from_secs(7));
    assert_eq!(m.segments.len(), 4);
    assert_eq!(
        m.segments[0].uri.as_str(),
        "https://hls-igi.cdnvideo.ru/igi/radio1/tracks-a1/2026/09/21/16/30/05-06016.ts?hls_proxy_host=e3f8932b050e87d55d9c3dc9bf52d17a"
    );
}

const MEDIA_HEAD: &str = "#EXTM3U\n#EXT-X-TARGETDURATION:6\n#EXT-X-MEDIA-SEQUENCE:1\n";

#[test]
fn t4_map_key_and_byterange_are_refused_and_key_none_is_accepted() {
    let base = "http://h/p.m3u8";
    let with = |tag: &str| format!("{MEDIA_HEAD}{tag}\n#EXTINF:6,\ns1.aac\n");

    assert_eq!(
        parse(&with("#EXT-X-MAP:URI=\"init.mp4\""), base),
        Err(PlaylistError::Fmp4)
    );
    assert_eq!(
        parse(&with("#EXT-X-KEY:METHOD=AES-128,URI=\"k\",IV=0x1"), base),
        Err(PlaylistError::Encrypted)
    );
    assert_eq!(
        parse(&with("#EXT-X-KEY:METHOD=SAMPLE-AES,URI=\"k\""), base),
        Err(PlaylistError::Encrypted)
    );
    assert_eq!(
        parse(&with("#EXT-X-BYTERANGE:1000@0"), base),
        Err(PlaylistError::ByteRange)
    );
    let ok = parse(&with("#EXT-X-KEY:METHOD=NONE"), base).unwrap();
    assert!(matches!(ok, Playlist::Media(ref m) if m.segments.len() == 1));

    assert_eq!(
        PlaylistError::Fmp4.message(),
        "HLS with fMP4 segments is not supported yet"
    );
    assert_eq!(
        PlaylistError::Encrypted.message(),
        "encrypted HLS is not supported"
    );
    assert_eq!(
        PlaylistError::ByteRange.message(),
        "HLS byte-range segments are not supported"
    );
}

#[test]
fn t4_a_plain_m3u_is_not_hls_and_its_url_is_not_followed() {
    let base = "http://h/listen.m3u";
    let plain = "#EXTM3U\n#EXTINF:-1,Some Radio\nhttp://icecast.example/stream\n";
    assert_eq!(parse(plain, base), Err(PlaylistError::NotHls));
    let bare = "#EXTM3U\nhttp://icecast.example/stream\n";
    assert_eq!(parse(bare, base), Err(PlaylistError::NotHls));
    assert_eq!(
        PlaylistError::NotHls.message(),
        "playlist is not HLS (no EXT-X tags)"
    );
}

#[test]
fn t4_a_body_without_extm3u_is_not_a_playlist_and_bad_numbers_are_malformed() {
    let base = "http://h/p.m3u8";
    assert_eq!(parse("<html>", base), Err(PlaylistError::NotPlaylist));
    assert_eq!(parse("", base), Err(PlaylistError::NotPlaylist));
    assert!(matches!(
        parse("#EXTM3U\n#EXT-X-TARGETDURATION:ten\n", base),
        Err(PlaylistError::Malformed(_))
    ));
    assert!(matches!(
        parse(&format!("{MEDIA_HEAD}#EXTINF:abc,\ns.aac\n"), base),
        Err(PlaylistError::Malformed(_))
    ));
    // Unknown tags and comments are ignored; `#EXTM3U` may carry trailing whitespace.
    let ok = parse(
        &format!(
            "#EXTM3U \n#EXT-X-VERSION:3\n# a comment\n#EXT-X-FOO:bar\n{}",
            &MEDIA_HEAD[8..]
        ),
        base,
    );
    assert!(matches!(ok, Ok(Playlist::Media(_))));
}

#[test]
fn malformed_values_are_told() {
    let base = "http://h/p.m3u8";
    assert_eq!(
        parse("#EXTM3U\n#EXT-X-TARGETDURATION:ten\n", base),
        Err(PlaylistError::Malformed("EXT-X-TARGETDURATION:ten".into()))
    );
    assert_eq!(
        parse("#EXTM3U\n#EXT-X-MEDIA-SEQUENCE: -1\n", base),
        Err(PlaylistError::Malformed("EXT-X-MEDIA-SEQUENCE: -1".into()))
    );
    assert_eq!(
        parse(&format!("{MEDIA_HEAD}#EXTINF:-1,x\ns.aac\n"), base),
        Err(PlaylistError::Malformed("EXTINF:-1,x".into()))
    );
    // A URI that cannot be joined.
    let e = parse(&format!("{MEDIA_HEAD}#EXTINF:6,\nhttp://[\"\n"), base).unwrap_err();
    assert_eq!(
        e.message(),
        "malformed playlist: URI \"http://[\\\"\": invalid IPv6 address"
    );
    // Numbers past 64 bits.
    let text = "#EXTM3U\n#EXT-X-TARGETDURATION:6\n#EXT-X-MEDIA-SEQUENCE:18446744073709551615\n#EXTINF:6,\na\n#EXTINF:6,\nb\n";
    assert_eq!(
        parse(text, base),
        Err(PlaylistError::Malformed(
            "EXT-X-MEDIA-SEQUENCE:18446744073709551615".into()
        ))
    );
    assert_eq!(
        PlaylistError::NotPlaylist.message(),
        "not a playlist (no #EXTM3U)"
    );
}

#[test]
fn segments_are_numbered_from_the_media_sequence() {
    let m = media(&media_01(244_198), BASE_01_MEDIA);
    for (i, s) in m.segments.iter().enumerate() {
        assert_eq!(s.seq, 244_198 + i as u64);
    }
}

#[test]
fn codecs_are_told_apart() {
    assert!(is_audio_codec("mp4a.40.2") && is_audio_codec(" MP4A.40.2 ") && is_audio_codec("ec-3"));
    assert!(!is_audio_codec("avc1.42c020") && !is_audio_codec("mp4a") && !is_audio_codec("abcdé"));
    assert!(is_he_aac("mp4a.40.5") && is_he_aac("mp4a.40.29") && is_he_aac("mp4a.40.+05"));
    assert!(!is_he_aac("mp4a.40.2") && !is_he_aac("mp4a.40.") && !is_he_aac("mp4a.40.295"));
    assert_eq!(kind(&variant(1, Some(&[]))), Kind::VideoOnly);
    assert_eq!(kind(&variant(1, None)), Kind::Unknown);
    assert_eq!(
        kind(&variant(1, Some(&["avc1", "ac-3"]))),
        Kind::Muxed
    );
    assert_eq!(
        kind(&variant(1, Some(&["mp4a.40.2", "mp4a.40.5"]))),
        Kind::AudioOnly { he: true }
    );
}

#[test]
fn of_equal_variants_the_last_audio_and_the_first_muxed_is_chosen() {
    let mut a = variant(5, Some(&["mp4a.40.2"]));
    a.uri = "first".into();
    let mut b = variant(5, Some(&["mp4a.40.2"]));
    b.uri = "second".into();
    let m = MasterPlaylist {
        variants: vec![a, b],
    };
    assert_eq!(choose_variant(&m).unwrap().uri, "second");
    let mut a = variant(5, Some(&["mp4a.40.2", "avc1"]));
    a.uri = "first".into();
    let mut b = variant(5, Some(&["mp4a.40.2", "avc1"]));
    b.uri = "second".into();
    let m = MasterPlaylist {
        variants: vec![a, b],
    };
    assert_eq!(choose_variant(&m).unwrap().uri, "first");
    // Every codec seen is told, once.
    let m = MasterPlaylist {
        variants: vec![
            variant(1, Some(&["avc1", "stpp"])),
            variant(2, Some(&["stpp", "hvc1"])),
        ],
    };
    assert_eq!(choose_variant(&m), Err(NoAudio("avc1,stpp,hvc1".into())));
}

fn t0() -> Instant {
    Instant::at(Duration::from_secs(1_000))
}

fn after(t: Instant, d: Duration) -> Instant {
    Instant {
        nanos: t.nanos + d.nanos,
    }
}

fn fetched_seqs(step: &Step) -> Vec<u64> {
    match step {
        Step::Fetch { segments, .. } => segments.iter().map(|s| s.seq).collect(),
        other => panic!("expected Fetch, got {other:?}"),
    }
}

#[test]
fn t5_start_is_three_segments_from_the_end_or_the_first_of_a_short_window() {
    let m = media(&media_01(244_198), BASE_01_MEDIA);
    let (p, step) = Planner::start(&m, t0());
    assert_eq!(fetched_seqs(&step), vec![244_205, 244_206, 244_207]);
    assert_eq!(p.next_seq(), 244_208);

    let m = media(&inflate(&gzip(&media_10(97_863))), BASE_10_MEDIA);
    let (p, step) = Planner::start(&m, t0());
    assert_eq!(fetched_seqs(&step), vec![97_880, 97_881, 97_882]);
    assert_eq!(p.next_seq(), 97_883);

    let m = media(MEDIA_07, BASE_07_MEDIA);
    let (p, step) = Planner::start(&m, t0());
    assert_eq!(fetched_seqs(&step), vec![1, 2, 3]);
    assert_eq!(p.next_seq(), 4);
    // The wait after the start is the last segment's duration.
    match step {
        Step::Fetch { then_wait, .. } => assert!((secs(then_wait) - 9.984).abs() < 1e-9),
        _ => unreachable!(),
    }
}

fn synthetic(td: u64, first_seq: u64, n: usize, dur: f64) -> MediaPlaylist {
    MediaPlaylist {
        target_duration: Duration::from_secs(td),
        media_sequence: first_seq,
        segments: (0..n as u64)
            .map(|i| Segment {
                seq: first_seq + i,
                duration: from_secs_f64(dur),
                uri: format!("http://h/{}.aac", first_seq + i),
                discontinuity: false,
            })
            .collect(),
        end_list: false,
    }
}

#[test]
fn t6_a_reload_emits_exactly_the_new_segments_and_waits_the_last_duration() {
    let first = media(&media_01(244_198), BASE_01_MEDIA);
    let refresh = media(&media_01(244_201), BASE_01_MEDIA);
    let t = t0();
    let (mut p, _) = Planner::start(&first, t);
    let step = p.reload(Some(&refresh), after(t, Duration::from_secs(20)));
    assert_eq!(fetched_seqs(&step), vec![244_208, 244_209, 244_210]);
    match &step {
        Step::Fetch {
            skipped, then_wait, ..
        } => {
            assert_eq!(*skipped, 0);
            assert!((secs(*then_wait) - 10.00533).abs() < 1e-9);
        }
        _ => unreachable!(),
    }
    assert_eq!(p.next_seq(), 244_211);
    // The same playlist again: nothing new, half the target duration.
    let step = p.reload(Some(&refresh), after(t, Duration::from_secs(25)));
    assert_eq!(step, Step::Wait(Duration::from_secs(5)));
}

#[test]
fn t6_a_window_that_still_lists_older_segments_emits_only_past_the_last_emitted() {
    let first = media(&inflate(&gzip(&media_10(97_863))), BASE_10_MEDIA);
    let refresh = media(&inflate(&gzip(&media_10(97_866))), BASE_10_MEDIA);
    assert_eq!(refresh.media_sequence, 97_866);
    assert_eq!(
        refresh.segments[0].seq, 97_866,
        "the window starts before next_seq"
    );
    let t = t0();
    let (mut p, _) = Planner::start(&first, t);
    assert_eq!(p.next_seq(), 97_883);
    let step = p.reload(Some(&refresh), after(t, Duration::from_secs(10)));
    assert_eq!(fetched_seqs(&step), vec![97_883, 97_884, 97_885]);
    assert_eq!(p.next_seq(), 97_886);
}

#[test]
fn t6_waits_are_clamped_to_one_and_thirty_seconds() {
    let min_wait = Duration::from_secs(MIN_WAIT_SECS);
    let max_wait = Duration::from_secs(MAX_WAIT_SECS);
    let t = t0();
    let (mut p, step) = Planner::start(&synthetic(0, 1, 3, 0.1), t);
    assert!(matches!(step, Step::Fetch { then_wait, .. } if then_wait == min_wait));
    assert_eq!(
        p.reload(Some(&synthetic(0, 1, 3, 0.1)), t),
        Step::Wait(min_wait)
    );
    // The stall bound is on the clamped target duration too.
    assert_eq!(
        p.reload(
            Some(&synthetic(0, 1, 3, 0.1)),
            after(t, Duration::from_millis(2999))
        ),
        Step::Wait(min_wait)
    );
    assert_eq!(
        p.reload(
            Some(&synthetic(0, 1, 3, 0.1)),
            after(t, Duration::from_secs(3))
        ),
        Step::End(EndCause::Stall)
    );

    let (mut p, step) = Planner::start(&synthetic(3600, 1, 3, 3600.0), t);
    assert!(matches!(step, Step::Fetch { then_wait, .. } if then_wait == max_wait));
    assert_eq!(
        p.reload(Some(&synthetic(3600, 1, 3, 3600.0)), t),
        Step::Wait(max_wait)
    );
}

#[test]
fn t6_a_window_past_next_seq_is_a_gap_and_a_stalled_window_ends_the_stream() {
    let t = t0();
    let (mut p, _) = Planner::start(&synthetic(5, 100, 6, 5.0), t);
    assert_eq!(p.next_seq(), 106);
    // The window jumped to 110..=115: 106..=109 are gone.
    let step = p.reload(
        Some(&synthetic(5, 110, 6, 5.0)),
        after(t, Duration::from_secs(5)),
    );
    assert_eq!(fetched_seqs(&step), vec![110, 111, 112, 113, 114, 115]);
    assert!(matches!(step, Step::Fetch { skipped: 4, .. }));

    let same = synthetic(5, 110, 6, 5.0);
    let t_new = after(t, Duration::from_secs(5));
    assert_eq!(
        p.reload(Some(&same), after(t_new, Duration::from_secs(14))),
        Step::Wait(Duration::from_millis(2500))
    );
    assert_eq!(
        p.reload(Some(&same), after(t_new, Duration::from_secs(15))),
        Step::End(EndCause::Stall)
    );
}

#[test]
fn t6_a_failed_reload_waits_half_a_target_duration_until_the_stall_bound() {
    let t = t0();
    let (mut p, _) = Planner::start(&synthetic(10, 1, 5, 10.0), t);
    assert_eq!(
        p.reload(None, after(t, Duration::from_secs(10))),
        Step::Wait(Duration::from_secs(5))
    );
    assert_eq!(
        p.reload(None, after(t, Duration::from_secs(29))),
        Step::Wait(Duration::from_secs(5))
    );
    assert_eq!(
        p.reload(None, after(t, Duration::from_secs(30))),
        Step::End(EndCause::Stall)
    );
    // A successful reload with new segments resets the bound.
    let (mut p, _) = Planner::start(&synthetic(10, 1, 5, 10.0), t);
    p.reload(None, after(t, Duration::from_secs(25)));
    let step = p.reload(
        Some(&synthetic(10, 3, 5, 10.0)),
        after(t, Duration::from_secs(29)),
    );
    assert_eq!(fetched_seqs(&step), vec![6, 7]);
    assert_eq!(
        p.reload(None, after(t, Duration::from_secs(58))),
        Step::Wait(Duration::from_secs(5))
    );
}

#[test]
fn t6_a_sequence_that_goes_backwards_is_a_restart_and_endlist_ends_the_stream() {
    let t = t0();
    let (mut p, _) = Planner::start(&synthetic(5, 500, 6, 5.0), t);
    // The window advances 500 to 502 (older segments still listed): not a restart.
    assert!(matches!(
        p.reload(
            Some(&synthetic(5, 502, 6, 5.0)),
            after(t, Duration::from_secs(5))
        ),
        Step::Fetch { .. }
    ));
    assert_eq!(
        p.reload(
            Some(&synthetic(5, 1, 6, 5.0)),
            after(t, Duration::from_secs(10))
        ),
        Step::End(EndCause::Restarted)
    );

    // The remaining segments are emitted, and the stream ends.
    let mut vod = synthetic(5, 1, 4, 5.0);
    vod.end_list = true;
    let (mut p, step) = Planner::start(&vod, t);
    assert_eq!(fetched_seqs(&step), vec![2, 3, 4]);
    assert_eq!(
        p.reload(Some(&vod), after(t, Duration::from_secs(5))),
        Step::End(EndCause::EndList)
    );
}

#[test]
fn an_end_list_is_parsed() {
    let m = media(
        &format!("{MEDIA_HEAD}#EXTINF:6,\na.aac\n#EXT-X-ENDLIST\n"),
        "http://h/p.m3u8",
    );
    assert!(m.end_list);
}

fn list(s: &str) -> Vec<(String, String)> {
    let chars = chars_of(s);
    attribute_list(&chars)
        .iter()
        .map(|(k, v)| (string_of(k), string_of(v)))
        .collect()
}

#[test]
fn attribute_lists_split_quote_aware() {
    let a = list(
        r#"BANDWIDTH=1061313,CODECS="avc1.4D401E,mp4a.40.2",RESOLUTION=480x270,SUBTITLES="subs_wvtt""#,
    );
    assert_eq!(
        a,
        vec![
            ("BANDWIDTH".to_string(), "1061313".to_string()),
            ("CODECS".to_string(), "avc1.4D401E,mp4a.40.2".to_string()),
            ("RESOLUTION".to_string(), "480x270".to_string()),
            ("SUBTITLES".to_string(), "subs_wvtt".to_string()),
        ]
    );
    assert_eq!(list(""), Vec::<(String, String)>::new());
    assert_eq!(
        list("METHOD=NONE"),
        vec![("METHOD".to_string(), "NONE".to_string())]
    );
}

/// However often the window is reloaded, the numbers fetched only go up.
#[test]
fn every_sequence_number_is_fetched_once() {
    let t = t0();
    let (mut p, step) = Planner::start(&synthetic(5, 10, 6, 5.0), t);
    let mut seqs = fetched_seqs(&step);
    for (i, first) in [11, 11, 12, 15, 30, 30, 31].iter().enumerate() {
        let step = p.reload(
            Some(&synthetic(5, *first, 6, 5.0)),
            after(t, Duration::from_secs(i as u64)),
        );
        if let Step::Fetch { segments, .. } = step {
            seqs.extend(segments.iter().map(|s| s.seq));
        }
    }
    assert!(seqs.windows(2).all(|w| w[0] < w[1]), "{seqs:?}");
    assert_eq!(seqs.last(), Some(&36));
}

#[test]
fn comments_blank_lines_and_returns_change_nothing() {
    let plain = "#EXTM3U\n#EXT-X-TARGETDURATION:4\n#EXTINF:4,\na.aac\n#EXTINF:3,\nb.aac\n";
    let base = "http://h/x.m3u8";
    let read = media(plain, base);
    assert_eq!(read.segments.len(), 2);
    assert_eq!(media(&plain.replace('\n', "\r\n"), base), read);
    let noisy = plain.replace(
        "#EXTINF",
        "\n# a comment\n  \n#EXT-X-VERSION:3\n#EXT-X-KEY:METHOD=NONE\n#EXT-ODD\n#EXTINF",
    );
    assert_eq!(media(&noisy, base), read);
}
