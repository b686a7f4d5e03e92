//! Segments: the ID3 skip, the sniff, the ADTS walk, the format guard and gunzip.

use std::io::Write;

use flate2::write::GzEncoder;
use flate2::Compression;

use ondar::hls::segment::{
    frame_length, gunzip, id3_end, normalise, normalise_adts, set_frame_length, sniff, AdtsFormat,
    Container, FormatChanged, FormatGuard, GunzipError, TS_PACKET_LEN,
};

/// A synthetic ADTS frame: header + `payload` bytes of `fill`. `id` sets the MPEG-2 bit, `crc`
/// adds two CRC bytes and clears `protection_absent`.
fn frame(sri: u8, ch: u8, payload: usize, fill: u8, id: bool, crc: bool) -> Vec<u8> {
    let header_len = if crc { 9 } else { 7 };
    let len = header_len + payload;
    let mut h = vec![0u8; header_len];
    h[0] = 0xFF;
    h[1] = 0xF0 | if id { 0x08 } else { 0 } | if crc { 0 } else { 1 };
    h[2] = (1 << 6) | (sri << 2) | (ch >> 2); // profile LC
    h[3] = ((ch & 0x03) << 6) | ((len >> 11) & 0x03) as u8;
    h[4] = ((len >> 3) & 0xFF) as u8;
    h[5] = ((len & 0x07) << 5) as u8 | 0x1F;
    h[6] = 0xFC;
    if crc {
        h[7] = 0xAB;
        h[8] = 0xCD;
    }
    h.extend(std::iter::repeat(fill).take(payload));
    h
}

/// An ID3v2 tag of `total` bytes.
fn tag(total: usize) -> Vec<u8> {
    let size = total - 10;
    let mut t = b"ID3\x04\x00\x00".to_vec();
    t.extend_from_slice(&[
        ((size >> 21) & 0x7F) as u8,
        ((size >> 14) & 0x7F) as u8,
        ((size >> 7) & 0x7F) as u8,
        (size & 0x7F) as u8,
    ]);
    t.extend(std::iter::repeat(0x41).take(size));
    t
}

/// Tags of these lengths followed by sixteen frames.
fn head(tags: &[usize], sri: u8, ch: u8, id: bool) -> Vec<u8> {
    let mut b = Vec::new();
    for t in tags {
        b.extend(tag(*t));
    }
    for i in 0..16 {
        b.extend(frame(sri, ch, 200 + i, i as u8, id, false));
    }
    b
}

fn adts_heads() -> [(&'static str, Vec<u8>); 5] {
    [
        ("01", head(&[73, 80], 3, 2, false)),
        ("02", head(&[73, 686], 6, 1, true)),
        ("07", head(&[1122], 3, 2, false)),
        ("08", head(&[1122], 7, 2, false)),
        ("10", head(&[73], 3, 2, false)),
    ]
}

fn ts_head(fill: u8) -> Vec<u8> {
    let mut b = vec![fill; 4 * TS_PACKET_LEN];
    for i in 0..4 {
        b[i * TS_PACKET_LEN] = 0x47;
    }
    b
}

fn ts_heads() -> [(&'static str, Vec<u8>); 4] {
    [
        ("03", ts_head(0)),
        ("04", ts_head(0xFF)),
        ("06", ts_head(0x10)),
        ("09", ts_head(0x47)),
    ]
}

#[test]
fn t7_sniff_names_adts_ts_fmp4_and_unknown_after_the_id3_tags() {
    for (nn, b) in &adts_heads() {
        assert_eq!(sniff(&b[id3_end(b)..]), Container::Adts, "station {nn}");
        assert_eq!(
            sniff(b),
            Container::Unknown,
            "station {nn} sniffed on its ID3 tag"
        );
    }
    for (nn, b) in &ts_heads() {
        assert_eq!(id3_end(b), 0, "station {nn}: TS has no leading ID3");
        assert_eq!(sniff(b), Container::MpegTs, "station {nn}");
    }
    let mut fmp4 = vec![0, 0, 0, 0x18];
    fmp4.extend_from_slice(b"ftypiso5");
    fmp4.extend_from_slice(&[0; 16]);
    assert_eq!(sniff(&fmp4), Container::Fmp4);
    assert_eq!(sniff(b"<html><body>404"), Container::Unknown);
    assert_eq!(sniff(&[]), Container::Unknown);
    assert_eq!(sniff(&[0xFF]), Container::Unknown);
    // `0x47` at 0 only (one packet, or a second packet that does not sync) is not TS.
    let mut one_packet = vec![0u8; TS_PACKET_LEN];
    one_packet[0] = 0x47;
    assert_eq!(sniff(&one_packet), Container::Unknown);
    let mut two = vec![0u8; 2 * TS_PACKET_LEN];
    two[0] = 0x47;
    assert_eq!(sniff(&two), Container::Unknown);
    two[TS_PACKET_LEN] = 0x47;
    assert_eq!(sniff(&two), Container::MpegTs);
    // An `FFF9` head is ADTS too: the sync ignores the ID bit.
    assert_eq!(sniff(&[0xFF, 0xF9, 0x50, 0x40]), Container::Adts);
    // Layer bits set (`FFFB` is an MP3 frame): not ADTS.
    assert_eq!(sniff(&[0xFF, 0xFB, 0x90, 0x00]), Container::Unknown);
}

#[test]
fn t8_every_leading_id3_tag_is_skipped_including_a_footer() {
    let heads = adts_heads();
    let b01 = &heads[0].1;
    assert_eq!(id3_end(b01), 153);
    assert_eq!(&b01[153..155], &[0xFF, 0xF1]);
    assert_eq!(
        &b01[73..76],
        b"ID3",
        "the second tag starts where the first ends"
    );
    assert_eq!(id3_end(&heads[2].1), 1_122);
    assert_eq!(id3_end(&heads[3].1), 1_122);
    assert_eq!(id3_end(&heads[4].1), 73);
    assert_eq!(id3_end(&heads[1].1), 759);
    assert_eq!(&heads[1].1[759..761], &[0xFF, 0xF9]);

    // A tag with the footer flag: 10 + size + 10.
    let mut tag = b"ID3\x04\x00\x10".to_vec(); // v2.4, flags 0x10 = footer present
    tag.extend_from_slice(&[0, 0, 0, 20]); // syncsafe size 20
    tag.extend_from_slice(&[0xAA; 20]);
    tag.extend_from_slice(b"3DI\x04\x00\x10\x00\x00\x00\x14"); // the footer
    tag.extend_from_slice(&[0xFF, 0xF1, 0x50]);
    assert_eq!(id3_end(&tag), 40);
    // No tag: 0; a truncated tag header: 0 (nothing to skip safely); a tag whose size overruns
    // the buffer clamps to the end.
    assert_eq!(id3_end(&[0xFF, 0xF1]), 0);
    assert_eq!(id3_end(b"ID3\x04"), 0);
    assert_eq!(id3_end(b"ID3\x04\x00\x00\x00\x00\x7F\x7F"), 10);
}

#[test]
fn t9_the_walk_rewrites_the_id_bit_and_keeps_every_payload_byte() {
    let heads = adts_heads();
    let b02 = &heads[1].1;
    let n = normalise(b02);
    assert_eq!(n.frames, 16);
    assert_eq!(n.rewritten, 16);
    assert_eq!(n.crc_dropped, 0);
    assert_eq!(n.partial_dropped, 0);
    assert_eq!(n.sync_lost, None);
    assert_eq!(
        n.format,
        Some(AdtsFormat {
            sri: 6,
            channel_config: 1
        })
    );
    assert_eq!(n.format.unwrap().sample_rate(), Some(24_000));
    let raw = &b02[759..];
    assert_eq!(
        n.bytes.len(),
        raw.len(),
        "the same bytes, one bit each header"
    );
    // Every frame header's ID bit cleared, every other byte identical.
    let mut i = 0;
    let mut headers = 0;
    while i < raw.len() {
        assert_eq!(n.bytes[i], 0xFF);
        assert_eq!(n.bytes[i + 1], raw[i + 1] & !0x08);
        assert_eq!(
            &n.bytes[i + 2..i + frame_length(&raw[i..])],
            &raw[i + 2..i + frame_length(&raw[i..])]
        );
        i += frame_length(&raw[i..]);
        headers += 1;
    }
    assert_eq!(headers, 16);

    // `FFF1` already; sixteen frames each, bytes unchanged.
    for (nn, b) in [&heads[0], &heads[2], &heads[3], &heads[4]] {
        let n = normalise(b);
        assert_eq!(n.frames, 16, "station {nn}");
        assert_eq!(n.rewritten, 0, "station {nn}");
        assert_eq!(n.bytes, &b[id3_end(b)..], "station {nn}");
        assert_eq!((n.partial_dropped, n.sync_lost), (0, None), "station {nn}");
    }
    assert_eq!(normalise(&heads[0].1).format.unwrap().text(), "48000/2");
    assert_eq!(normalise(&heads[3].1).format.unwrap().text(), "22050/2");
}

#[test]
fn t9_a_crc_frame_loses_its_two_bytes_and_a_partial_tail_is_dropped() {
    let f = frame(3, 2, 100, 0x5A, false, true);
    assert_eq!(f.len(), 109);
    let n = normalise_adts(&f);
    assert_eq!(n.frames, 1);
    assert_eq!(n.crc_dropped, 1);
    assert_eq!(n.bytes.len(), 107);
    assert_eq!(n.bytes[1] & 0x01, 1, "protection_absent set");
    assert_eq!(frame_length(&n.bytes), 107);
    assert_eq!(&n.bytes[7..], &[0x5A; 100][..]);
    assert_eq!(
        n.bytes[2], f[2],
        "profile, sri and the channel bit untouched"
    );

    // An ID-bit frame with a CRC: both fixed.
    let f = frame(7, 2, 50, 0x11, true, true);
    let n = normalise_adts(&f);
    assert_eq!((n.rewritten, n.crc_dropped), (1, 1));
    assert_eq!(&n.bytes[..2], &[0xFF, 0xF1]);

    // Three frames, the third cut short by 10 bytes: two come out, the tail is dropped and
    // counted.
    let mut three = frame(3, 2, 200, 1, false, false);
    three.extend(frame(3, 2, 200, 2, false, false));
    let last = frame(3, 2, 200, 3, false, false);
    three.extend(&last[..last.len() - 10]);
    let n = normalise_adts(&three);
    assert_eq!(n.frames, 2);
    assert_eq!(n.partial_dropped, 207 - 10);
    assert_eq!(n.bytes.len(), 2 * 207);
    assert_eq!(n.sync_lost, None);
    // A tail shorter than a header counts as partial too.
    let mut short = frame(3, 2, 20, 1, false, false);
    short.extend_from_slice(&[0xFF, 0xF1, 0x50]);
    let n = normalise_adts(&short);
    assert_eq!((n.frames, n.partial_dropped), (1, 3));

    // Garbage after a good frame: sync lost at its offset, the rest not emitted.
    let mut junk = frame(3, 2, 20, 1, false, false);
    junk.extend_from_slice(b"not adts at all, twenty bytes");
    let n = normalise_adts(&junk);
    assert_eq!(n.frames, 1);
    assert_eq!(n.sync_lost, Some((27, 29)));
    assert_eq!(n.bytes.len(), 27);
    // A header claiming a frame shorter than itself is a sync loss, not a zero-length loop.
    let mut zero = frame(3, 2, 0, 0, false, false);
    set_frame_length(&mut zero[..7].to_vec(), 0);
    zero[3] &= !0x03;
    zero[4] = 0;
    zero[5] &= 0x1F;
    let n = normalise_adts(&zero);
    assert_eq!((n.frames, n.sync_lost), (0, Some((0, 7))));
}

#[test]
fn t10_a_rate_or_channel_change_ends_the_source() {
    let mut g = FormatGuard::default();
    let a = AdtsFormat {
        sri: 3,
        channel_config: 2,
    };
    let b = AdtsFormat {
        sri: 7,
        channel_config: 2,
    };
    let c = AdtsFormat {
        sri: 3,
        channel_config: 1,
    };
    assert_eq!(g.first(), None);
    assert_eq!(g.check(a), Ok(()));
    assert_eq!(g.check(a), Ok(()));
    assert_eq!(g.first(), Some(a));
    let e = g.check(b).unwrap_err();
    assert_eq!(e, FormatChanged { from: a, to: b });
    assert_eq!(e.message(), "FormatChanged 48000/2 → 22050/2");
    assert_eq!(
        g.check(c).unwrap_err().message(),
        "FormatChanged 48000/2 → 48000/1"
    );
    // The guard keeps the first format after a refusal: the reopen builds a new guard.
    assert_eq!(g.first(), Some(a));
    assert_eq!(
        AdtsFormat {
            sri: 13,
            channel_config: 2
        }
        .text(),
        "sri13/2"
    );
}

#[test]
fn a_frame_length_reads_back() {
    for len in [0usize, 7, 8, 107, 2047, 2048, 4095, 8191] {
        let mut h = frame(4, 2, 20, 0, false, false);
        let before = h.clone();
        set_frame_length(&mut h, len);
        assert_eq!(frame_length(&h), len);
        assert_eq!(h[3] & 0xFC, before[3] & 0xFC);
        assert_eq!(h[5] & 0x1F, before[5] & 0x1F);
        assert_eq!((&h[..3], &h[6..]), (&before[..3], &before[6..]));
    }
}

#[test]
fn a_second_walk_changes_nothing() {
    let mut b = frame(3, 2, 100, 1, true, true);
    b.extend(frame(3, 2, 50, 2, false, false));
    b.extend(frame(3, 2, 70, 3, true, false));
    b.extend_from_slice(b"junk and more junk");
    let n = normalise_adts(&b);
    assert_eq!((n.frames, n.rewritten, n.crc_dropped), (3, 2, 1));
    let again = normalise_adts(&n.bytes);
    assert_eq!(again.bytes, n.bytes);
    assert_eq!((again.frames, again.format), (n.frames, n.format));
    assert_eq!(
        (again.rewritten, again.crc_dropped, again.partial_dropped),
        (0, 0, 0)
    );
    assert_eq!(again.sync_lost, None);
    // Every byte is accounted for.
    let lost = n.sync_lost.map(|(_, l)| l).unwrap_or(0);
    assert_eq!(
        n.bytes.len() + 2 * n.crc_dropped + n.partial_dropped + lost,
        b.len()
    );
}

#[test]
fn gunzip_inflates_the_gzip_fixture_and_refuses_plain_text() {
    let mut e = GzEncoder::new(Vec::new(), Compression::default());
    e.write_all(b"#EXTM3U\n#EXT-X-VERSION:3\n#EXT-X-TARGETDURATION:5\n#EXTINF:4.032,\nmedia_97863.aac\n")
        .unwrap();
    let gz = e.finish().unwrap();
    let text = String::from_utf8(gunzip(&gz, 1024 * 1024).unwrap()).unwrap();
    assert!(text.starts_with("#EXTM3U\n#EXT-X-VERSION:3\n#EXT-X-TARGETDURATION:5\n"));
    assert!(matches!(
        gunzip(b"#EXTM3U\n", 1024),
        Err(GunzipError::Invalid(_))
    ));
    let e = gunzip(b"#EXTM3U\n#EXTM3U\n", 1024).unwrap_err();
    assert_eq!(e.message(), "not gzip: invalid gzip header");
}

#[test]
fn gunzip_refuses_a_body_that_inflates_past_its_cap() {
    let zeros = vec![0u8; 64 * 1024];
    let mut e = GzEncoder::new(Vec::new(), Compression::best());
    e.write_all(&zeros).unwrap();
    let gz = e.finish().unwrap();
    assert!(gz.len() < 1024, "the body is small: {} bytes", gz.len());
    assert_eq!(gunzip(&gz, zeros.len()).unwrap().len(), zeros.len());
    assert!(matches!(
        gunzip(&gz, zeros.len() - 1),
        Err(GunzipError::TooLarge(_))
    ));
    assert!(matches!(
        gunzip(&gz, 16 * 1024),
        Err(GunzipError::TooLarge(_))
    ));
    assert_eq!(
        gunzip(&gz, 16 * 1024).unwrap_err().message(),
        "inflates past 16384 bytes"
    );
}
