//! Segment normalisation: the pure per-segment half of HLS.
//!
//! An HLS audio segment arrives as one or more ID3v2 tags (timed metadata) followed by ADTS
//! frames. A decoder plays them concatenated as sent: its sync scan skips the tags. Two things
//! it cannot do, and this module does:
//!
//! 1. **Rewrite the MPEG-2 ID bit.** The decoder's ADTS reader syncs only on `0xFFF1`; some
//!    stations send `0xFFF9`. The ID bit changes nothing in the payload, so it is cleared.
//! 2. **Drop a CRC.** A frame with `protection_absent == 0` carries two CRC bytes after the
//!    header; the decoder does not read them.
//!
//! The walk also drops a trailing partial frame and stops at a sync loss, both reported in
//! [`Normalised`] for the fetch loop to log. The **ID3 skip** is bounded and deterministic, not
//! relying on a tag's content. The **format guard** ends the source when a segment's sample-rate
//! index or channel configuration differs from the session's first, because the ring and the
//! converter behind it are built once per session for one format. The **container sniff** reads
//! the first bytes after the tags and names ADTS, MPEG-TS or fMP4 so the fetch layer can refuse
//! what the decoder cannot play, before downloading it.

use vstd::prelude::*;
use vstd::slice::slice_subrange;

use crate::outside::{inflate, inflated};
use crate::text;
use crate::text::digits;

verus! {

/// ADTS header: 7 bytes without a CRC, 9 with one.
pub const ADTS_HEADER_LEN: usize = 7;

pub const ADTS_CRC_LEN: usize = 2;

/// MPEG-TS packets are 188 bytes and start with `0x47`.
pub const TS_PACKET_LEN: usize = 188;

/// The bytes the sniff needs: two TS packets, so a lone `0x47` is not mistaken for TS.
pub const SNIFF_LEN: usize = 2 * TS_PACKET_LEN;

// ---------------------------------------------------------------------------------------------
// ID3

/// `b` begins with the header of an ID3v2 tag.
pub open spec fn is_tag(b: Seq<u8>) -> bool {
    b.len() >= 10 && b[0] == 0x49 && b[1] == 0x44 && b[2] == 0x33
}

/// The length of the tag that `b` begins with: a header of 10 bytes, a size of four 7-bit
/// digits, and 10 bytes more when flag `0x10` promises a footer.
pub open spec fn tag_len(b: Seq<u8>) -> nat {
    10 + (b[6] % 128) as nat * 0x20_0000 + (b[7] % 128) as nat * 0x4000 + (b[8] % 128) as nat * 0x80
        + (b[9] % 128) as nat + (if (b[5] / 16) % 2 == 1 {
        10nat
    } else {
        0nat
    })
}

/// The length of all the tags that `b` begins with; all of `b` when the last is cut short.
pub open spec fn tags_len(b: Seq<u8>) -> nat
    decreases b.len(),
{
    if !is_tag(b) {
        0
    } else if tag_len(b) >= b.len() {
        b.len()
    } else {
        tag_len(b) + tags_len(b.skip(tag_len(b) as int))
    }
}

/// The tags are part of the bytes.
proof fn tags_len_is_bounded(b: Seq<u8>)
    ensures
        tags_len(b) <= b.len(),
    decreases b.len(),
{
    if is_tag(b) && tag_len(b) < b.len() {
        tags_len_is_bounded(b.skip(tag_len(b) as int));
    }
}

/// The offset of the first byte after every leading ID3v2 tag (zero when there is none). A
/// tag is `ID3`, two version bytes, one flags byte and a 28-bit syncsafe size, plus a 10-byte
/// footer when flag `0x10` is set. Tags are skipped in a loop: there may be two per segment.
pub fn id3_end(bytes: &[u8]) -> (end: usize)
    ensures
        end == tags_len(bytes@),
        end <= bytes@.len(),
{
    let n: usize = bytes.len();
    let mut off: usize = 0;
    assert(bytes@.skip(0) == bytes@);
    while n - off >= 10 && bytes[off] == 0x49 && bytes[off + 1] == 0x44 && bytes[off + 2] == 0x33
        invariant
            n == bytes.len(),
            off <= n,
            off + tags_len(bytes@.skip(off as int)) == tags_len(bytes@),
        decreases n - off,
    {
        let ghost rest = bytes@.skip(off as int);
        assert(is_tag(rest));
        let size: usize = (bytes[off + 6] % 128) as usize * 0x20_0000 + (bytes[off + 7] % 128) as usize
            * 0x4000 + (bytes[off + 8] % 128) as usize * 0x80 + (bytes[off + 9] % 128) as usize;
        let footer: usize = if (bytes[off + 5] / 16) % 2 == 1 {
            10
        } else {
            0
        };
        let total: usize = 10 + size + footer;
        assert(total == tag_len(rest));
        if total >= n - off {
            return n;
        }
        assert(rest.skip(total as int) == bytes@.skip(off + total));
        off = off + total;
    }
    assert(!is_tag(bytes@.skip(off as int)));
    off
}

// ---------------------------------------------------------------------------------------------
// The container sniff

#[derive(Debug, Clone, Copy, PartialEq, Eq, Structural)]
pub enum Container {
    Adts,
    MpegTs,
    Fmp4,
    Unknown,
}

/// `0xFFF` followed by layer bits `00`; the ID bit and `protection_absent` may be either.
pub open spec fn syncs(b: Seq<u8>) -> bool {
    b.len() >= 2 && b[0] == 0xff && (b[1] == 0xf0 || b[1] == 0xf1 || b[1] == 0xf8 || b[1] == 0xf9)
}

/// The container that `b` begins: fMP4 is `ftyp` at offset 4, MPEG-TS is `0x47` at both 0 and
/// 188, ADTS is a sync word.
pub open spec fn container_of(b: Seq<u8>) -> Container {
    if b.len() >= 8 && b.subrange(4, 8) == seq![0x66u8, 0x74, 0x79, 0x70] {
        Container::Fmp4
    } else if b.len() > TS_PACKET_LEN && b[0] == 0x47 && b[TS_PACKET_LEN as int] == 0x47 {
        Container::MpegTs
    } else if syncs(b) {
        Container::Adts
    } else {
        Container::Unknown
    }
}

/// Names the container from the bytes **after** the ID3 tags (the caller strips them with
/// [`id3_end`]; sniffing the tag itself reads "unknown"). For MPEG-TS one packet's worth is not
/// enough: a stray `0x47` at 0 is not TS.
pub fn sniff(bytes: &[u8]) -> (c: Container)
    ensures
        c == container_of(bytes@),
{
    if bytes.len() >= 8 {
        let f = bytes[4] == 0x66 && bytes[5] == 0x74 && bytes[6] == 0x79 && bytes[7] == 0x70;
        proof {
            let head = bytes@.subrange(4, 8);
            let ftyp = seq![0x66u8, 0x74, 0x79, 0x70];
            if f {
                assert(head =~= ftyp);
            } else if head == ftyp {
                assert(head[0] == ftyp[0] && head[1] == ftyp[1] && head[2] == ftyp[2] && head[3]
                    == ftyp[3]);
            }
        }
        if f {
            return Container::Fmp4;
        }
    }
    if bytes.len() > TS_PACKET_LEN && bytes[0] == 0x47 && bytes[TS_PACKET_LEN] == 0x47 {
        return Container::MpegTs;
    }
    if is_adts_sync(bytes) {
        return Container::Adts;
    }
    Container::Unknown
}

pub fn is_adts_sync(b: &[u8]) -> (r: bool)
    ensures
        r == syncs(b@),
{
    b.len() >= 2 && b[0] == 0xff && (b[1] == 0xf0 || b[1] == 0xf1 || b[1] == 0xf8 || b[1] == 0xf9)
}

// ---------------------------------------------------------------------------------------------
// The ADTS frame

/// What the first ADTS header of a segment declares. `sri` is a sampling-frequency index.
#[derive(Debug, Clone, Copy, PartialEq, Eq, Structural)]
pub struct AdtsFormat {
    pub sri: u8,
    pub channel_config: u8,
}

/// The sampling-frequency index table (ISO 14496-3). The indices from 13 on are reserved.
pub open spec fn rate_of(sri: u8) -> Option<u32> {
    match sri {
        0 => Some(96_000),
        1 => Some(88_200),
        2 => Some(64_000),
        3 => Some(48_000),
        4 => Some(44_100),
        5 => Some(32_000),
        6 => Some(24_000),
        7 => Some(22_050),
        8 => Some(16_000),
        9 => Some(12_000),
        10 => Some(11_025),
        11 => Some(8_000),
        12 => Some(7_350),
        _ => None,
    }
}

/// A format as it is logged: `44100/2`, or `sri13/2` for a reserved index.
pub open spec fn format_text(f: AdtsFormat) -> Seq<char> {
    (match rate_of(f.sri) {
        Some(hz) => digits(hz as nat),
        None => "sri"@ + digits(f.sri as nat),
    }) + "/"@ + digits(f.channel_config as nat)
}

impl AdtsFormat {
    /// The sample rate the index names, or `None` for a reserved index.
    pub fn sample_rate(&self) -> (r: Option<u32>)
        ensures
            r == rate_of(self.sri),
    {
        match self.sri {
            0 => Some(96_000),
            1 => Some(88_200),
            2 => Some(64_000),
            3 => Some(48_000),
            4 => Some(44_100),
            5 => Some(32_000),
            6 => Some(24_000),
            7 => Some(22_050),
            8 => Some(16_000),
            9 => Some(12_000),
            10 => Some(11_025),
            11 => Some(8_000),
            12 => Some(7_350),
            _ => None,
        }
    }

    /// The format as it is logged.
    pub fn text(&self) -> (s: String)
        ensures
            s@ == format_text(*self),
    {
        let mut out: Vec<char> = Vec::new();
        match self.sample_rate() {
            Some(hz) => {
                text::push_digits(&mut out, hz as u64);
                assert(out@ =~= digits(hz as nat));
            },
            None => {
                text::push_str(&mut out, "sri");
                text::push_digits(&mut out, self.sri as u64);
                assert(out@ =~= "sri"@ + digits(self.sri as nat));
            },
        }
        text::push_str(&mut out, "/");
        text::push_digits(&mut out, self.channel_config as u64);
        text::string_of(&out)
    }
}

/// The frame length that a header declares: 13 bits across bytes 3 to 5, the whole frame with
/// its header.
pub open spec fn declared_len(h: Seq<u8>) -> nat {
    (h[3] % 4) as nat * 2048 + h[4] as nat * 8 + (h[5] / 32) as nat
}

/// A header with its declared length replaced.
pub open spec fn with_len(h: Seq<u8>, len: nat) -> Seq<u8> {
    h.update(3, (h[3] / 4 * 4 + len / 2048 % 4) as u8).update(4, (len / 8 % 256) as u8).update(
        5,
        (h[5] % 32 + len % 8 * 32) as u8,
    )
}

/// `protection_absent` is 0: a CRC follows the header.
pub open spec fn has_crc(h: Seq<u8>) -> bool {
    h[1] % 2 == 0
}

/// The ID bit says MPEG-2.
pub open spec fn is_mpeg2(h: Seq<u8>) -> bool {
    h[1] / 8 % 2 == 1
}

pub open spec fn header_len(h: Seq<u8>) -> nat {
    if has_crc(h) {
        9
    } else {
        7
    }
}

pub open spec fn format_of(h: Seq<u8>) -> AdtsFormat {
    AdtsFormat { sri: h[2] / 4 % 16, channel_config: (h[2] % 2 * 4 + h[3] / 64) as u8 }
}

/// `b` begins with a whole frame.
pub open spec fn whole_frame(b: Seq<u8>) -> bool {
    b.len() >= 7 && syncs(b) && header_len(b) <= declared_len(b) <= b.len()
}

/// The whole frames that `b` begins with, one after the other.
pub open spec fn frames_of(b: Seq<u8>) -> Seq<Seq<u8>>
    decreases b.len(),
{
    if whole_frame(b) {
        seq![b.take(declared_len(b) as int)] + frames_of(b.skip(declared_len(b) as int))
    } else {
        Seq::empty()
    }
}

/// What is left of `b` after its whole frames.
pub open spec fn after_frames(b: Seq<u8>) -> Seq<u8>
    decreases b.len(),
{
    if whole_frame(b) {
        after_frames(b.skip(declared_len(b) as int))
    } else {
        b
    }
}

/// What is left is the beginning of a frame that was cut short.
pub open spec fn is_partial(rest: Seq<u8>) -> bool {
    rest.len() > 0 && (rest.len() < 7 || (syncs(rest) && declared_len(rest) >= header_len(rest)))
}

/// A frame as the decoder wants it: the ID bit cleared, the CRC gone, `protection_absent` 1 and
/// the declared length that of what is left. The payload stays.
pub open spec fn clean(f: Seq<u8>) -> Seq<u8> {
    let head = f.take(7).update(1, 0xf1);
    let payload = f.skip(header_len(f) as int);
    if has_crc(f) {
        with_len(head, (f.len() - 2) as nat) + payload
    } else {
        head + payload
    }
}

/// The frames cleaned and put one after the other.
pub open spec fn cleaned(frames: Seq<Seq<u8>>) -> Seq<u8>
    decreases frames.len(),
{
    if frames.len() == 0 {
        Seq::empty()
    } else {
        cleaned(frames.drop_last()) + clean(frames.last())
    }
}

/// How many frames say MPEG-2.
pub open spec fn mpeg2_count(frames: Seq<Seq<u8>>) -> nat {
    frames.filter(|f: Seq<u8>| is_mpeg2(f)).len()
}

/// How many frames carry a CRC.
pub open spec fn crc_count(frames: Seq<Seq<u8>>) -> nat {
    frames.filter(|f: Seq<u8>| has_crc(f)).len()
}

/// `frame_length`, 13 bits across bytes 3 to 5: the whole frame including the header.
pub fn frame_length(h: &[u8]) -> (n: usize)
    requires
        h@.len() >= 6,
    ensures
        n == declared_len(h@),
        n < 8192,
{
    (h[3] % 4) as usize * 2048 + h[4] as usize * 8 + (h[5] / 32) as usize
}

/// Replaces the declared frame length.
pub fn set_frame_length(h: &mut Vec<u8>, len: usize)
    requires
        old(h)@.len() >= 6,
    ensures
        final(h)@ == with_len(old(h)@, len as nat),
{
    let h3: u8 = h[3] / 4 * 4 + (len / 2048 % 4) as u8;
    let h4: u8 = (len / 8 % 256) as u8;
    let h5: u8 = h[5] % 32 + (len % 8) as u8 * 32;
    h.set(3, h3);
    h.set(4, h4);
    h.set(5, h5);
}

/// A declared length reads back as it was written, and nothing else of the header changes.
pub proof fn length_reads_back(h: Seq<u8>, len: nat)
    requires
        h.len() >= 6,
        len < 8192,
    ensures
        declared_len(with_len(h, len)) == len,
        with_len(h, len).len() == h.len(),
        forall|i: int| 0 <= i < h.len() && !(3 <= i <= 5) ==> with_len(h, len)[i] == h[i],
        with_len(h, len)[3] / 4 == h[3] / 4,
        with_len(h, len)[5] % 32 == h[5] % 32,
{
}

// ---------------------------------------------------------------------------------------------
// The ADTS walk

/// One segment after the walk.
#[derive(Debug, Clone, PartialEq, Eq)]
pub struct Normalised {
    /// The frames, whole, in order, with the ID bit cleared and any CRC removed.
    pub bytes: Vec<u8>,
    pub frames: usize,
    /// The first frame's format; `None` when no frame synced.
    pub format: Option<AdtsFormat>,
    /// Frames whose `FFF9` header was rewritten to `FFF1`.
    pub rewritten: usize,
    /// Frames whose two CRC bytes were removed.
    pub crc_dropped: usize,
    /// Bytes of a trailing frame the segment cut short, dropped.
    pub partial_dropped: usize,
    /// The offset (in the walked bytes) at which sync was lost, and how many bytes followed.
    /// `None` when the walk reached the end cleanly.
    pub sync_lost: Option<(usize, usize)>,
}

/// `n` is what the walk makes of `b`.
pub open spec fn is_walk_of(n: Normalised, b: Seq<u8>) -> bool {
    let frames = frames_of(b);
    let rest = after_frames(b);
    &&& n.bytes@ == cleaned(frames)
    &&& n.frames == frames.len()
    &&& n.format == (if frames.len() > 0 {
        Some(format_of(frames[0]))
    } else {
        None
    })
    &&& n.rewritten == mpeg2_count(frames)
    &&& n.crc_dropped == crc_count(frames)
    &&& n.partial_dropped == (if is_partial(rest) {
        rest.len()
    } else {
        0
    })
    &&& n.sync_lost == (if rest.len() == 0 || is_partial(rest) {
        None
    } else {
        Some(((b.len() - rest.len()) as usize, rest.len() as usize))
    })
}

/// Strips the leading ID3 tags and walks the ADTS frames (see the module's documentation).
pub fn normalise(segment: &[u8]) -> (n: Normalised)
    ensures
        is_walk_of(n, segment@.skip(tags_len(segment@) as int)),
{
    let end: usize = id3_end(segment);
    let b: &[u8] = slice_subrange(segment, end, segment.len());
    assert(b@ =~= segment@.skip(end as int));
    normalise_adts(b)
}

/// Appends the bytes of `s` to `out`.
fn push_bytes(out: &mut Vec<u8>, s: &[u8])
    ensures
        final(out)@ == old(out)@ + s@,
{
    let ghost start = out@;
    out.extend_from_slice(s);
    assert(out@ =~= start + s@);
}

/// Appends the frame `f`, cleaned, to `out`.
fn push_clean(out: &mut Vec<u8>, f: &[u8])
    requires
        whole_frame(f@),
        declared_len(f@) == f@.len(),
    ensures
        final(out)@ == old(out)@ + clean(f@),
{
    let ghost start = out@;
    let mut header: Vec<u8> = Vec::new();
    push_bytes(&mut header, slice_subrange(f, 0, ADTS_HEADER_LEN));
    header.set(1, 0xf1);
    assert(header@ =~= f@.take(7).update(1, 0xf1));
    let payload: &[u8];
    if f[1] % 2 == 0 {
        set_frame_length(&mut header, f.len() - ADTS_CRC_LEN);
        payload = slice_subrange(f, ADTS_HEADER_LEN + ADTS_CRC_LEN, f.len());
    } else {
        payload = slice_subrange(f, ADTS_HEADER_LEN, f.len());
    }
    assert(payload@ =~= f@.skip(header_len(f@) as int));
    push_bytes(out, &header);
    push_bytes(out, payload);
    assert(out@ =~= start + clean(f@));
}

/// The ADTS walk on bytes that start at a frame header.
pub fn normalise_adts(b: &[u8]) -> (n: Normalised)
    ensures
        is_walk_of(n, b@),
{
    let mut bytes: Vec<u8> = Vec::new();
    let mut frames: usize = 0;
    let mut format: Option<AdtsFormat> = None;
    let mut rewritten: usize = 0;
    let mut crc_dropped: usize = 0;
    let mut i: usize = 0;
    let ghost mut done: Seq<Seq<u8>> = Seq::empty();
    proof {
        reveal(Seq::filter);
        assert(b@.skip(0) == b@);
        assert(done + frames_of(b@) =~= frames_of(b@));
    }
    loop
        invariant
            i <= b.len(),
            frames_of(b@) == done + frames_of(b@.skip(i as int)),
            after_frames(b@) == after_frames(b@.skip(i as int)),
            bytes@ == cleaned(done),
            frames == done.len(),
            frames <= i,
            format == (if done.len() > 0 {
                Some(format_of(done[0]))
            } else {
                None
            }),
            rewritten == mpeg2_count(done),
            crc_dropped == crc_count(done),
            rewritten <= frames,
            crc_dropped <= frames,
        decreases b.len() - i,
    {
        let rest: &[u8] = slice_subrange(b, i, b.len());
        assert(rest@ =~= b@.skip(i as int));
        let mut partial_dropped: usize = 0;
        let mut sync_lost: Option<(usize, usize)> = None;
        let mut stop = true;
        let mut frame_len: usize = 0;
        if rest.len() == 0 {
        } else if rest.len() < ADTS_HEADER_LEN {
            // Not even a header: the tail of a frame the segment cut short.
            partial_dropped = rest.len();
        } else if !is_adts_sync(rest) {
            sync_lost = Some((i, rest.len()));
        } else {
            frame_len = frame_length(rest);
            let header: usize = if rest[1] % 2 == 1 {
                ADTS_HEADER_LEN
            } else {
                ADTS_HEADER_LEN + ADTS_CRC_LEN
            };
            if frame_len < header {
                sync_lost = Some((i, rest.len()));
            } else if frame_len > rest.len() {
                partial_dropped = rest.len();
            } else {
                stop = false;
            }
        }
        if stop {
            assert(!whole_frame(rest@));
            assert(frames_of(b@) =~= done);
            return Normalised {
                bytes,
                frames,
                format,
                rewritten,
                crc_dropped,
                partial_dropped,
                sync_lost,
            };
        }
        let frame: &[u8] = slice_subrange(rest, 0, frame_len);
        let ghost was = done;
        proof {
            assert(frame@ =~= rest@.take(frame_len as int));
            assert(frame@[1] == rest@[1] && frame@[2] == rest@[2] && frame@[3] == rest@[3]);
            assert(frame@[4] == rest@[4] && frame@[5] == rest@[5]);
            reveal(Seq::filter);
            done = done.push(frame@);
            assert(done.drop_last() =~= was);
            assert(done + frames_of(rest@.skip(frame_len as int)) =~= was + frames_of(rest@));
            assert(rest@.skip(frame_len as int) =~= b@.skip(i + frame_len));
        }
        if format.is_none() {
            let sri: u8 = frame[2] / 4 % 16;
            let channel_config: u8 = frame[2] % 2 * 4 + frame[3] / 64;
            format = Some(AdtsFormat { sri, channel_config });
        }
        if frame[1] / 8 % 2 == 1 {
            rewritten = rewritten + 1;
        }
        if frame[1] % 2 == 0 {
            crc_dropped = crc_dropped + 1;
        }
        push_clean(&mut bytes, frame);
        frames = frames + 1;
        i = i + frame_len;
    }
}

// ---------------------------------------------------------------------------------------------
// What the walk keeps

/// A cleaned frame followed by anything is a whole frame again, MPEG-4 and without a CRC, of the
/// same format and with the same payload, and cleaning it once more changes nothing.
pub proof fn clean_is_a_frame(f: Seq<u8>, tail: Seq<u8>)
    requires
        whole_frame(f),
        declared_len(f) == f.len(),
    ensures
        whole_frame(clean(f) + tail),
        declared_len(clean(f) + tail) == clean(f).len(),
        clean(f).len() == f.len() - (if has_crc(f) {
            2int
        } else {
            0int
        }),
        !has_crc(clean(f)),
        !is_mpeg2(clean(f)),
        format_of(clean(f)) == format_of(f),
        clean(f).skip(7) == f.skip(header_len(f) as int),
        clean(clean(f)) == clean(f),
{
    let head = f.take(7).update(1, 0xf1);
    let c = clean(f);
    assert(declared_len(head) == declared_len(f));
    if has_crc(f) {
        length_reads_back(head, (f.len() - 2) as nat);
        assert(c.take(7) =~= with_len(head, (f.len() - 2) as nat));
    } else {
        assert(c.take(7) =~= head);
    }
    let all = c + tail;
    assert(c[0] == 0xff && c[1] == 0xf1);
    assert(all[0] == c[0] && all[1] == c[1] && all[3] == c[3] && all[4] == c[4] && all[5] == c[5]);
    assert(c[3] == c.take(7)[3] && c[4] == c.take(7)[4] && c[5] == c.take(7)[5]);
    assert(c[2] == f[2] && c[3] / 64 == f[3] / 64) by {
        assert(c[3] / 4 == f[3] / 4);
        assert(c[3] / 64 == c[3] / 4 / 16 && f[3] / 64 == f[3] / 4 / 16);
    }
    assert(declared_len(c.take(7)) == declared_len(all));
    assert(c.skip(7) =~= f.skip(header_len(f) as int));
    assert(clean(c) =~= c);
}

/// The frames of cleaned frames are those cleaned frames, to the last byte.
proof fn frames_of_cleaned(frames: Seq<Seq<u8>>, tail: Seq<u8>)
    requires
        forall|i: int|
            0 <= i < frames.len() ==> whole_frame(#[trigger] frames[i]) && declared_len(frames[i])
                == frames[i].len(),
    ensures
        frames_of(cleaned(frames) + tail) == frames.map_values(|f: Seq<u8>| clean(f)) + frames_of(
            tail,
        ),
        after_frames(cleaned(frames) + tail) == after_frames(tail),
    decreases frames.len(),
{
    if frames.len() == 0 {
        assert(cleaned(frames) + tail =~= tail);
        assert(frames.map_values(|f: Seq<u8>| clean(f)) + frames_of(tail) =~= frames_of(tail));
    } else {
        let f = frames.last();
        let c = clean(f);
        let before = frames.drop_last();
        assert(cleaned(frames) + tail =~= cleaned(before) + (c + tail));
        frames_of_cleaned(before, c + tail);
        clean_is_a_frame(f, tail);
        assert((c + tail).take(c.len() as int) =~= c);
        assert((c + tail).skip(c.len() as int) =~= tail);
        assert(frames_of(c + tail) == seq![c] + frames_of(tail));
        assert(frames.map_values(|f: Seq<u8>| clean(f)) =~= before.map_values(
            |f: Seq<u8>| clean(f),
        ).push(c));
        assert(before.map_values(|f: Seq<u8>| clean(f)) + (seq![c] + frames_of(tail))
            =~= frames.map_values(|f: Seq<u8>| clean(f)) + frames_of(tail));
    }
}

/// Each of the frames found is a whole frame and nothing more.
pub proof fn frames_are_whole(b: Seq<u8>)
    ensures
        forall|i: int|
            0 <= i < frames_of(b).len() ==> whole_frame(#[trigger] frames_of(b)[i])
                && declared_len(frames_of(b)[i]) == frames_of(b)[i].len(),
    decreases b.len(),
{
    if whole_frame(b) {
        let n = declared_len(b) as int;
        let f = b.take(n);
        assert(f[0] == b[0] && f[1] == b[1] && f[3] == b[3] && f[4] == b[4] && f[5] == b[5]);
        frames_are_whole(b.skip(n));
        assert forall|i: int| 0 <= i < frames_of(b).len() implies whole_frame(
            #[trigger] frames_of(b)[i],
        ) && declared_len(frames_of(b)[i]) == frames_of(b)[i].len() by {
            if i > 0 {
                assert(frames_of(b)[i] == frames_of(b.skip(n))[i - 1]);
            }
        }
    }
}

/// No frame of a cleaned run says MPEG-2 or carries a CRC.
proof fn cleaned_counts_are_zero(frames: Seq<Seq<u8>>)
    requires
        forall|i: int|
            0 <= i < frames.len() ==> !is_mpeg2(#[trigger] frames[i]) && !has_crc(frames[i]),
    ensures
        mpeg2_count(frames) == 0,
        crc_count(frames) == 0,
    decreases frames.len(),
{
    reveal(Seq::filter);
    if frames.len() > 0 {
        let before = frames.drop_last();
        assert forall|i: int| 0 <= i < before.len() implies !is_mpeg2(#[trigger] before[i])
            && !has_crc(before[i]) by {
            assert(before[i] == frames[i]);
        }
        cleaned_counts_are_zero(before);
        assert(!is_mpeg2(frames[frames.len() - 1]) && !has_crc(frames[frames.len() - 1]));
    }
}

/// Walking what a walk gave changes nothing more: the same bytes, as many frames, the same
/// format, nothing rewritten, nothing dropped and no sync lost.
pub proof fn walk_is_idempotent(first: Normalised, second: Normalised, b: Seq<u8>)
    requires
        is_walk_of(first, b),
        is_walk_of(second, first.bytes@),
    ensures
        second.bytes@ == first.bytes@,
        second.frames == first.frames,
        second.format == first.format,
        second.rewritten == 0,
        second.crc_dropped == 0,
        second.partial_dropped == 0,
        second.sync_lost is None,
{
    let frames = frames_of(b);
    let again = frames.map_values(|f: Seq<u8>| clean(f));
    let none = Seq::<u8>::empty();
    frames_are_whole(b);
    frames_of_cleaned(frames, none);
    assert(cleaned(frames) + none =~= cleaned(frames));
    assert(again + frames_of(none) =~= again);
    assert(frames_of(first.bytes@) == again);
    assert forall|i: int| 0 <= i < again.len() implies !is_mpeg2(#[trigger] again[i]) && !has_crc(
        again[i],
    ) by {
        assert(whole_frame(frames[i]));
        clean_is_a_frame(frames[i], none);
    }
    cleaned_counts_are_zero(again);
    cleaned_again(frames);
    if frames.len() > 0 {
        assert(whole_frame(frames[0]));
        clean_is_a_frame(frames[0], none);
        assert(again[0] == clean(frames[0]));
    }
}

proof fn cleaned_again(frames: Seq<Seq<u8>>)
    requires
        forall|i: int|
            0 <= i < frames.len() ==> whole_frame(#[trigger] frames[i]) && declared_len(frames[i])
                == frames[i].len(),
    ensures
        cleaned(frames.map_values(|f: Seq<u8>| clean(f))) == cleaned(frames),
    decreases frames.len(),
{
    let again = frames.map_values(|f: Seq<u8>| clean(f));
    if frames.len() > 0 {
        let before = frames.drop_last();
        assert(again.drop_last() =~= before.map_values(|f: Seq<u8>| clean(f)));
        cleaned_again(before);
        assert(whole_frame(frames[frames.len() - 1]));
        clean_is_a_frame(frames.last(), Seq::empty());
    }
}

/// Every byte walked is accounted for: it is in the output, in a CRC that was removed, in the
/// partial frame that was dropped, or after the point where sync was lost.
pub proof fn every_byte_is_accounted_for(n: Normalised, b: Seq<u8>)
    requires
        is_walk_of(n, b),
        b.len() <= usize::MAX,
    ensures
        n.bytes@.len() + 2 * n.crc_dropped + n.partial_dropped + (match n.sync_lost {
            Some((_, lost)) => lost as int,
            None => 0,
        }) == b.len(),
        n.sync_lost matches Some((at, lost)) ==> at + lost == b.len(),
        n.partial_dropped > 0 ==> n.sync_lost is None,
{
    frames_are_whole(b);
    cleaned_len(frames_of(b));
    frames_and_rest(b);
}

/// The bytes of all the frames.
pub open spec fn total_len(frames: Seq<Seq<u8>>) -> nat
    decreases frames.len(),
{
    if frames.len() == 0 {
        0
    } else {
        total_len(frames.drop_last()) + frames.last().len()
    }
}

proof fn cleaned_len(frames: Seq<Seq<u8>>)
    requires
        forall|i: int|
            0 <= i < frames.len() ==> whole_frame(#[trigger] frames[i]) && declared_len(frames[i])
                == frames[i].len(),
    ensures
        cleaned(frames).len() + 2 * crc_count(frames) == total_len(frames),
    decreases frames.len(),
{
    reveal(Seq::filter);
    if frames.len() > 0 {
        cleaned_len(frames.drop_last());
        assert(whole_frame(frames[frames.len() - 1]));
        clean_is_a_frame(frames.last(), Seq::empty());
    }
}

proof fn total_len_prepend(f: Seq<u8>, frames: Seq<Seq<u8>>)
    ensures
        total_len(seq![f] + frames) == f.len() + total_len(frames),
    decreases frames.len(),
{
    let all = seq![f] + frames;
    if frames.len() == 0 {
        assert(all.drop_last() =~= Seq::<Seq<u8>>::empty());
        assert(total_len(all.drop_last()) == 0);
    } else {
        assert(all.drop_last() =~= seq![f] + frames.drop_last());
        assert(all.last() == frames.last());
        total_len_prepend(f, frames.drop_last());
    }
}

proof fn frames_and_rest(b: Seq<u8>)
    ensures
        total_len(frames_of(b)) + after_frames(b).len() == b.len(),
    decreases b.len(),
{
    if whole_frame(b) {
        let n = declared_len(b) as int;
        frames_and_rest(b.skip(n));
        total_len_prepend(b.take(n), frames_of(b.skip(n)));
    }
}

// ---------------------------------------------------------------------------------------------
// The format guard

/// A segment's format differs from the session's first. The source ends and the session
/// reopens with a decoder, ring and converter built for the new format.
#[derive(Debug, Clone, Copy, PartialEq, Eq, Structural)]
pub struct FormatChanged {
    pub from: AdtsFormat,
    pub to: AdtsFormat,
}

impl FormatChanged {
    /// The change as it is logged.
    pub fn message(&self) -> (m: String)
        ensures
            m@ == "FormatChanged "@ + format_text(self.from) + " → "@ + format_text(self.to),
    {
        "FormatChanged ".to_owned().concat(self.from.text().as_str()).concat(" → ").concat(
            self.to.text().as_str(),
        )
    }
}

#[derive(Debug, Clone, Copy, PartialEq, Eq, Structural)]
pub struct FormatGuard {
    pub first: Option<AdtsFormat>,
}

impl Default for FormatGuard {
    fn default() -> (g: FormatGuard)
        ensures
            g.first is None,
    {
        FormatGuard { first: None }
    }
}

impl FormatGuard {
    /// Accepts the first format seen; refuses any later one that differs.
    pub fn check(&mut self, format: AdtsFormat) -> (r: Result<(), FormatChanged>)
        ensures
            r == (match old(self).first {
                Some(first) if first != format => Err(FormatChanged { from: first, to: format }),
                _ => Ok(()),
            }),
            final(self).first == (match old(self).first {
                Some(first) => Some(first),
                None => Some(format),
            }),
    {
        match self.first {
            None => {
                self.first = Some(format);
                Ok(())
            },
            Some(first) => if first == format {
                Ok(())
            } else {
                Err(FormatChanged { from: first, to: format })
            },
        }
    }

    pub fn first(&self) -> (f: Option<AdtsFormat>)
        ensures
            f == self.first,
    {
        self.first
    }
}

// ---------------------------------------------------------------------------------------------
// gzip

/// Why a body did not inflate.
#[derive(Debug, Clone, PartialEq, Eq)]
pub enum GunzipError {
    /// It inflates past the caller's cap (the cap is carried).
    TooLarge(usize),
    /// It is not gzip, or is truncated; the decoder's words.
    Invalid(String),
}

pub enum GunzipErrorView {
    TooLarge(usize),
    Invalid(Seq<char>),
}

impl View for GunzipError {
    type V = GunzipErrorView;

    open spec fn view(&self) -> GunzipErrorView {
        match self {
            GunzipError::TooLarge(max) => GunzipErrorView::TooLarge(*max),
            GunzipError::Invalid(e) => GunzipErrorView::Invalid(e@),
        }
    }
}

/// The sentence for an error.
pub open spec fn gunzip_text(e: GunzipErrorView) -> Seq<char> {
    match e {
        GunzipErrorView::TooLarge(max) => "inflates past "@ + digits(max as nat) + " bytes"@,
        GunzipErrorView::Invalid(e) => "not gzip: "@ + e,
    }
}

impl GunzipError {
    pub fn message(&self) -> (m: String)
        ensures
            m@ == gunzip_text(self@),
    {
        match self {
            GunzipError::TooLarge(max) => {
                let mut out = text::chars_of("inflates past ");
                text::push_digits(&mut out, *max as u64);
                text::push_str(&mut out, " bytes");
                text::string_of(&out)
            },
            GunzipError::Invalid(e) => "not gzip: ".to_owned().concat(e.as_str()),
        }
    }
}

/// How many bytes are inflated to find out whether a body is longer than `max`.
pub open spec fn inflate_limit(max: usize) -> u64 {
    if max < u64::MAX {
        (max + 1) as u64
    } else {
        u64::MAX
    }
}

/// What a body that inflates to `inflated` is worth to a caller who takes `max` bytes.
pub open spec fn capped(inflated: Result<Seq<u8>, Seq<char>>, max: usize) -> Result<
    Seq<u8>,
    GunzipErrorView,
> {
    match inflated {
        Err(e) => Err(GunzipErrorView::Invalid(e)),
        Ok(v) => if v.len() > max {
            Err(GunzipErrorView::TooLarge(max))
        } else {
            Ok(v)
        },
    }
}

pub open spec fn gunzip_view(r: Result<Vec<u8>, GunzipError>) -> Result<Seq<u8>, GunzipErrorView> {
    match r {
        Ok(v) => Ok(v@),
        Err(e) => Err(e@),
    }
}

/// Refuses what inflated past `max` bytes.
pub fn cap_inflated(inflated: Result<Vec<u8>, String>, max: usize) -> (r: Result<
    Vec<u8>,
    GunzipError,
>)
    ensures
        gunzip_view(r) == capped(
            match inflated {
                Ok(v) => Ok(v@),
                Err(e) => Err(e@),
            },
            max,
        ),
        r matches Ok(v) ==> v@.len() <= max,
{
    match inflated {
        Err(e) => Err(GunzipError::Invalid(e)),
        Ok(v) => if v.len() > max {
            Err(GunzipError::TooLarge(max))
        } else {
            Ok(v)
        },
    }
}

/// Inflates a gzip body, refusing one that inflates past `max` bytes. Decided by the response's
/// `Content-Encoding: gzip`, never requested: some stations gzip their playlists unasked, and
/// asking would change the request for every Icecast station too.
///
/// `max` is the caller's cap on the body, the same cap its compressed bytes already met. The
/// inflate reads at most one byte more, so a body of zeros cannot become a multi-gigabyte
/// vector.
pub fn gunzip(bytes: &[u8], max: usize) -> (r: Result<Vec<u8>, GunzipError>)
    ensures
        gunzip_view(r) == capped(inflated(bytes@, inflate_limit(max)), max),
        r matches Ok(v) ==> v@.len() <= max,
{
    let limit: u64 = (max as u64).saturating_add(1);
    cap_inflated(inflate(bytes, limit), max)
}

// ---------------------------------------------------------------------------------------------
// What the bytes of a segment mean

/// The bytes of the frames, one after the other, and what follows them.
pub open spec fn laid_out(frames: Seq<Seq<u8>>, tail: Seq<u8>) -> Seq<u8>
    decreases frames.len(),
{
    if frames.len() == 0 {
        tail
    } else {
        frames[0] + laid_out(frames.skip(1), tail)
    }
}

/// Frames that are laid out one after the other are found again, all of them and in their order,
/// and what follows them is what is left.
pub proof fn frames_are_found_again(frames: Seq<Seq<u8>>, tail: Seq<u8>)
    requires
        forall|i: int|
            0 <= i < frames.len() ==> whole_frame(#[trigger] frames[i]) && declared_len(frames[i])
                == frames[i].len(),
        !whole_frame(tail),
    ensures
        frames_of(laid_out(frames, tail)) == frames,
        after_frames(laid_out(frames, tail)) == tail,
    decreases frames.len(),
{
    if frames.len() == 0 {
        assert(frames =~= Seq::<Seq<u8>>::empty());
    } else {
        let f = frames[0];
        let rest = frames.skip(1);
        assert forall|i: int| 0 <= i < rest.len() implies whole_frame(#[trigger] rest[i])
            && declared_len(rest[i]) == rest[i].len() by {
            assert(rest[i] == frames[i + 1]);
        }
        frames_are_found_again(rest, tail);
        let all = f + laid_out(rest, tail);
        assert(whole_frame(f));
        assert(all[0] == f[0] && all[1] == f[1] && all[3] == f[3] && all[4] == f[4] && all[5]
            == f[5]);
        assert(all.take(f.len() as int) =~= f);
        assert(all.skip(f.len() as int) =~= laid_out(rest, tail));
        assert(seq![f] + rest =~= frames);
    }
}

/// The fields of an ADTS header: twelve sync bits, two layer bits of zero; the bit that says
/// MPEG-2; the bit that says that no CRC follows; four bits of sampling rate; three of channels;
/// thirteen of length, all of them where ISO 13818-7 puts them.
pub proof fn the_fields_of_a_header(h: Seq<u8>)
    requires
        h.len() >= 7,
    ensures
        syncs(h) <==> h[0] == 0xff && h[1] & 0xf6 == 0xf0,
        is_mpeg2(h) <==> h[1] & 0x08 != 0,
        has_crc(h) <==> h[1] & 0x01 == 0,
        header_len(h) == (if h[1] & 0x01 == 0 {
            9int
        } else {
            7
        }),
        format_of(h).sri == (h[2] >> 2) & 0x0f,
        format_of(h).channel_config == ((h[2] & 0x01) << 2) | (h[3] >> 6),
        declared_len(h) == (((h[3] & 0x03) as u32) << 11) | ((h[4] as u32) << 3) | ((h[5]
            >> 5) as u32),
{
    let (b1, b2, b3, b4, b5) = (h[1], h[2], h[3], h[4], h[5]);
    assert(b1 & 0xf6 == 0xf0 <==> (b1 == 0xf0 || b1 == 0xf1 || b1 == 0xf8 || b1 == 0xf9))
        by (bit_vector);
    assert(b1 & 0x08 != 0 <==> b1 / 8 % 2 == 1) by (bit_vector);
    assert(b1 & 0x01 == 0 <==> b1 % 2 == 0) by (bit_vector);
    assert((b2 >> 2) & 0x0f == b2 / 4 % 16) by (bit_vector);
    assert(((b2 & 0x01) << 2) | (b3 >> 6) == b2 % 2 * 4 + b3 / 64) by (bit_vector);
    assert((((b3 & 0x03) as u32) << 11) | ((b4 as u32) << 3) | ((b5 >> 5) as u32) == (b3 % 4)
        * 2048 + b4 * 8 + b5 / 32) by (bit_vector);
}

/// The sampling rates by their index, and none for the three that are reserved.
pub proof fn the_rates_by_their_index(sri: u8)
    ensures
        ({
            let rates = seq![
                96_000u32,
                88_200,
                64_000,
                48_000,
                44_100,
                32_000,
                24_000,
                22_050,
                16_000,
                12_000,
                11_025,
                8_000,
                7_350,
            ];
            rate_of(sri) == (if sri < 13 {
                Some(rates[sri as int])
            } else {
                None
            })
        }),
{
}

/// A frame is cleaned to the two bytes `ff f1`, the rest of its header but for the length, and its
/// payload to the last byte; a frame without a CRC keeps its length too.
pub proof fn a_clean_frame_keeps_its_payload(f: Seq<u8>)
    requires
        whole_frame(f),
        declared_len(f) == f.len(),
    ensures
        clean(f)[0] == 0xff && clean(f)[1] == 0xf1,
        clean(f)[2] == f[2] && clean(f)[6] == f[6],
        f[1] % 2 == 1 ==> clean(f).len() == f.len() && forall|i: int|
            0 <= i < f.len() && i != 1 ==> #[trigger] clean(f)[i] == f[i],
        f[1] % 2 == 0 ==> clean(f).len() == f.len() - 2 && forall|i: int|
            9 <= i < f.len() ==> clean(f)[i - 2] == #[trigger] f[i],
{
    clean_is_a_frame(f, Seq::empty());
    let head = f.take(7).update(1, 0xf1);
    let c = clean(f);
    if has_crc(f) {
        length_reads_back(head, (f.len() - 2) as nat);
        assert forall|i: int| 9 <= i < f.len() implies c[i - 2] == #[trigger] f[i] by {
            assert(c.skip(7)[i - 9] == f.skip(9)[i - 9]);
        }
    } else {
        assert forall|i: int| 0 <= i < f.len() && i != 1 implies #[trigger] c[i] == f[i] by {
            if i >= 7 {
                assert(c.skip(7)[i - 7] == f.skip(7)[i - 7]);
            }
        }
    }
}

/// An ID3 tag in front of a segment is skipped whole, with its footer where it says that it has
/// one, and so is each further tag: the size is four digits of seven bits.
pub proof fn a_tag_is_skipped_whole(tag: Seq<u8>, rest: Seq<u8>)
    requires
        tag.len() >= 10,
        tag[0] == 0x49 && tag[1] == 0x44 && tag[2] == 0x33,
        rest.len() > 0,
        ({
            let size = ((tag[6] & 0x7f) as u32) << 21 | ((tag[7] & 0x7f) as u32) << 14 | ((tag[8]
                & 0x7f) as u32) << 7 | (tag[9] & 0x7f) as u32;
            tag.len() == 10 + size + (if tag[5] & 0x10 != 0 {
                10int
            } else {
                0
            })
        }),
    ensures
        tags_len(tag + rest) == tag.len() + tags_len(rest),
        tags_len(tag) == tag.len(),
{
    let (b5, b6, b7, b8, b9) = (tag[5], tag[6], tag[7], tag[8], tag[9]);
    assert(((b6 & 0x7f) as u32) << 21 | ((b7 & 0x7f) as u32) << 14 | ((b8 & 0x7f) as u32) << 7 | (b9
        & 0x7f) as u32 == (b6 % 128) * 0x20_0000 + (b7 % 128) * 0x4000 + (b8 % 128) * 0x80 + b9
        % 128) by (bit_vector);
    assert(b5 & 0x10 != 0 <==> b5 / 16 % 2 == 1) by (bit_vector);
    let all = tag + rest;
    assert(all[0] == tag[0] && all[1] == tag[1] && all[2] == tag[2] && all[5] == tag[5] && all[6]
        == tag[6] && all[7] == tag[7] && all[8] == tag[8] && all[9] == tag[9]);
    assert(all.skip(tag.len() as int) =~= rest);
}

/// What does not begin with `ID3` has no tag to skip.
pub proof fn no_tag_is_skipped_where_there_is_none(b: Seq<u8>)
    requires
        b.len() < 10 || !(b[0] == 0x49 && b[1] == 0x44 && b[2] == 0x33),
    ensures
        tags_len(b) == 0,
{
}

/// A container is known by its first bytes: `ftyp` at four, a packet byte at nothing and at 188, a
/// sync word; in this order.
pub proof fn a_container_is_known_by_its_bytes(b: Seq<u8>)
    ensures
        ({
            let ftyp = b.len() >= 8 && b[4] == 0x66 && b[5] == 0x74 && b[6] == 0x79 && b[7] == 0x70;
            let ts = b.len() >= 189 && b[0] == 0x47 && b[188] == 0x47;
            let sync = b.len() >= 2 && b[0] == 0xff && b[1] & 0xf6 == 0xf0;
            &&& container_of(b) == Container::Fmp4 <==> ftyp
            &&& container_of(b) == Container::MpegTs <==> !ftyp && ts
            &&& container_of(b) == Container::Adts <==> !ftyp && sync
            &&& container_of(b) == Container::Unknown <==> !ftyp && !ts && !sync
        }),
{
    if b.len() >= 2 {
        let b1 = b[1];
        assert(b1 & 0xf6 == 0xf0 <==> (b1 == 0xf0 || b1 == 0xf1 || b1 == 0xf8 || b1 == 0xf9))
            by (bit_vector);
    }
    if b.len() >= 8 {
        let head = b.subrange(4, 8);
        let ftyp = seq![0x66u8, 0x74, 0x79, 0x70];
        if b[4] == 0x66 && b[5] == 0x74 && b[6] == 0x79 && b[7] == 0x70 {
            assert(head =~= ftyp);
        }
        if head == ftyp {
            assert(head[0] == ftyp[0] && head[1] == ftyp[1] && head[2] == ftyp[2] && head[3]
                == ftyp[3]);
        }
    }
}

/// A segment that is a run of whole frames, and nothing more, comes out as those frames cleaned,
/// as many as there are, in the format of the first, with nothing dropped.
pub proof fn a_run_of_frames_is_walked_whole(n: Normalised, frames: Seq<Seq<u8>>)
    requires
        frames.len() > 0,
        forall|i: int|
            0 <= i < frames.len() ==> whole_frame(#[trigger] frames[i]) && declared_len(frames[i])
                == frames[i].len(),
        is_walk_of(n, laid_out(frames, Seq::empty())),
    ensures
        n.frames == frames.len(),
        n.format == Some(format_of(frames[0])),
        n.partial_dropped == 0,
        n.sync_lost is None,
        n.bytes@ == laid_out(frames.map_values(|f: Seq<u8>| clean(f)), Seq::empty()),
{
    let none = Seq::<u8>::empty();
    frames_are_found_again(frames, none);
    cleaned_is_laid_out(frames, none);
    assert(cleaned(frames) + none =~= cleaned(frames));
}

proof fn cleaned_is_laid_out(frames: Seq<Seq<u8>>, tail: Seq<u8>)
    ensures
        cleaned(frames) + tail == laid_out(frames.map_values(|f: Seq<u8>| clean(f)), tail),
    decreases frames.len(),
{
    let all = frames.map_values(|f: Seq<u8>| clean(f));
    if frames.len() == 0 {
        assert(cleaned(frames) + tail =~= tail);
    } else {
        let f = frames.last();
        let before = frames.drop_last();
        let some = before.map_values(|f: Seq<u8>| clean(f));
        cleaned_is_laid_out(before, clean(f) + tail);
        assert(cleaned(frames) + tail =~= cleaned(before) + (clean(f) + tail));
        assert(all =~= some.push(clean(f)));
        laid_out_push(some, clean(f), tail);
    }
}

proof fn laid_out_push(frames: Seq<Seq<u8>>, f: Seq<u8>, tail: Seq<u8>)
    ensures
        laid_out(frames.push(f), tail) == laid_out(frames, f + tail),
    decreases frames.len(),
{
    let all = frames.push(f);
    if frames.len() == 0 {
        assert(all.skip(1) =~= Seq::<Seq<u8>>::empty());
        assert(laid_out(all.skip(1), tail) == tail);
    } else {
        laid_out_push(frames.skip(1), f, tail);
        assert(all.skip(1) =~= frames.skip(1).push(f));
    }
}

/// What inflates to more than the limit is refused, and nothing else is but what does not inflate.
pub proof fn only_what_is_too_long_is_refused(inflated: Result<Seq<u8>, Seq<char>>, max: usize)
    ensures
        inflated matches Ok(b) ==> (b.len() <= max ==> capped(inflated, max) == Ok::<
            Seq<u8>,
            GunzipErrorView,
        >(b)) && (b.len() > max ==> capped(inflated, max) is Err),
        inflated is Err ==> capped(inflated, max) is Err,
        max < usize::MAX ==> inflate_limit(max) > max,
{
}

/// What follows the last whole frame is the beginning of one where it is shorter than a header, or
/// declares more than there is, its header included; anything else has lost the sync.
pub proof fn what_follows_the_last_frame(n: Normalised, b: Seq<u8>)
    requires
        is_walk_of(n, b),
        b.len() <= usize::MAX,
    ensures
        ({
            let rest = after_frames(b);
            let cut = 0 < rest.len() && (rest.len() < 7 || (syncs(rest) && declared_len(rest)
                > rest.len() && declared_len(rest) >= header_len(rest)));
            &&& rest.len() == 0 ==> n.partial_dropped == 0 && n.sync_lost is None
            &&& cut ==> n.partial_dropped == rest.len() && n.sync_lost is None
            &&& rest.len() > 0 && !cut ==> n.partial_dropped == 0 && n.sync_lost == Some(
                ((b.len() - rest.len()) as usize, rest.len() as usize),
            )
        }),
        !whole_frame(after_frames(b)),
{
    nothing_whole_is_left(b);
}

proof fn nothing_whole_is_left(b: Seq<u8>)
    ensures
        !whole_frame(after_frames(b)),
    decreases b.len(),
{
    if whole_frame(b) {
        nothing_whole_is_left(b.skip(declared_len(b) as int));
    }
}

/// A frame counts as rewritten when it says MPEG-2, and as one with a CRC when it has one.
pub proof fn frames_are_counted_one_by_one(frames: Seq<Seq<u8>>, f: Seq<u8>)
    ensures
        mpeg2_count(frames.push(f)) == mpeg2_count(frames) + (if is_mpeg2(f) {
            1int
        } else {
            0
        }),
        crc_count(frames.push(f)) == crc_count(frames) + (if has_crc(f) {
            1int
        } else {
            0
        }),
        mpeg2_count(Seq::empty()) == 0 && crc_count(Seq::empty()) == 0,
{
    reveal(Seq::filter);
    assert(frames.push(f).drop_last() =~= frames);
}

/// What did not inflate is told in the words of the decoder.
pub proof fn what_did_not_inflate_is_told(e: Seq<char>, max: usize)
    ensures
        gunzip_text(GunzipErrorView::Invalid(e)) == "not gzip: "@ + e,
        text::holds(gunzip_text(GunzipErrorView::TooLarge(max)), digits(max as nat)),
{
    let t = gunzip_text(GunzipErrorView::TooLarge(max));
    let n = "inflates past "@.len() as int;
    let d = digits(max as nat);
    assert(t.subrange(n, n + d.len()) =~= d);
    assert(text::stands_at(t, d, n));
}

} // verus!
