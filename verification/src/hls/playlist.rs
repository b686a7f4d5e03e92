//! M3U8 parsing, variant choice and the refresh planner: the pure half of HLS.
//!
//! **Parsing** covers the tags the player acts on (RFC 8216): `#EXTM3U`, `EXT-X-STREAM-INF`
//! (`BANDWIDTH`, `CODECS`), `EXT-X-TARGETDURATION`, `EXT-X-MEDIA-SEQUENCE`, `EXTINF`,
//! `EXT-X-DISCONTINUITY`, `EXT-X-ENDLIST`, and the three that are refused: `EXT-X-MAP` (fMP4),
//! `EXT-X-KEY` with a method other than `NONE`, and `EXT-X-BYTERANGE`. Every other tag is
//! ignored. Attribute lists are split quote-aware, because a `CODECS="avc1.4D401E,mp4a.40.2"`
//! is one attribute with a comma inside it; an `EXTINF` duration ends at the first comma,
//! because a title can carry quoted commas of its own. Relative URIs are joined against the
//! base the caller gives: the URL the playlist was actually fetched from, after redirects,
//! never the URL that was asked for.
//!
//! A body that does not start with `#EXTM3U` is not a playlist; one that starts with it but
//! carries neither `EXT-X-TARGETDURATION` nor `EXT-X-STREAM-INF` is a plain M3U (a file listing
//! an Icecast URL), and is refused as [`PlaylistError::NotHls`] rather than followed.
//!
//! **Variant choice** prefers an audio-only variant (LC before HE, and the highest bandwidth
//! among those), next a variant that declares no codecs, next a muxed audio + video variant at
//! the lowest bandwidth, and never a video-only one.
//!
//! **The planner** is a state machine over media sequence numbers: it starts three segments
//! behind the live edge, emits each sequence number exactly once (the identity is "sequence
//! greater than the last emitted", never "URI not yet seen", because a live window keeps
//! listing segments older than the ones already fetched), waits the last segment's duration
//! after a reload that brought new segments and half the target duration after one that did
//! not, clamped to [1 s, 30 s], and ends the stream when the window has not advanced for three
//! target durations or when the sequence numbers go backwards.

use vstd::prelude::*;
use vstd::slice::slice_subrange;

use crate::outside::{joined, quote, quoted, seconds_written, url_join, written_seconds};
use crate::text;
use crate::text::{
    begins, digits, first_at, first_at_is_first, first_at_unique, lowered, number, pieces, strings,
    stripped_start, trimmed, trimmed_start, views, white_at_the_end_is_trimmed,
};
use crate::time::{elapsed, secs, Duration, Instant, NANOS_PER_SEC};

verus! {

/// The shortest wait between two playlist reloads. Stops a hammer loop on
/// `EXT-X-TARGETDURATION:0` or an `EXTINF` of a few milliseconds.
pub const MIN_WAIT_SECS: u64 = 1;

/// The longest wait between two reloads, above any target duration measured; a playlist that
/// claims an hour is not believed.
pub const MAX_WAIT_SECS: u64 = 30;

/// The window has not advanced for this many target durations: the stream has stalled. A
/// server must publish within 1.5 target durations, so three is two missed publishes.
pub const STALL_TARGET_DURATIONS: u32 = 3;

/// Start this many segments behind the live edge.
pub const START_BEHIND: usize = 3;

// ---------------------------------------------------------------------------------------------
// Types

/// One `EXT-X-STREAM-INF` entry.
#[derive(Debug, Clone, PartialEq, Eq)]
pub struct Variant {
    pub uri: String,
    pub bandwidth: Option<u64>,
    /// The `CODECS` attribute split on its commas, or `None` when the tag has no `CODECS`.
    pub codecs: Option<Vec<String>>,
}

#[derive(Debug, Clone, PartialEq, Eq)]
pub struct MasterPlaylist {
    pub variants: Vec<Variant>,
}

#[derive(Debug, PartialEq, Eq)]
pub struct Segment {
    /// The media sequence number: the playlist's `EXT-X-MEDIA-SEQUENCE` plus the index.
    pub seq: u64,
    /// The `EXTINF` duration.
    pub duration: Duration,
    pub uri: String,
    /// An `EXT-X-DISCONTINUITY` preceded this segment. Logged by the fetch loop, nothing else.
    pub discontinuity: bool,
}

#[derive(Debug, Clone, PartialEq, Eq)]
pub struct MediaPlaylist {
    pub target_duration: Duration,
    pub media_sequence: u64,
    pub segments: Vec<Segment>,
    pub end_list: bool,
}

#[derive(Debug, Clone, PartialEq, Eq)]
pub enum Playlist {
    Master(MasterPlaylist),
    Media(MediaPlaylist),
}

/// Why a body could not be used. Every variant's message is what a listener is shown.
#[derive(Debug, Clone, PartialEq, Eq)]
pub enum PlaylistError {
    /// The body does not start with `#EXTM3U`.
    NotPlaylist,
    /// The body carries neither a target duration nor a variant.
    NotHls,
    /// The segments are fragments of an MP4 file.
    Fmp4,
    Encrypted,
    ByteRange,
    Malformed(String),
}

/// The master lists no variant that carries audio; the codecs it lists.
#[derive(Debug, Clone, PartialEq, Eq)]
pub struct NoAudio(pub String);

// ---------------------------------------------------------------------------------------------
// What the types stand for

pub struct VariantView {
    pub uri: Seq<char>,
    pub bandwidth: Option<u64>,
    pub codecs: Option<Seq<Seq<char>>>,
}

pub struct SegmentView {
    pub seq: u64,
    pub duration: Duration,
    pub uri: Seq<char>,
    pub discontinuity: bool,
}

pub struct MediaView {
    pub target_duration: Duration,
    pub media_sequence: u64,
    pub segments: Seq<SegmentView>,
    pub end_list: bool,
}

pub enum PlaylistView {
    Master(Seq<VariantView>),
    Media(MediaView),
}

pub enum ErrorView {
    NotPlaylist,
    NotHls,
    Fmp4,
    Encrypted,
    ByteRange,
    Malformed(Seq<char>),
}

pub open spec fn codecs_view(c: Option<Vec<String>>) -> Option<Seq<Seq<char>>> {
    match c {
        Some(v) => Some(strings(v@)),
        None => None,
    }
}

impl View for Variant {
    type V = VariantView;

    open spec fn view(&self) -> VariantView {
        VariantView {
            uri: self.uri@,
            bandwidth: self.bandwidth,
            codecs: codecs_view(self.codecs),
        }
    }
}

impl View for Segment {
    type V = SegmentView;

    open spec fn view(&self) -> SegmentView {
        SegmentView {
            seq: self.seq,
            duration: self.duration,
            uri: self.uri@,
            discontinuity: self.discontinuity,
        }
    }
}

pub open spec fn variant_views(v: Seq<Variant>) -> Seq<VariantView> {
    v.map_values(|x: Variant| x@)
}

pub open spec fn segment_views(v: Seq<Segment>) -> Seq<SegmentView> {
    v.map_values(|x: Segment| x@)
}

impl View for MasterPlaylist {
    type V = Seq<VariantView>;

    open spec fn view(&self) -> Seq<VariantView> {
        variant_views(self.variants@)
    }
}

impl View for MediaPlaylist {
    type V = MediaView;

    open spec fn view(&self) -> MediaView {
        MediaView {
            target_duration: self.target_duration,
            media_sequence: self.media_sequence,
            segments: segment_views(self.segments@),
            end_list: self.end_list,
        }
    }
}

impl View for Playlist {
    type V = PlaylistView;

    open spec fn view(&self) -> PlaylistView {
        match self {
            Playlist::Master(m) => PlaylistView::Master(m@),
            Playlist::Media(m) => PlaylistView::Media(m@),
        }
    }
}

impl View for PlaylistError {
    type V = ErrorView;

    open spec fn view(&self) -> ErrorView {
        match self {
            PlaylistError::NotPlaylist => ErrorView::NotPlaylist,
            PlaylistError::NotHls => ErrorView::NotHls,
            PlaylistError::Fmp4 => ErrorView::Fmp4,
            PlaylistError::Encrypted => ErrorView::Encrypted,
            PlaylistError::ByteRange => ErrorView::ByteRange,
            PlaylistError::Malformed(m) => ErrorView::Malformed(m@),
        }
    }
}

/// The sentence for an error.
pub open spec fn error_text(e: ErrorView) -> Seq<char> {
    match e {
        ErrorView::NotPlaylist => "not a playlist (no #EXTM3U)"@,
        ErrorView::NotHls => "playlist is not HLS (no EXT-X tags)"@,
        ErrorView::Fmp4 => "HLS with fMP4 segments is not supported yet"@,
        ErrorView::Encrypted => "encrypted HLS is not supported"@,
        ErrorView::ByteRange => "HLS byte-range segments are not supported"@,
        ErrorView::Malformed(m) => "malformed playlist: "@ + m,
    }
}

impl PlaylistError {
    /// The sentence a listener is shown.
    pub fn message(&self) -> (m: String)
        ensures
            m@ == error_text(self@),
    {
        match self {
            PlaylistError::NotPlaylist => "not a playlist (no #EXTM3U)".to_owned(),
            PlaylistError::NotHls => "playlist is not HLS (no EXT-X tags)".to_owned(),
            PlaylistError::Fmp4 => "HLS with fMP4 segments is not supported yet".to_owned(),
            PlaylistError::Encrypted => "encrypted HLS is not supported".to_owned(),
            PlaylistError::ByteRange => "HLS byte-range segments are not supported".to_owned(),
            PlaylistError::Malformed(m) => "malformed playlist: ".to_owned().concat(m.as_str()),
        }
    }
}

impl NoAudio {
    /// The sentence a listener is shown.
    pub fn message(&self) -> (m: String)
        ensures
            m@ == "HLS stream has no audio variant (video only: "@ + self.0@ + ")"@,
    {
        "HLS stream has no audio variant (video only: ".to_owned().concat(
            self.0.as_str(),
        ).concat(")")
    }
}

impl Clone for Segment {
    fn clone(&self) -> (s: Segment)
        ensures
            s@ == self@,
    {
        Segment {
            seq: self.seq,
            duration: self.duration,
            uri: self.uri.clone(),
            discontinuity: self.discontinuity,
        }
    }
}

impl MediaPlaylist {
    /// The sequence number of the last listed segment, if any.
    pub fn last_seq(&self) -> (r: Option<u64>)
        ensures
            r == last_seq(self@),
    {
        let n: usize = self.segments.len();
        if n == 0 {
            None
        } else {
            Some(self.segments[n - 1].seq)
        }
    }

    /// How many of the listed segments follow a discontinuity.
    pub fn discontinuities(&self) -> (n: usize)
        ensures
            n == self@.segments.filter(|s: SegmentView| s.discontinuity).len(),
    {
        let mut n: usize = 0;
        let mut i: usize = 0;
        let ghost all = self@.segments;
        let ghost marked = |s: SegmentView| s.discontinuity;
        proof {
            reveal(Seq::filter);
        }
        while i < self.segments.len()
            invariant
                i <= self.segments.len(),
                n <= i,
                all == self@.segments,
                marked == (|s: SegmentView| s.discontinuity),
                n == all.take(i as int).filter(marked).len(),
            decreases self.segments.len() - i,
        {
            proof {
                reveal(Seq::filter);
                assert(all.take(i + 1).drop_last() == all.take(i as int));
                assert(all.take(i + 1).last() == self.segments@[i as int]@);
            }
            if self.segments[i].discontinuity {
                n = n + 1;
            }
            i = i + 1;
        }
        assert(all.take(all.len() as int) == all);
        n
    }
}

/// The sequence number of the last listed segment, if any.
pub open spec fn last_seq(m: MediaView) -> Option<u64> {
    if m.segments.len() == 0 {
        None
    } else {
        Some(m.segments.last().seq)
    }
}

// ---------------------------------------------------------------------------------------------
// Attribute lists

/// The value that stands after `KEY=`, and what is left of the list after it. A quoted value
/// runs to the closing quote and loses its quotes; any other runs to the next comma.
pub open spec fn value_and_rest(after: Seq<char>) -> (Seq<char>, Seq<char>) {
    if after.len() > 0 && after[0] == '"' {
        let q = after.skip(1);
        let end = first_at(q, '"');
        if end < q.len() {
            (q.take(end), trimmed_start(stripped_start(q.skip(end + 1), ',')))
        } else {
            (q, Seq::empty())
        }
    } else {
        let end = first_at(after, ',');
        if end < after.len() {
            (trimmed(after.take(end)), trimmed_start(after.skip(end + 1)))
        } else {
            (trimmed(after), Seq::empty())
        }
    }
}

/// The pairs of the list `rest`, which does not begin with white space.
pub open spec fn pairs(rest: Seq<char>) -> Seq<(Seq<char>, Seq<char>)>
    decreases rest.len(),
    via pairs_end
{
    let eq = first_at(rest, '=');
    if eq < rest.len() {
        let (value, remainder) = value_and_rest(rest.skip(eq + 1));
        seq![(trimmed(rest.take(eq)), value)] + pairs(remainder)
    } else {
        Seq::empty()
    }
}

#[via_fn]
proof fn pairs_end(rest: Seq<char>) {
    text::first_at_is_first(rest, '=');
    let after = rest.skip(first_at(rest, '=') + 1);
    if first_at(rest, '=') < rest.len() {
        value_and_rest_is_shorter(after);
    }
}

proof fn value_and_rest_is_shorter(after: Seq<char>)
    ensures
        value_and_rest(after).1.len() <= after.len(),
{
    if after.len() > 0 && after[0] == '"' {
        let q = after.skip(1);
        let end = first_at(q, '"');
        text::first_at_is_first(q, '"');
        if end < q.len() {
            text::stripped_start_len(q.skip(end + 1), ',');
            text::trimmed_start_len(stripped_start(q.skip(end + 1), ','));
        }
    } else {
        let end = first_at(after, ',');
        text::first_at_is_first(after, ',');
        if end < after.len() {
            text::trimmed_start_len(after.skip(end + 1));
        }
    }
}

/// The pairs of an attribute list (`KEY=value,KEY="quoted, value"`), in order.
pub open spec fn attributes(s: Seq<char>) -> Seq<(Seq<char>, Seq<char>)> {
    pairs(trimmed(s))
}

/// The first value that the list gives for `key`.
pub open spec fn attribute(list: Seq<(Seq<char>, Seq<char>)>, key: Seq<char>) -> Option<Seq<char>>
    decreases list.len(),
{
    if list.len() == 0 {
        None
    } else if list[0].0 == key {
        Some(list[0].1)
    } else {
        attribute(list.skip(1), key)
    }
}

pub open spec fn pair_views(v: Seq<(&[char], &[char])>) -> Seq<(Seq<char>, Seq<char>)> {
    v.map_values(|p: (&[char], &[char])| (p.0@, p.1@))
}

/// Reads the value that stands after `KEY=`, and what is left of the list after it.
fn take_value<'a>(after: &'a [char]) -> (r: (&'a [char], &'a [char]))
    ensures
        (r.0@, r.1@) == value_and_rest(after@),
{
    let nothing: &'a [char] = slice_subrange(after, 0, 0);
    assert(nothing@ =~= Seq::<char>::empty());
    if after.len() > 0 && after[0] == '"' {
        let q: &'a [char] = slice_subrange(after, 1, after.len());
        assert(q@ =~= after@.skip(1));
        match text::find(q, '"') {
            Some(end) => {
                let value: &'a [char] = slice_subrange(q, 0, end);
                let tail: &'a [char] = slice_subrange(q, end + 1, q.len());
                assert(value@ =~= q@.take(end as int));
                assert(tail@ =~= q@.skip(end + 1));
                (value, text::trim_start(text::strip_start(tail, ',')))
            },
            None => (q, nothing),
        }
    } else {
        match text::find(after, ',') {
            Some(end) => {
                let value: &'a [char] = slice_subrange(after, 0, end);
                let tail: &'a [char] = slice_subrange(after, end + 1, after.len());
                assert(value@ =~= after@.take(end as int));
                assert(tail@ =~= after@.skip(end + 1));
                (text::trim(value), text::trim_start(tail))
            },
            None => (text::trim(after), nothing),
        }
    }
}

/// Splits an attribute list (`KEY=value,KEY="quoted, value"`) into pairs, honouring quotes.
/// Quoted values are returned without their quotes.
pub fn attribute_list<'a>(s: &'a [char]) -> (out: Vec<(&'a [char], &'a [char])>)
    ensures
        pair_views(out@) == attributes(s@),
{
    let mut out: Vec<(&'a [char], &'a [char])> = Vec::new();
    let mut rest: &'a [char] = text::trim(s);
    assert(pair_views(out@) + pairs(rest@) =~= attributes(s@));
    loop
        invariant
            pair_views(out@) + pairs(rest@) == attributes(s@),
        decreases rest.len(),
    {
        match text::find(rest, '=') {
            None => {
                assert(pair_views(out@) =~= pair_views(out@) + pairs(rest@));
                return out;
            },
            Some(eq) => {
                let ghost before = out@;
                let head: &'a [char] = slice_subrange(rest, 0, eq);
                let after: &'a [char] = slice_subrange(rest, eq + 1, rest.len());
                let key: &'a [char] = text::trim(head);
                let (value, remainder) = take_value(after);
                out.push((key, value));
                proof {
                    assert(head@ =~= rest@.take(eq as int));
                    assert(after@ =~= rest@.skip(eq + 1));
                    value_and_rest_is_shorter(after@);
                    assert(pair_views(out@) =~= pair_views(before).push((key@, value@)));
                    assert(pairs(rest@) == seq![(key@, value@)] + pairs(remainder@));
                    assert(pair_views(out@) + pairs(remainder@) =~= pair_views(before) + pairs(
                        rest@,
                    ));
                }
                rest = remainder;
            },
        }
    }
}

/// The first value that `list` gives for `key`.
fn find_attribute<'a>(list: &Vec<(&'a [char], &'a [char])>, key: &str) -> (r: Option<&'a [char]>)
    ensures
        r matches Some(v) ==> attribute(pair_views(list@), key@) == Some(v@),
        r is None ==> attribute(pair_views(list@), key@) is None,
{
    let mut i: usize = 0;
    let ghost all = pair_views(list@);
    assert(all.skip(0) == all);
    while i < list.len()
        invariant
            i <= list.len(),
            all == pair_views(list@),
            attribute(all.skip(i as int), key@) == attribute(all, key@),
        decreases list.len() - i,
    {
        assert(all.skip(i as int)[0] == (list@[i as int].0@, list@[i as int].1@));
        if text::is(list[i].0, key) {
            return Some(list[i].1);
        }
        assert(all.skip(i as int).skip(1) == all.skip(i + 1));
        i = i + 1;
    }
    None
}

// ---------------------------------------------------------------------------------------------
// Parsing

/// What the lines read so far amount to.
pub struct Scan {
    pub variants: Seq<VariantView>,
    /// The bandwidth and codecs of an `EXT-X-STREAM-INF` that waits for its URI.
    pub pending_variant: Option<(Option<u64>, Option<Seq<Seq<char>>>)>,
    pub target_duration: Option<Duration>,
    pub media_sequence: u64,
    pub end_list: bool,
    pub segments: Seq<SegmentView>,
    /// The duration of an `EXTINF` that waits for its URI.
    pub pending_duration: Option<Duration>,
    /// An `EXT-X-DISCONTINUITY` waits for its segment.
    pub discontinuity: bool,
    /// The first malformed duration seen, reported only if the body turns out to be HLS.
    pub deferred: Option<Seq<char>>,
}

pub open spec fn nothing_read() -> Scan {
    Scan {
        variants: Seq::empty(),
        pending_variant: None,
        target_duration: None,
        media_sequence: 0,
        end_list: false,
        segments: Seq::empty(),
        pending_duration: None,
        discontinuity: false,
        deferred: None,
    }
}

/// A number of 64 bits.
pub open spec fn number64(s: Seq<char>) -> Option<u64> {
    match number(s, u64::MAX as nat) {
        Some(n) => Some(n as u64),
        None => None,
    }
}

/// The codecs that a `CODECS` attribute lists; `None` when it lists none.
pub open spec fn codec_list(v: Seq<char>) -> Option<Seq<Seq<char>>> {
    let named = pieces(v, ',').map_values(|c: Seq<char>| trimmed(c)).filter(
        |c: Seq<char>| c.len() > 0,
    );
    if named.len() > 0 {
        Some(named)
    } else {
        None
    }
}

/// What an `EXT-X-STREAM-INF` says of the variant that follows: its bandwidth and its codecs.
pub open spec fn stream_inf(value: Seq<char>) -> (Option<u64>, Option<Seq<Seq<char>>>) {
    let list = attributes(value);
    (
        match attribute(list, "BANDWIDTH"@) {
            Some(v) => number64(v),
            None => None,
        },
        match attribute(list, "CODECS"@) {
            Some(v) => codec_list(v),
            None => None,
        },
    )
}

/// Whether an `EXT-X-KEY` says that the segments are encrypted.
pub open spec fn encrypts(value: Seq<char>) -> bool {
    let method = match attribute(attributes(value), "METHOD"@) {
        Some(m) => m,
        None => Seq::empty(),
    };
    lowered(method) != lowered("NONE"@)
}

/// The tag of a line `#tag:value`, given without its `#`.
pub open spec fn tag_of(rest: Seq<char>) -> Seq<char> {
    rest.take(first_at(rest, ':'))
}

/// The value of a line `#tag:value`, given without its `#`.
pub open spec fn value_of(rest: Seq<char>) -> Seq<char> {
    if first_at(rest, ':') < rest.len() {
        rest.skip(first_at(rest, ':') + 1)
    } else {
        Seq::empty()
    }
}

/// What reading one tag does.
pub open spec fn read_tag(at: Scan, tag: Seq<char>, value: Seq<char>) -> Result<Scan, ErrorView> {
    if tag == "EXT-X-STREAM-INF"@ {
        Ok(Scan { pending_variant: Some(stream_inf(value)), ..at })
    } else if tag == "EXT-X-TARGETDURATION"@ {
        match number64(trimmed(value)) {
            Some(s) => Ok(Scan { target_duration: Some(secs(s as nat)), ..at }),
            None => Err(ErrorView::Malformed("EXT-X-TARGETDURATION:"@ + value)),
        }
    } else if tag == "EXT-X-MEDIA-SEQUENCE"@ {
        match number64(trimmed(value)) {
            Some(n) => Ok(Scan { media_sequence: n, ..at }),
            None => Err(ErrorView::Malformed("EXT-X-MEDIA-SEQUENCE:"@ + value)),
        }
    } else if tag == "EXTINF"@ {
        match written_seconds(trimmed(pieces(value, ',')[0])) {
            Some(nanos) => Ok(Scan { pending_duration: Some(Duration { nanos }), ..at }),
            None => Ok(
                Scan {
                    deferred: if at.deferred is Some {
                        at.deferred
                    } else {
                        Some("EXTINF:"@ + value)
                    },
                    ..at
                },
            ),
        }
    } else if tag == "EXT-X-DISCONTINUITY"@ {
        Ok(Scan { discontinuity: true, ..at })
    } else if tag == "EXT-X-ENDLIST"@ {
        Ok(Scan { end_list: true, ..at })
    } else if tag == "EXT-X-MAP"@ {
        Err(ErrorView::Fmp4)
    } else if tag == "EXT-X-KEY"@ && encrypts(value) {
        Err(ErrorView::Encrypted)
    } else if tag == "EXT-X-BYTERANGE"@ {
        Err(ErrorView::ByteRange)
    } else {
        Ok(at)
    }
}

/// What reading one URI line does. It belongs to the tag that preceded it; one with neither
/// tag before it (a plain M3U's line) is passed over. A segment whose sequence number would
/// pass 64 bits makes the playlist malformed.
pub open spec fn read_uri(at: Scan, line: Seq<char>, base: Seq<char>) -> Result<Scan, ErrorView> {
    match joined(base, line) {
        Err(e) => Err(ErrorView::Malformed("URI "@ + quoted(line) + ": "@ + e)),
        Ok(uri) => match at.pending_variant {
            Some((bandwidth, codecs)) => Ok(
                Scan {
                    variants: at.variants.push(VariantView { uri, bandwidth, codecs }),
                    pending_variant: None,
                    ..at
                },
            ),
            None => match at.pending_duration {
                Some(duration) => {
                    let seq = at.media_sequence + at.segments.len();
                    if seq <= u64::MAX {
                        Ok(
                            Scan {
                                segments: at.segments.push(
                                    SegmentView {
                                        seq: seq as u64,
                                        duration,
                                        uri,
                                        discontinuity: at.discontinuity,
                                    },
                                ),
                                pending_duration: None,
                                discontinuity: false,
                                ..at
                            },
                        )
                    } else {
                        Err(
                            ErrorView::Malformed(
                                "EXT-X-MEDIA-SEQUENCE:"@ + digits(at.media_sequence as nat),
                            ),
                        )
                    }
                },
                None => Ok(at),
            },
        },
    }
}

/// What reading one trimmed line does: a blank line or a comment nothing, a tag what it says, and
/// any other line is a URI.
pub open spec fn read_line(at: Scan, line: Seq<char>, base: Seq<char>) -> Result<Scan, ErrorView> {
    if line.len() == 0 {
        Ok(at)
    } else if line[0] == '#' {
        let rest = line.skip(1);
        if begins(rest, "EXT"@) {
            read_tag(at, tag_of(rest), value_of(rest))
        } else {
            Ok(at)
        }
    } else {
        read_uri(at, line, base)
    }
}

/// What the first `n` lines amount to, or the first error among them.
pub open spec fn read_lines(lines: Seq<Seq<char>>, n: nat, base: Seq<char>) -> Result<
    Scan,
    ErrorView,
>
    decreases n,
{
    if n == 0 {
        Ok(nothing_read())
    } else {
        match read_lines(lines, (n - 1) as nat, base) {
            Ok(at) => read_line(at, lines[n - 1], base),
            Err(e) => Err(e),
        }
    }
}

/// What a body that was read to its end is. Whether it is HLS at all is decided before any
/// deferred error, so that a plain M3U reads as not HLS.
pub open spec fn conclusion(at: Scan) -> Result<PlaylistView, ErrorView> {
    if at.variants.len() == 0 && at.target_duration is None {
        Err(ErrorView::NotHls)
    } else if at.deferred is Some {
        Err(ErrorView::Malformed(at.deferred->0))
    } else if at.variants.len() > 0 {
        Ok(PlaylistView::Master(at.variants))
    } else {
        Ok(
            PlaylistView::Media(
                MediaView {
                    target_duration: at.target_duration->0,
                    media_sequence: at.media_sequence,
                    segments: at.segments,
                    end_list: at.end_list,
                },
            ),
        )
    }
}

/// The lines of a body, without the white space around them.
pub open spec fn lines_of(body: Seq<char>) -> Seq<Seq<char>> {
    pieces(body, '\n').map_values(|l: Seq<char>| trimmed(l))
}

/// What the body of a playlist fetched from `base` is.
pub open spec fn parsed(body: Seq<char>, base: Seq<char>) -> Result<PlaylistView, ErrorView> {
    let lines = lines_of(body);
    if begins(lines[0], "#EXTM3U"@) {
        let rest = lines.skip(1);
        match read_lines(rest, rest.len(), base) {
            Ok(at) => conclusion(at),
            Err(e) => Err(e),
        }
    } else {
        Err(ErrorView::NotPlaylist)
    }
}

/// The result of a parse, by its views.
pub open spec fn outcome_view(r: Result<Playlist, PlaylistError>) -> Result<
    PlaylistView,
    ErrorView,
> {
    match r {
        Ok(p) => Ok(p@),
        Err(e) => Err(e@),
    }
}

/// The lines read so far.
struct Scanner {
    variants: Vec<Variant>,
    pending_variant: Option<(Option<u64>, Option<Vec<String>>)>,
    target_duration: Option<Duration>,
    media_sequence: u64,
    end_list: bool,
    segments: Vec<Segment>,
    pending_duration: Option<Duration>,
    discontinuity: bool,
    deferred: Option<String>,
}

impl View for Scanner {
    type V = Scan;

    closed spec fn view(&self) -> Scan {
        Scan {
            variants: variant_views(self.variants@),
            pending_variant: match self.pending_variant {
                Some((b, c)) => Some((b, codecs_view(c))),
                None => None,
            },
            target_duration: self.target_duration,
            media_sequence: self.media_sequence,
            end_list: self.end_list,
            segments: segment_views(self.segments@),
            pending_duration: self.pending_duration,
            discontinuity: self.discontinuity,
            deferred: match self.deferred {
                Some(m) => Some(m@),
                None => None,
            },
        }
    }
}

/// The error for a tag with a value that cannot be read.
fn malformed(head: &str, value: &[char]) -> (e: PlaylistError)
    ensures
        e@ == ErrorView::Malformed(head@ + value@),
{
    PlaylistError::Malformed(malformed_text(head, value))
}

fn malformed_text(head: &str, value: &[char]) -> (m: String)
    ensures
        m@ == head@ + value@,
{
    head.to_owned().concat(text::string_of(value).as_str())
}

fn parse_number64(s: &[char]) -> (r: Option<u64>)
    ensures
        r == number64(s@),
{
    text::parse_number(s, u64::MAX)
}

/// Splits a `CODECS` value on its commas, or `None` when it names nothing.
fn parse_codecs(v: &[char]) -> (r: Option<Vec<String>>)
    ensures
        codecs_view(r) == codec_list(v@),
{
    let parts = text::split(v, ',');
    let ghost trimmed_parts = pieces(v@, ',').map_values(|c: Seq<char>| trimmed(c));
    let ghost named = |c: Seq<char>| c.len() > 0;
    let mut out: Vec<String> = Vec::new();
    let mut i: usize = 0;
    proof {
        reveal(Seq::filter);
        assert(strings(out@) =~= trimmed_parts.take(0).filter(named));
    }
    while i < parts.len()
        invariant
            i <= parts.len(),
            views(parts@) == pieces(v@, ','),
            trimmed_parts == pieces(v@, ',').map_values(|c: Seq<char>| trimmed(c)),
            named == (|c: Seq<char>| c.len() > 0),
            strings(out@) == trimmed_parts.take(i as int).filter(named),
        decreases parts.len() - i,
    {
        let c = text::trim(parts[i]);
        proof {
            reveal(Seq::filter);
            assert(views(parts@)[i as int] == parts@[i as int]@);
            assert(trimmed_parts[i as int] == c@);
            assert(trimmed_parts.take(i + 1).drop_last() == trimmed_parts.take(i as int));
            assert(trimmed_parts.take(i + 1).last() == c@);
        }
        let ghost before = out@;
        if c.len() > 0 {
            out.push(text::string_of(c));
            assert(strings(out@) =~= strings(before).push(c@));
        }
        i = i + 1;
    }
    assert(views(parts@).len() == parts@.len());
    assert(trimmed_parts.take(trimmed_parts.len() as int) == trimmed_parts);
    assert(strings(out@).len() == out@.len());
    if out.len() > 0 {
        Some(out)
    } else {
        None
    }
}

impl Scanner {
    fn new() -> (s: Scanner)
        ensures
            s@ == nothing_read(),
    {
        let s = Scanner {
            variants: Vec::new(),
            pending_variant: None,
            target_duration: None,
            media_sequence: 0,
            end_list: false,
            segments: Vec::new(),
            pending_duration: None,
            discontinuity: false,
            deferred: None,
        };
        assert(variant_views(s.variants@) =~= Seq::empty());
        assert(segment_views(s.segments@) =~= Seq::empty());
        s
    }

    fn stream_inf(&mut self, value: &[char])
        ensures
            final(self)@ == (Scan { pending_variant: Some(stream_inf(value@)), ..old(self)@ }),
    {
        let list = attribute_list(value);
        let bandwidth: Option<u64> = match find_attribute(&list, "BANDWIDTH") {
            Some(v) => parse_number64(v),
            None => None,
        };
        let codecs: Option<Vec<String>> = match find_attribute(&list, "CODECS") {
            Some(v) => parse_codecs(v),
            None => None,
        };
        self.pending_variant = Some((bandwidth, codecs));
    }

    fn tag(&mut self, tag: &[char], value: &[char]) -> (r: Result<(), PlaylistError>)
        ensures
            read_tag(old(self)@, tag@, value@) == (match r {
                Ok(_) => Ok(final(self)@),
                Err(e) => Err(e@),
            }),
    {
        if text::is(tag, "EXT-X-STREAM-INF") {
            self.stream_inf(value);
            Ok(())
        } else if text::is(tag, "EXT-X-TARGETDURATION") {
            match parse_number64(text::trim(value)) {
                Some(s) => {
                    self.target_duration = Some(Duration::from_secs(s));
                    Ok(())
                },
                None => Err(malformed("EXT-X-TARGETDURATION:", value)),
            }
        } else if text::is(tag, "EXT-X-MEDIA-SEQUENCE") {
            match parse_number64(text::trim(value)) {
                Some(n) => {
                    self.media_sequence = n;
                    Ok(())
                },
                None => Err(malformed("EXT-X-MEDIA-SEQUENCE:", value)),
            }
        } else if text::is(tag, "EXTINF") {
            // The duration is everything up to the first comma; the title after it may itself
            // contain commas.
            let parts = text::split(value, ',');
            assert(views(parts@)[0] == parts@[0]@);
            let written = text::string_of(text::trim(parts[0]));
            match seconds_written(written.as_str()) {
                Some(nanos) => {
                    self.pending_duration = Some(Duration { nanos });
                },
                // Deferred, not returned: a plain M3U writes `#EXTINF:-1,Name` and must read as
                // not HLS, not as a malformed HLS playlist.
                None => {
                    if self.deferred.is_none() {
                        self.deferred = Some(malformed_text("EXTINF:", value));
                    }
                },
            }
            Ok(())
        } else if text::is(tag, "EXT-X-DISCONTINUITY") {
            self.discontinuity = true;
            Ok(())
        } else if text::is(tag, "EXT-X-ENDLIST") {
            self.end_list = true;
            Ok(())
        } else if text::is(tag, "EXT-X-MAP") {
            Err(PlaylistError::Fmp4)
        } else if text::is(tag, "EXT-X-KEY") {
            let list = attribute_list(value);
            let none = match find_attribute(&list, "METHOD") {
                Some(m) => text::is_ignoring_case(m, "NONE"),
                None => {
                    proof {
                        reveal_strlit("NONE");
                        assert(lowered("NONE"@).len() == 4);
                        assert(lowered(Seq::<char>::empty()).len() == 0);
                    }
                    false
                },
            };
            assert(tag@ != "EXT-X-BYTERANGE"@) by {
                reveal_strlit("EXT-X-KEY");
                reveal_strlit("EXT-X-BYTERANGE");
                assert("EXT-X-KEY"@.len() != "EXT-X-BYTERANGE"@.len());
            }
            if none {
                Ok(())
            } else {
                Err(PlaylistError::Encrypted)
            }
        } else if text::is(tag, "EXT-X-BYTERANGE") {
            Err(PlaylistError::ByteRange)
        } else {
            Ok(())
        }
    }

    fn uri(&mut self, line: &[char], base: &str) -> (r: Result<(), PlaylistError>)
        ensures
            read_uri(old(self)@, line@, base@) == (match r {
                Ok(_) => Ok(final(self)@),
                Err(e) => Err(e@),
            }),
    {
        let reference = text::string_of(line);
        let uri = match url_join(base, reference.as_str()) {
            Ok(u) => u,
            Err(e) => {
                let m = "URI ".to_owned().concat(quote(reference.as_str()).as_str()).concat(
                    ": ",
                ).concat(e.as_str());
                return Err(PlaylistError::Malformed(m));
            },
        };
        let ghost variants = self.variants@;
        let ghost segments = self.segments@;
        match self.pending_variant.take() {
            Some((bandwidth, codecs)) => {
                let v = Variant { uri, bandwidth, codecs };
                self.variants.push(v);
                assert(variant_views(self.variants@) =~= variant_views(variants).push(v@));
                Ok(())
            },
            None => match self.pending_duration {
                Some(duration) => {
                    let n: u64 = self.segments.len() as u64;
                    match self.media_sequence.checked_add(n) {
                        Some(seq) => {
                            let s = Segment {
                                seq,
                                duration,
                                uri,
                                discontinuity: self.discontinuity,
                            };
                            self.pending_duration = None;
                            self.discontinuity = false;
                            self.segments.push(s);
                            assert(segment_views(self.segments@) =~= segment_views(segments).push(
                                s@,
                            ));
                            Ok(())
                        },
                        None => {
                            let mut m = text::chars_of("EXT-X-MEDIA-SEQUENCE:");
                            text::push_digits(&mut m, self.media_sequence);
                            Err(PlaylistError::Malformed(text::string_of(&m)))
                        },
                    }
                },
                None => Ok(()),
            },
        }
    }

    fn line(&mut self, line: &[char], base: &str) -> (r: Result<(), PlaylistError>)
        ensures
            read_line(old(self)@, line@, base@) == (match r {
                Ok(_) => Ok(final(self)@),
                Err(e) => Err(e@),
            }),
    {
        if line.len() == 0 {
            return Ok(());
        }
        if line[0] != '#' {
            return self.uri(line, base);
        }
        let rest: &[char] = slice_subrange(line, 1, line.len());
        assert(rest@ =~= line@.skip(1));
        if !text::begins_with(rest, "EXT") {
            return Ok(());
        }
        match text::find(rest, ':') {
            Some(i) => {
                let tag: &[char] = slice_subrange(rest, 0, i);
                let value: &[char] = slice_subrange(rest, i + 1, rest.len());
                assert(tag@ =~= tag_of(rest@));
                assert(value@ =~= value_of(rest@));
                self.tag(tag, value)
            },
            None => {
                let value: &[char] = slice_subrange(rest, 0, 0);
                assert(rest@ =~= tag_of(rest@));
                assert(value@ =~= value_of(rest@));
                self.tag(rest, value)
            },
        }
    }

    fn conclude(self) -> (r: Result<Playlist, PlaylistError>)
        ensures
            outcome_view(r) == conclusion(self@),
    {
        assert(variant_views(self.variants@).len() == self.variants@.len());
        let target_duration = match self.target_duration {
            Some(d) => d,
            None => {
                if self.variants.len() == 0 {
                    return Err(PlaylistError::NotHls);
                }
                Duration::from_secs(0)
            },
        };
        if let Some(m) = self.deferred {
            return Err(PlaylistError::Malformed(m));
        }
        if self.variants.len() > 0 {
            return Ok(Playlist::Master(MasterPlaylist { variants: self.variants }));
        }
        Ok(
            Playlist::Media(
                MediaPlaylist {
                    target_duration,
                    media_sequence: self.media_sequence,
                    segments: self.segments,
                    end_list: self.end_list,
                },
            ),
        )
    }
}

/// Parses a playlist body. `base` is the URL the body was fetched from, after redirects, and
/// every relative URI is joined against it.
pub fn parse(body: &str, base: &str) -> (r: Result<Playlist, PlaylistError>)
    ensures
        outcome_view(r) == parsed(body@, base@),
{
    let chars = text::chars_of(body);
    let raw = text::split(&chars, '\n');
    let ghost lines = lines_of(body@);
    let ghost rest = lines.skip(1);
    assert(views(raw@).len() == raw@.len());
    assert(lines[0] == trimmed(raw@[0]@)) by {
        assert(views(raw@)[0] == raw@[0]@);
    }
    if !text::begins_with(text::trim(raw[0]), "#EXTM3U") {
        return Err(PlaylistError::NotPlaylist);
    }
    let mut scan = Scanner::new();
    let mut i: usize = 1;
    while i < raw.len()
        invariant
            1 <= i <= raw.len(),
            views(raw@) == pieces(body@, '\n'),
            lines == lines_of(body@),
            rest == lines.skip(1),
            rest.len() == raw.len() - 1,
            begins(lines[0], "#EXTM3U"@),
            read_lines(rest, (i - 1) as nat, base@) == Ok::<Scan, ErrorView>(scan@),
        decreases raw.len() - i,
    {
        assert(rest[i - 1] == trimmed(raw@[i as int]@)) by {
            assert(views(raw@)[i as int] == raw@[i as int]@);
        }
        match scan.line(text::trim(raw[i]), base) {
            Ok(_) => {},
            Err(e) => {
                proof {
                    error_is_final(rest, i as nat, rest.len(), base@);
                }
                return Err(e);
            },
        }
        i = i + 1;
    }
    scan.conclude()
}

/// No line after one that is refused changes the verdict.
pub proof fn error_is_final(lines: Seq<Seq<char>>, n: nat, m: nat, base: Seq<char>)
    requires
        n <= m,
        read_lines(lines, n, base) is Err,
    ensures
        read_lines(lines, m, base) == read_lines(lines, n, base),
    decreases m - n,
{
    if n < m {
        error_is_final(lines, n, (m - 1) as nat, base);
    }
}

/// The tags that say something; any other is not recognised.
pub open spec fn is_recognised(tag: Seq<char>) -> bool {
    ||| tag == "EXT-X-STREAM-INF"@
    ||| tag == "EXT-X-TARGETDURATION"@
    ||| tag == "EXT-X-MEDIA-SEQUENCE"@
    ||| tag == "EXTINF"@
    ||| tag == "EXT-X-DISCONTINUITY"@
    ||| tag == "EXT-X-ENDLIST"@
    ||| tag == "EXT-X-MAP"@
    ||| tag == "EXT-X-KEY"@
    ||| tag == "EXT-X-BYTERANGE"@
}

/// A trimmed line that is passed over: a blank line, a comment, a tag that is not recognised, or a
/// key that encrypts nothing.
pub open spec fn is_ignored(line: Seq<char>) -> bool {
    line.len() == 0 || line[0] == '#' && {
        let rest = line.skip(1);
        ||| !begins(rest, "EXT"@)
        ||| !is_recognised(tag_of(rest))
        ||| tag_of(rest) == "EXT-X-KEY"@ && !encrypts(value_of(rest))
    }
}

/// Blank lines, comments, unrecognised tags and keys that encrypt nothing, wherever they stand
/// below the first line, change nothing.
pub proof fn ignored_lines_change_nothing(
    body: Seq<char>,
    more: Seq<char>,
    k: int,
    line: Seq<char>,
    base: Seq<char>,
)
    requires
        is_ignored(line),
        1 <= k <= lines_of(body).len(),
        lines_of(more) == lines_of(body).insert(k, line),
    ensures
        parsed(more, base) == parsed(body, base),
{
    let lines = lines_of(body).skip(1);
    assert(lines_of(more).skip(1) =~= lines.insert(k - 1, line));
    assert(lines_of(more)[0] == lines_of(body)[0]);
    an_ignored_line_is_passed_over(lines, lines.len(), k - 1, line, base);
}

proof fn an_ignored_line_is_passed_over(
    lines: Seq<Seq<char>>,
    n: nat,
    k: int,
    line: Seq<char>,
    base: Seq<char>,
)
    requires
        is_ignored(line),
        0 <= k <= n <= lines.len(),
    ensures
        read_lines(lines.insert(k, line), n + 1, base) == read_lines(lines, n, base),
    decreases n,
{
    let more = lines.insert(k, line);
    if k == n {
        same_lines_read_alike(lines, more, n, base);
        a_key_is_no_other_tag();
        assert(more[n as int] == line);
    } else {
        an_ignored_line_is_passed_over(lines, (n - 1) as nat, k, line, base);
        assert(more[n as int] == lines[n - 1]);
    }
}

proof fn a_key_is_no_other_tag()
    ensures
        "EXT-X-KEY"@ != "EXT-X-STREAM-INF"@,
        "EXT-X-KEY"@ != "EXT-X-TARGETDURATION"@,
        "EXT-X-KEY"@ != "EXT-X-MEDIA-SEQUENCE"@,
        "EXT-X-KEY"@ != "EXTINF"@,
        "EXT-X-KEY"@ != "EXT-X-DISCONTINUITY"@,
        "EXT-X-KEY"@ != "EXT-X-ENDLIST"@,
        "EXT-X-KEY"@ != "EXT-X-MAP"@,
        "EXT-X-KEY"@ != "EXT-X-BYTERANGE"@,
{
    reveal_strlit("EXT-X-KEY");
    reveal_strlit("EXT-X-STREAM-INF");
    reveal_strlit("EXT-X-TARGETDURATION");
    reveal_strlit("EXT-X-MEDIA-SEQUENCE");
    reveal_strlit("EXTINF");
    reveal_strlit("EXT-X-DISCONTINUITY");
    reveal_strlit("EXT-X-ENDLIST");
    reveal_strlit("EXT-X-MAP");
    reveal_strlit("EXT-X-BYTERANGE");
    assert("EXT-X-KEY"@[6] != "EXT-X-MAP"@[6]);
    assert("EXT-X-KEY"@.len() != "EXTINF"@.len());
}

pub proof fn same_lines_read_alike(a: Seq<Seq<char>>, b: Seq<Seq<char>>, n: nat, base: Seq<char>)
    requires
        forall|i: int| 0 <= i < n ==> a[i] == b[i],
    ensures
        read_lines(a, n, base) == read_lines(b, n, base),
    decreases n,
{
    if n > 0 {
        same_lines_read_alike(a, b, (n - 1) as nat, base);
    }
}

/// The body with a carriage return before each of its line feeds.
pub open spec fn with_returns(body: Seq<char>) -> Seq<char>
    decreases body.len(),
    via with_returns_ends
{
    let i = first_at(body, '\n');
    if i < body.len() {
        body.take(i) + seq!['\r', '\n'] + with_returns(body.skip(i + 1))
    } else {
        body
    }
}

#[via_fn]
proof fn with_returns_ends(body: Seq<char>) {
    first_at_is_first(body, '\n');
}

/// Lines that end in a carriage return and a line feed are read like those that end in a line
/// feed.
pub proof fn carriage_returns_change_nothing(body: Seq<char>, base: Seq<char>)
    ensures
        parsed(with_returns(body), base) == parsed(body, base),
{
    returns_are_trimmed(body);
}

proof fn returns_are_trimmed(body: Seq<char>)
    ensures
        lines_of(with_returns(body)) == lines_of(body),
    decreases body.len(),
{
    let trim = |l: Seq<char>| trimmed(l);
    let i = first_at(body, '\n');
    first_at_is_first(body, '\n');
    if i < body.len() {
        let first = body.take(i);
        let rest = body.skip(i + 1);
        let both = with_returns(body);
        returns_are_trimmed(rest);
        assert forall|j: int| 0 <= j < i + 1 implies both[j] != '\n' by {
            if j < i {
                assert(both[j] == body[j]);
            }
        }
        assert(both[i + 1] == '\n');
        first_at_unique(both, '\n', i + 1);
        assert(both.take(i + 1) =~= first.push('\r'));
        assert(both.skip(i + 2) =~= with_returns(rest));
        white_at_the_end_is_trimmed(first, '\r');
        assert(lines_of(both) =~= seq![trimmed(first)] + lines_of(with_returns(rest)));
        assert(lines_of(body) =~= seq![trimmed(first)] + lines_of(rest));
    }
}

// ---------------------------------------------------------------------------------------------
// Variant choice

#[derive(Debug, Clone, Copy, PartialEq, Eq, Structural)]
pub enum Kind {
    /// Every codec is audio. `he` when any is HE-AAC (`mp4a.40.5` / `mp4a.40.29`).
    AudioOnly { he: bool },
    /// No `CODECS` attribute: unknown, so worth trying; the segment sniff decides.
    Unknown,
    /// Audio and something else (video, subtitles).
    Muxed,
    /// No audio codec at all.
    VideoOnly,
}

/// `s` begins with `prefix`, but for the case of ASCII letters.
pub open spec fn begins_ignoring_case(s: Seq<char>, prefix: Seq<char>) -> bool {
    s.len() >= prefix.len() && lowered(s.take(prefix.len() as int)) == lowered(prefix)
}

/// `mp4a.*`, `ac-3` and `ec-3` are audio.
pub open spec fn audio_codec(c: Seq<char>) -> bool {
    let c = trimmed(c);
    ||| begins_ignoring_case(c, "mp4a."@)
    ||| lowered(c) == lowered("ac-3"@)
    ||| lowered(c) == lowered("ec-3"@)
}

/// `mp4a.40.<object type>`: 5 is HE-AAC v1 (SBR), 29 is HE-AAC v2 (SBR + PS).
pub open spec fn he_aac(c: Seq<char>) -> bool {
    let c = trimmed(c);
    &&& begins_ignoring_case(c, "mp4a.40."@)
    &&& number(c.skip(8), u32::MAX as nat) == Some(5nat) || number(c.skip(8), u32::MAX as nat)
        == Some(29nat)
}

pub open spec fn variant_kind(v: VariantView) -> Kind {
    match v.codecs {
        None => Kind::Unknown,
        Some(codecs) => if forall|i: int|
            0 <= i < codecs.len() ==> !audio_codec(#[trigger] codecs[i]) {
            Kind::VideoOnly
        } else if forall|i: int| 0 <= i < codecs.len() ==> audio_codec(#[trigger] codecs[i]) {
            Kind::AudioOnly {
                he: exists|i: int| 0 <= i < codecs.len() && he_aac(#[trigger] codecs[i]),
            }
        } else {
            Kind::Muxed
        },
    }
}

fn begins_with_ignoring_case(s: &[char], lit: &str, n: usize) -> (r: bool)
    requires
        n == lit@.len(),
    ensures
        r == begins_ignoring_case(s@, lit@),
{
    if s.len() < n {
        return false;
    }
    let head: &[char] = slice_subrange(s, 0, n);
    assert(head@ =~= s@.take(n as int));
    text::is_ignoring_case(head, lit)
}

pub fn is_audio_codec(c: &str) -> (r: bool)
    ensures
        r == audio_codec(c@),
{
    let chars = text::chars_of(c);
    let c = text::trim(&chars);
    proof {
        reveal_strlit("mp4a.");
    }
    begins_with_ignoring_case(c, "mp4a.", 5) || text::is_ignoring_case(c, "ac-3")
        || text::is_ignoring_case(c, "ec-3")
}

pub fn is_he_aac(c: &str) -> (r: bool)
    ensures
        r == he_aac(c@),
{
    let chars = text::chars_of(c);
    let c = text::trim(&chars);
    proof {
        reveal_strlit("mp4a.40.");
    }
    if !begins_with_ignoring_case(c, "mp4a.40.", 8) {
        return false;
    }
    let object_type: &[char] = slice_subrange(c, 8, c.len());
    assert(object_type@ =~= c@.skip(8));
    match text::parse_number(object_type, u32::MAX as u64) {
        Some(n) => n == 5 || n == 29,
        None => false,
    }
}

pub fn kind(v: &Variant) -> (k: Kind)
    ensures
        k == variant_kind(v@),
{
    match &v.codecs {
        None => Kind::Unknown,
        Some(codecs) => {
            let ghost named = strings(codecs@);
            let mut any_audio = false;
            let mut all_audio = true;
            let mut he = false;
            let mut i: usize = 0;
            while i < codecs.len()
                invariant
                    i <= codecs.len(),
                    named == strings(codecs@),
                    any_audio == exists|j: int| 0 <= j < i && audio_codec(#[trigger] named[j]),
                    all_audio == forall|j: int| 0 <= j < i ==> audio_codec(#[trigger] named[j]),
                    he == exists|j: int| 0 <= j < i && he_aac(#[trigger] named[j]),
                decreases codecs.len() - i,
            {
                assert(named[i as int] == codecs@[i as int]@);
                if is_audio_codec(codecs[i].as_str()) {
                    any_audio = true;
                } else {
                    all_audio = false;
                }
                if is_he_aac(codecs[i].as_str()) {
                    he = true;
                }
                i = i + 1;
            }
            assert(named.len() == codecs@.len());
            assert(v@.codecs == Some(named));
            if !any_audio {
                Kind::VideoOnly
            } else if all_audio {
                Kind::AudioOnly { he }
            } else {
                Kind::Muxed
            }
        },
    }
}

/// The bandwidth of a variant, 0 when it declares none.
pub open spec fn rate(v: VariantView) -> u64 {
    match v.bandwidth {
        Some(b) => b,
        None => 0,
    }
}

/// Whether variant `i` is listened to rather than variant `j`: audio-only before unknown before
/// muxed before video-only; LC before HE; the higher bandwidth, and the later of two that are
/// equal in all this, except that of two muxed variants the lower bandwidth comes first, and the
/// earlier of two that are equal.
pub open spec fn before(vs: Seq<VariantView>, i: int, j: int) -> bool {
    let higher = rate(vs[i]) > rate(vs[j]) || (rate(vs[i]) == rate(vs[j]) && i > j);
    let lower = rate(vs[i]) < rate(vs[j]) || (rate(vs[i]) == rate(vs[j]) && i < j);
    match (variant_kind(vs[i]), variant_kind(vs[j])) {
        (Kind::AudioOnly { he: a }, Kind::AudioOnly { he: b }) => if a == b {
            higher
        } else {
            b
        },
        (Kind::AudioOnly { .. }, _) => true,
        (Kind::Unknown, Kind::AudioOnly { .. }) => false,
        (Kind::Unknown, Kind::Unknown) => higher,
        (Kind::Unknown, _) => true,
        (Kind::Muxed, Kind::Muxed) => lower,
        (Kind::Muxed, Kind::VideoOnly) => true,
        (Kind::Muxed, _) => false,
        (Kind::VideoOnly, _) => false,
    }
}

/// Variant `i` is the one to play: it carries audio, or may, and comes before every other.
pub open spec fn chosen(vs: Seq<VariantView>, i: int) -> bool {
    &&& 0 <= i < vs.len()
    &&& variant_kind(vs[i]) != Kind::VideoOnly
    &&& forall|j: int| 0 <= j < vs.len() && j != i ==> #[trigger] before(vs, i, j)
}

/// The codecs of the first `n` variants, in order.
pub open spec fn listed_codecs(vs: Seq<VariantView>, n: nat) -> Seq<Seq<char>>
    decreases n,
{
    if n == 0 {
        Seq::empty()
    } else {
        listed_codecs(vs, (n - 1) as nat) + (match vs[n - 1].codecs {
            Some(c) => c,
            None => Seq::empty(),
        })
    }
}

/// `s` without what stands in it a second time.
pub open spec fn distinct(s: Seq<Seq<char>>) -> Seq<Seq<char>>
    decreases s.len(),
{
    if s.len() == 0 {
        s
    } else {
        let d = distinct(s.drop_last());
        if d.contains(s.last()) {
            d
        } else {
            d.push(s.last())
        }
    }
}

/// The texts of `s` with commas between them.
pub open spec fn with_commas(s: Seq<Seq<char>>) -> Seq<char>
    decreases s.len(),
{
    if s.len() == 0 {
        Seq::empty()
    } else if s.len() == 1 {
        s[0]
    } else {
        with_commas(s.drop_last()) + ","@ + s.last()
    }
}

/// What a listener is told of a master without audio.
pub open spec fn seen_codecs(vs: Seq<VariantView>) -> Seq<char> {
    let seen = distinct(listed_codecs(vs, vs.len()));
    if seen.len() == 0 {
        "no variants"@
    } else {
        with_commas(seen)
    }
}

fn bandwidth(v: &Variant) -> (b: u64)
    ensures
        b == rate(v@),
{
    match v.bandwidth {
        Some(b) => b,
        None => 0,
    }
}

/// Whether a later variant of kind `k` and bandwidth `b` comes before an earlier one of kind
/// `old_k` and bandwidth `old_b`.
fn replaces(k: Kind, b: u64, old_k: Kind, old_b: u64) -> (r: bool)
    ensures
        forall|vs: Seq<VariantView>, i: int, j: int|
            i > j && variant_kind(vs[i]) == k && rate(vs[i]) == b && variant_kind(vs[j]) == old_k
                && rate(vs[j]) == old_b ==> r == #[trigger] before(vs, i, j) && (r || old_k
                == Kind::VideoOnly || before(vs, j, i)),
{
    match (k, old_k) {
        (Kind::AudioOnly { he: a }, Kind::AudioOnly { he: b2 }) => if a == b2 {
            b >= old_b
        } else {
            b2
        },
        (Kind::AudioOnly { .. }, _) => true,
        (Kind::Unknown, Kind::AudioOnly { .. }) => false,
        (Kind::Unknown, Kind::Unknown) => b >= old_b,
        (Kind::Unknown, _) => true,
        (Kind::Muxed, Kind::Muxed) => b < old_b,
        (Kind::Muxed, Kind::VideoOnly) => true,
        (Kind::Muxed, _) => false,
        (Kind::VideoOnly, _) => false,
    }
}

/// The order of preference is transitive.
proof fn before_transitive(vs: Seq<VariantView>, i: int, j: int, k: int)
    requires
        before(vs, i, j),
        before(vs, j, k),
    ensures
        before(vs, i, k),
{
}

/// `list` holds `c`.
fn holds(list: &Vec<String>, c: &String) -> (r: bool)
    ensures
        r == strings(list@).contains(c@),
{
    let mut i: usize = 0;
    while i < list.len()
        invariant
            i <= list.len(),
            forall|j: int| 0 <= j < i ==> strings(list@)[j] != c@,
        decreases list.len() - i,
    {
        assert(strings(list@)[i as int] == list@[i as int]@);
        if list[i] == *c {
            assert(strings(list@).contains(c@));
            return true;
        }
        i = i + 1;
    }
    assert(strings(list@).len() == list@.len());
    false
}

/// The texts of `list` with commas between them.
fn comma_joined(list: &Vec<String>) -> (r: String)
    ensures
        r@ == with_commas(strings(list@)),
{
    let ghost all = strings(list@);
    if list.len() == 0 {
        return String::new();
    }
    let mut r = list[0].clone();
    let mut i: usize = 1;
    assert(all.take(1)[0] == list@[0]@);
    while i < list.len()
        invariant
            1 <= i <= list.len(),
            all == strings(list@),
            r@ == with_commas(all.take(i as int)),
        decreases list.len() - i,
    {
        assert(all.take(i + 1).drop_last() == all.take(i as int));
        assert(all.take(i + 1).last() == list@[i as int]@);
        r = r.concat(",").concat(list[i].as_str());
        i = i + 1;
    }
    assert(all.take(all.len() as int) == all);
    r
}

/// The codecs that the variants list, each once.
fn distinct_codecs(variants: &Vec<Variant>) -> (seen: Vec<String>)
    ensures
        strings(seen@) == distinct(listed_codecs(variant_views(variants@), variants@.len())),
{
    let ghost vs = variant_views(variants@);
    let mut seen: Vec<String> = Vec::new();
    assert(strings(seen@) =~= distinct(listed_codecs(vs, 0)));
    let mut i: usize = 0;
    while i < variants.len()
        invariant
            i <= variants.len(),
            vs == variant_views(variants@),
            strings(seen@) == distinct(listed_codecs(vs, i as nat)),
        decreases variants.len() - i,
    {
        let ghost listed = listed_codecs(vs, i as nat);
        assert(vs[i as int] == variants@[i as int]@);
        match &variants[i].codecs {
            None => {
                assert(listed_codecs(vs, (i + 1) as nat) =~= listed);
            },
            Some(codecs) => {
                let ghost named = strings(codecs@);
                assert(vs[i as int].codecs == Some(named));
                let mut k: usize = 0;
                assert(listed + named.take(0) =~= listed);
                while k < codecs.len()
                    invariant
                        k <= codecs.len(),
                        named == strings(codecs@),
                        strings(seen@) == distinct(listed + named.take(k as int)),
                    decreases codecs.len() - k,
                {
                    let ghost grown = listed + named.take(k + 1);
                    let ghost before = seen@;
                    proof {
                        assert(named[k as int] == codecs@[k as int]@);
                        assert(grown.drop_last() =~= listed + named.take(k as int));
                        assert(grown.last() == codecs@[k as int]@);
                    }
                    if !holds(&seen, &codecs[k]) {
                        seen.push(codecs[k].clone());
                        assert(strings(seen@) =~= strings(before).push(codecs@[k as int]@));
                    }
                    k = k + 1;
                }
                assert(named.take(named.len() as int) =~= named);
                assert(listed_codecs(vs, (i + 1) as nat) == listed + named);
            },
        }
        i = i + 1;
    }
    seen
}

/// Picks the variant to play. Audio-only first (LC before HE, because the decoder plays the
/// core only, so at equal rate LC sounds better) at the highest bandwidth; next a variant with
/// no `CODECS`, highest bandwidth; next a muxed audio + video variant at the lowest bandwidth
/// (the bytes are mostly video). A video-only variant is never chosen.
pub fn choose_variant(master: &MasterPlaylist) -> (r: Result<&Variant, NoAudio>)
    ensures
        r matches Ok(v) ==> exists|i: int|
            #[trigger] chosen(master@, i) && *v == master.variants@[i],
        r matches Err(NoAudio(seen)) ==> seen@ == seen_codecs(master@) && forall|i: int|
            0 <= i < master@.len() ==> variant_kind(#[trigger] master@[i]) == Kind::VideoOnly,
{
    let ghost vs = master@;
    let n: usize = master.variants.len();
    assert(vs.len() == n);
    let mut best: usize = 0;
    let mut best_kind = Kind::VideoOnly;
    let mut best_rate: u64 = 0;
    let mut i: usize = 0;
    while i < n
        invariant
            i <= n,
            n == master.variants.len(),
            vs == master@,
            vs.len() == n,
            best_kind == Kind::VideoOnly ==> forall|j: int|
                0 <= j < i ==> variant_kind(#[trigger] vs[j]) == Kind::VideoOnly,
            best_kind != Kind::VideoOnly ==> {
                &&& best < i
                &&& variant_kind(vs[best as int]) == best_kind
                &&& rate(vs[best as int]) == best_rate
                &&& forall|j: int| 0 <= j < i && j != best ==> #[trigger] before(vs, best as int, j)
            },
        decreases n - i,
    {
        let v = &master.variants[i];
        assert(vs[i as int] == v@);
        let k = kind(v);
        let b: u64 = bandwidth(v);
        if best_kind == Kind::VideoOnly {
            if k != Kind::VideoOnly {
                assert forall|j: int| 0 <= j < i + 1 && j != i implies #[trigger] before(
                    vs,
                    i as int,
                    j,
                ) by {
                    assert(variant_kind(vs[j]) == Kind::VideoOnly);
                }
                best = i;
                best_kind = k;
                best_rate = b;
            }
        } else if replaces(k, b, best_kind, best_rate) {
            proof {
                assert(before(vs, i as int, best as int));
                assert forall|j: int| 0 <= j < i + 1 && j != i implies #[trigger] before(
                    vs,
                    i as int,
                    j,
                ) by {
                    if j != best {
                        assert(before(vs, best as int, j));
                        before_transitive(vs, i as int, best as int, j);
                    }
                }
            }
            best = i;
            best_kind = k;
            best_rate = b;
        } else {
            assert(!before(vs, i as int, best as int));
            assert(before(vs, best as int, i as int));
        }
        i = i + 1;
    }
    if best_kind != Kind::VideoOnly {
        assert(chosen(vs, best as int));
        return Ok(&master.variants[best]);
    }
    let seen = distinct_codecs(&master.variants);
    assert(strings(seen@).len() == seen@.len());
    Err(
        NoAudio(
            if seen.len() == 0 {
                "no variants".to_owned()
            } else {
                comma_joined(&seen)
            },
        ),
    )
}

/// No master has two variants to play.
pub proof fn one_variant_is_chosen(vs: Seq<VariantView>, i: int, j: int)
    requires
        chosen(vs, i),
        chosen(vs, j),
    ensures
        i == j,
{
    if i != j {
        assert(before(vs, i, j));
        assert(before(vs, j, i));
    }
}

/// A listener never gets HE-AAC where there is LC, nor anything but audio where there is audio
/// alone, nor a variant that is known to carry no audio.
pub proof fn the_plainest_audio_is_chosen(vs: Seq<VariantView>, i: int, j: int)
    requires
        chosen(vs, i),
        0 <= j < vs.len(),
    ensures
        variant_kind(vs[i]) != Kind::VideoOnly,
        variant_kind(vs[j]) == (Kind::AudioOnly { he: false }) ==> variant_kind(vs[i])
            == (Kind::AudioOnly { he: false }) && rate(vs[i]) >= rate(vs[j]),
        variant_kind(vs[j]) is AudioOnly ==> variant_kind(vs[i]) is AudioOnly,
        variant_kind(vs[j]) == Kind::Unknown ==> variant_kind(vs[i]) != Kind::Muxed,
        variant_kind(vs[i]) == Kind::Muxed && variant_kind(vs[j]) == Kind::Muxed ==> rate(vs[i])
            <= rate(vs[j]),
{
    if i != j {
        assert(before(vs, i, j));
    }
}

/// How far a variant is from what a listener wants: plain audio first, HE audio next, a variant
/// that declares no codecs after them, then one that carries other things beside audio, and last
/// one that carries no audio.
pub open spec fn distance(k: Kind) -> int {
    match k {
        Kind::AudioOnly { he: false } => 0,
        Kind::AudioOnly { he: true } => 1,
        Kind::Unknown => 2,
        Kind::Muxed => 3,
        Kind::VideoOnly => 4,
    }
}

/// No variant is nearer to what a listener wants than the one that is chosen. Of those that are as
/// near it has the highest bandwidth, and is the last of those; but where all carry other things
/// beside audio it has the lowest, and is the first of those. A bandwidth that is not declared is
/// the lowest of all.
pub proof fn the_best_bandwidth_is_chosen(vs: Seq<VariantView>, i: int, j: int)
    requires
        chosen(vs, i),
        0 <= j < vs.len(),
    ensures
        distance(variant_kind(vs[i])) < 4,
        distance(variant_kind(vs[i])) <= distance(variant_kind(vs[j])),
        variant_kind(vs[i]) == variant_kind(vs[j]) && !(variant_kind(vs[i]) is Muxed) ==> {
            let (b, c) = (vs[i].bandwidth.unwrap_or(0), vs[j].bandwidth.unwrap_or(0));
            b > c || b == c && i >= j
        },
        variant_kind(vs[i]) is Muxed && variant_kind(vs[j]) is Muxed ==> {
            let (b, c) = (vs[i].bandwidth.unwrap_or(0), vs[j].bandwidth.unwrap_or(0));
            b < c || b == c && i <= j
        },
{
    if i != j {
        assert(before(vs, i, j));
    }
}

/// A variant is of the kind that its codecs say: of none known without codecs, of audio alone when
/// each is audio, of no audio when none is; and HE when any of them is HE-AAC.
pub proof fn the_codecs_say_the_kind(v: VariantView)
    ensures
        variant_kind(v) is Unknown <==> v.codecs is None,
        variant_kind(v) is VideoOnly <==> v.codecs is Some && forall|c: Seq<char>|
            v.codecs->0.contains(c) ==> !audio_codec(c),
        variant_kind(v) is AudioOnly ==> forall|c: Seq<char>|
            v.codecs->0.contains(c) ==> audio_codec(c),
        variant_kind(v) is Muxed ==> exists|c: Seq<char>|
            v.codecs->0.contains(c) && !audio_codec(c),
        variant_kind(v) matches Kind::AudioOnly { he } ==> (he <==> exists|c: Seq<char>|
            v.codecs->0.contains(c) && he_aac(c)),
{
    if let Some(cs) = v.codecs {
        assert forall|k: int| 0 <= k < cs.len() implies cs.contains(#[trigger] cs[k]) by {}
        match variant_kind(v) {
            Kind::Muxed => {
                let k = choose|k: int| 0 <= k < cs.len() && !audio_codec(#[trigger] cs[k]);
                assert(cs.contains(cs[k]) && !audio_codec(cs[k]));
            },
            Kind::AudioOnly { he } => {
                if he {
                    let k = choose|k: int| 0 <= k < cs.len() && he_aac(#[trigger] cs[k]);
                    assert(cs.contains(cs[k]) && he_aac(cs[k]));
                }
                assert forall|c: Seq<char>| cs.contains(c) implies audio_codec(c) by {
                    let k = choose|k: int| 0 <= k < cs.len() && cs[k] == c;
                    assert(audio_codec(cs[k]));
                }
            },
            Kind::VideoOnly => {
                assert forall|c: Seq<char>| cs.contains(c) implies !audio_codec(c) by {
                    let k = choose|k: int| 0 <= k < cs.len() && cs[k] == c;
                    assert(!audio_codec(cs[k]));
                }
            },
            Kind::Unknown => {},
        }
        if variant_kind(v) is AudioOnly || variant_kind(v) is Muxed {
            let k = choose|k: int| 0 <= k < cs.len() && audio_codec(#[trigger] cs[k]);
            assert(cs.contains(cs[k]));
        }
    }
}

/// A codec is audio when it is written `mp4a.` and anything, `ac-3` or `ec-3`, whatever the case of
/// its letters and whatever white space is around it.
pub proof fn what_is_an_audio_codec(pre: Seq<char>, c: Seq<char>, post: Seq<char>)
    requires
        forall|i: int| 0 <= i < pre.len() ==> text::white(#[trigger] pre[i]),
        forall|i: int| 0 <= i < post.len() ==> text::white(#[trigger] post[i]),
        c.len() > 0 ==> !text::white(c[0]) && !text::white(c.last()),
    ensures
        audio_codec(pre + c + post) <==> text::alike_from(c, "mp4a."@, 0) || c.len() == 4
            && text::alike_from(c, "ac-3"@, 0) || c.len() == 4 && text::alike_from(c, "ec-3"@, 0),
{
    reveal_strlit("mp4a.");
    reveal_strlit("ac-3");
    reveal_strlit("ec-3");
    text::trimming_takes_the_white_off(pre, c, post);
    prefix_is_alike(c, "mp4a."@);
    prefix_is_alike(c, "ac-3"@);
    prefix_is_alike(c, "ec-3"@);
    if c.len() == 4 {
        assert(c.take(4) =~= c);
    }
    assert(lowered(c).len() == c.len() && lowered("ac-3"@).len() == 4 && lowered("ec-3"@).len()
        == 4);
}

proof fn prefix_is_alike(c: Seq<char>, prefix: Seq<char>)
    ensures
        begins_ignoring_case(c, prefix) <==> text::alike_from(c, prefix, 0),
{
    let n = prefix.len() as int;
    if c.len() >= n {
        let head = c.take(n);
        text::lowered_alike(head, prefix);
        if text::alike_from(c, prefix, 0) {
            assert forall|i: int| 0 <= i < head.len() implies text::same_letter(
                #[trigger] head[i],
                prefix[i],
            ) by {
                assert(text::same_letter(c[0 + i], prefix[i]));
            }
        }
        if lowered(head) == lowered(prefix) {
            assert forall|k: int| 0 <= k < n implies text::same_letter(c[0 + k], #[trigger] prefix[k]) by {
                assert(text::same_letter(head[k], prefix[k]));
            }
        }
    }
}

/// `mp4a.40.` and a number is HE-AAC for the numbers 5 and 29, and for no other; and it is audio.
pub proof fn which_numbers_are_he_aac(n: u32)
    ensures
        he_aac("mp4a.40."@ + digits(n as nat)) <==> n == 5 || n == 29,
        audio_codec("mp4a.40."@ + digits(n as nat)),
{
    reveal_strlit("mp4a.40.");
    reveal_strlit("mp4a.");
    let none = Seq::<char>::empty();
    let d = digits(n as nat);
    let c = "mp4a.40."@ + d;
    text::digits_read_back(n as nat, u32::MAX as nat);
    assert('0' <= d[d.len() - 1] <= '9');
    assert(c[0] == 'm' && c.last() == d.last());
    text::trimming_takes_the_white_off(none, c, none);
    assert(none + c + none =~= c);
    assert(c.take(8) =~= "mp4a.40."@);
    assert(c.skip(8) =~= d);
    assert(c.take(5) =~= "mp4a."@);
}

/// What a listener is told of a master without audio names every codec of its variants once, in the
/// order they came, with commas between them.
pub proof fn the_codecs_seen_are_told(vs: Seq<VariantView>, i: int, k: int)
    requires
        0 <= i < vs.len(),
        vs[i].codecs is Some,
        0 <= k < vs[i].codecs->0.len(),
    ensures
        ({
            let seen = distinct(listed_codecs(vs, vs.len()));
            &&& seen.contains(vs[i].codecs->0[k])
            &&& seen.no_duplicates()
            &&& seen_codecs(vs) == text::put_together(seen, ',')
        }),
{
    let all = listed_codecs(vs, vs.len());
    let seen = distinct(all);
    every_codec_is_listed(vs, vs.len(), i, k);
    distinct_keeps_each_once(all);
    assert(seen.contains(vs[i].codecs->0[k]));
    commas_put_together(seen);
}

proof fn every_codec_is_listed(vs: Seq<VariantView>, n: nat, i: int, k: int)
    requires
        0 <= i < n <= vs.len(),
        vs[i].codecs is Some,
        0 <= k < vs[i].codecs->0.len(),
    ensures
        listed_codecs(vs, n).contains(vs[i].codecs->0[k]),
    decreases n,
{
    let before = listed_codecs(vs, (n - 1) as nat);
    let all = listed_codecs(vs, n);
    let c = vs[i].codecs->0[k];
    if i == n - 1 {
        assert(all[before.len() + k] == c);
    } else {
        every_codec_is_listed(vs, (n - 1) as nat, i, k);
        let x = choose|x: int| 0 <= x < before.len() && before[x] == c;
        assert(all[x] == c);
    }
}

proof fn distinct_keeps_each_once(s: Seq<Seq<char>>)
    ensures
        distinct(s).no_duplicates(),
        forall|x: Seq<char>| #[trigger] distinct(s).contains(x) <==> s.contains(x),
    decreases s.len(),
{
    if s.len() > 0 {
        let t = s.drop_last();
        let (d, n) = (distinct(t), distinct(s));
        distinct_keeps_each_once(t);
        assert forall|x: Seq<char>| #[trigger] n.contains(x) <==> s.contains(x) by {
            if s.contains(x) {
                let k = choose|k: int| 0 <= k < s.len() && s[k] == x;
                if k < t.len() {
                    assert(t[k] == x);
                    assert(d.contains(x));
                    let m = choose|m: int| 0 <= m < d.len() && d[m] == x;
                    assert(n[m] == x);
                } else if !d.contains(x) {
                    assert(n[n.len() - 1] == x);
                }
            }
            if n.contains(x) {
                let m = choose|m: int| 0 <= m < n.len() && n[m] == x;
                if m < d.len() {
                    assert(d[m] == x);
                    assert(d.contains(x));
                    let k = choose|k: int| 0 <= k < t.len() && t[k] == x;
                    assert(s[k] == x);
                } else {
                    assert(s[s.len() - 1] == x);
                }
            }
        }
    }
}

proof fn commas_put_together(s: Seq<Seq<char>>)
    ensures
        with_commas(s) == text::put_together(s, ','),
    decreases s.len(),
{
    reveal_strlit(",");
    assert(","@ =~= seq![',']);
    if s.len() > 1 {
        commas_put_together(s.drop_last());
        put_together_push(s.drop_last(), s.last());
        assert(s.drop_last().push(s.last()) =~= s);
    }
}

proof fn put_together_push(s: Seq<Seq<char>>, x: Seq<char>)
    requires
        s.len() > 0,
    ensures
        text::put_together(s.push(x), ',') == text::put_together(s, ',') + seq![','] + x,
    decreases s.len(),
{
    let all = s.push(x);
    if s.len() == 1 {
        assert(all.skip(1) =~= seq![x]);
        assert(text::put_together(seq![x], ',') == x);
        assert(s[0].push(',') + x =~= s[0] + seq![','] + x);
    } else {
        put_together_push(s.skip(1), x);
        assert(all.skip(1) =~= s.skip(1).push(x));
        let t = text::put_together(s.skip(1), ',');
        assert(s[0].push(',') + (t + seq![','] + x) =~= s[0].push(',') + t + seq![','] + x);
    }
}

/// A listener is told what was malformed, in its own words, and each other refusal by a sentence of
/// its own.
pub proof fn each_refusal_has_its_sentence(m: Seq<char>)
    ensures
        error_text(ErrorView::Malformed(m)) == "malformed playlist: "@ + m,
        error_text(ErrorView::NotPlaylist) != error_text(ErrorView::NotHls),
        error_text(ErrorView::Fmp4) != error_text(ErrorView::Encrypted),
        error_text(ErrorView::Encrypted) != error_text(ErrorView::ByteRange),
        error_text(ErrorView::Fmp4) != error_text(ErrorView::ByteRange),
        text::holds(error_text(ErrorView::NotPlaylist), "#EXTM3U"@),
        text::holds(error_text(ErrorView::NotHls), "not HLS"@),
        text::holds(error_text(ErrorView::Fmp4), "fMP4"@),
        text::holds(error_text(ErrorView::Encrypted), "encrypted"@),
        text::holds(error_text(ErrorView::ByteRange), "byte-range"@),
{
    reveal_strlit("not a playlist (no #EXTM3U)");
    reveal_strlit("playlist is not HLS (no EXT-X tags)");
    reveal_strlit("HLS with fMP4 segments is not supported yet");
    reveal_strlit("encrypted HLS is not supported");
    reveal_strlit("HLS byte-range segments are not supported");
    reveal_strlit("#EXTM3U");
    reveal_strlit("not HLS");
    reveal_strlit("fMP4");
    reveal_strlit("encrypted");
    reveal_strlit("byte-range");
    assert("not a playlist (no #EXTM3U)"@.len() == 27);
    assert("playlist is not HLS (no EXT-X tags)"@.len() == 35);
    assert("HLS with fMP4 segments is not supported yet"@.len() == 43);
    assert("encrypted HLS is not supported"@.len() == 30);
    assert("HLS byte-range segments are not supported"@.len() == 41);
    assert("not a playlist (no #EXTM3U)"@.subrange(19, 26) =~= "#EXTM3U"@);
    assert(text::stands_at("not a playlist (no #EXTM3U)"@, "#EXTM3U"@, 19));
    assert("playlist is not HLS (no EXT-X tags)"@.subrange(12, 19) =~= "not HLS"@);
    assert(text::stands_at("playlist is not HLS (no EXT-X tags)"@, "not HLS"@, 12));
    assert("HLS with fMP4 segments is not supported yet"@.subrange(9, 13) =~= "fMP4"@);
    assert(text::stands_at("HLS with fMP4 segments is not supported yet"@, "fMP4"@, 9));
    assert("encrypted HLS is not supported"@.subrange(0, 9) =~= "encrypted"@);
    assert(text::stands_at("encrypted HLS is not supported"@, "encrypted"@, 0));
    assert("HLS byte-range segments are not supported"@.subrange(4, 14) =~= "byte-range"@);
    assert(text::stands_at("HLS byte-range segments are not supported"@, "byte-range"@, 4));
}

// ---------------------------------------------------------------------------------------------
// The numbering of segments

/// A line that is a URI.
pub open spec fn is_uri_line(line: Seq<char>) -> bool {
    line.len() > 0 && line[0] != '#'
}

/// A line that sets the media sequence number.
pub open spec fn sets_sequence(line: Seq<char>) -> bool {
    line.len() > 0 && line[0] == '#' && tag_of(line.skip(1)) == "EXT-X-MEDIA-SEQUENCE"@
}

/// Segments are numbered one by one from the media sequence number.
pub open spec fn numbered(segments: Seq<SegmentView>, media_sequence: u64) -> bool {
    forall|i: int|
        0 <= i < segments.len() ==> (#[trigger] segments[i]).seq == media_sequence + i
}

/// A playlist that does not change its media sequence number after a URI numbers its segments
/// one by one from that number.
pub proof fn parse_numbers_segments(body: Seq<char>, base: Seq<char>, m: MediaView)
    requires
        parsed(body, base) == Ok::<PlaylistView, ErrorView>(PlaylistView::Media(m)),
        forall|i: int, j: int|
            0 < i < j < lines_of(body).len() && is_uri_line(#[trigger] lines_of(body)[i])
                ==> !sets_sequence(#[trigger] lines_of(body)[j]),
    ensures
        numbered(m.segments, m.media_sequence),
{
    let rest = lines_of(body).skip(1);
    assert forall|i: int, j: int|
        0 <= i < j < rest.len() && is_uri_line(#[trigger] rest[i]) implies !sets_sequence(
        #[trigger] rest[j],
    ) by {
        assert(rest[i] == lines_of(body)[i + 1]);
        assert(rest[j] == lines_of(body)[j + 1]);
    }
    lines_number_segments(rest, rest.len(), base);
}

proof fn lines_number_segments(lines: Seq<Seq<char>>, n: nat, base: Seq<char>)
    requires
        n <= lines.len(),
        read_lines(lines, n, base) is Ok,
        forall|i: int, j: int|
            0 <= i < j < lines.len() && is_uri_line(#[trigger] lines[i]) ==> !sets_sequence(
                #[trigger] lines[j],
            ),
    ensures
        ({
            let at = read_lines(lines, n, base)->Ok_0;
            &&& numbered(at.segments, at.media_sequence)
            &&& at.segments.len() > 0 ==> exists|i: int| 0 <= i < n && is_uri_line(lines[i])
        }),
    decreases n,
{
    if n > 0 {
        lines_number_segments(lines, (n - 1) as nat, base);
        let was = read_lines(lines, (n - 1) as nat, base)->Ok_0;
        let line = lines[n - 1];
        let at = read_lines(lines, n, base)->Ok_0;
        if was.segments.len() > 0 {
            let i = choose|i: int| 0 <= i < n - 1 && is_uri_line(lines[i]);
            assert(is_uri_line(lines[i]));
            assert(!sets_sequence(line));
            assert(at.media_sequence == was.media_sequence);
        }
        if is_uri_line(line) {
            assert(is_uri_line(lines[n - 1]));
        }
    }
}

// ---------------------------------------------------------------------------------------------
// Plain playlists

/// A line whose tag makes a playlist HLS, or is refused.
pub open spec fn speaks_hls(line: Seq<char>) -> bool {
    let tag = tag_of(line.skip(1));
    &&& line.len() > 0 && line[0] == '#'
    &&& (tag == "EXT-X-STREAM-INF"@ || tag == "EXT-X-TARGETDURATION"@ || tag
        == "EXT-X-MEDIA-SEQUENCE"@ || tag == "EXT-X-MAP"@ || tag == "EXT-X-KEY"@ || tag
        == "EXT-X-BYTERANGE"@)
}

/// A list of stations that is no HLS (no variant, no target duration, nothing that is refused) is
/// told as such, whatever its entries say of their durations: none of its URLs is followed.
pub proof fn a_plain_list_is_not_hls(body: Seq<char>, base: Seq<char>)
    requires
        begins(lines_of(body)[0], "#EXTM3U"@),
        lines_of(body).len() <= u64::MAX,
        forall|i: int|
            0 < i < lines_of(body).len() ==> !speaks_hls(#[trigger] lines_of(body)[i]) && (
            is_uri_line(lines_of(body)[i]) ==> joined(base, lines_of(body)[i]) is Ok),
    ensures
        parsed(body, base) == Err::<PlaylistView, ErrorView>(ErrorView::NotHls),
{
    let rest = lines_of(body).skip(1);
    assert forall|i: int| 0 <= i < rest.len() implies !speaks_hls(#[trigger] rest[i]) && (
    is_uri_line(rest[i]) ==> joined(base, rest[i]) is Ok) by {
        assert(rest[i] == lines_of(body)[i + 1]);
    }
    plain_lines_bring_nothing(rest, rest.len(), base);
}

proof fn plain_lines_bring_nothing(lines: Seq<Seq<char>>, n: nat, base: Seq<char>)
    requires
        n <= lines.len() <= u64::MAX,
        forall|i: int|
            0 <= i < lines.len() ==> !speaks_hls(#[trigger] lines[i]) && (is_uri_line(lines[i])
                ==> joined(base, lines[i]) is Ok),
    ensures
        read_lines(lines, n, base) matches Ok(at) && at.variants.len() == 0 && at.pending_variant
            is None && at.target_duration is None && at.media_sequence == 0 && at.segments.len()
            <= n,
    decreases n,
{
    if n > 0 {
        plain_lines_bring_nothing(lines, (n - 1) as nat, base);
        let line = lines[n - 1];
        assert(!speaks_hls(line));
    }
}

// ---------------------------------------------------------------------------------------------
// The refresh planner

#[derive(Debug, Clone, Copy, PartialEq, Eq, Structural)]
pub enum EndCause {
    /// No new segment for [`STALL_TARGET_DURATIONS`] target durations.
    Stall,
    /// `EXT-X-MEDIA-SEQUENCE` went backwards: the server restarted its numbering.
    Restarted,
    /// `EXT-X-ENDLIST` and every listed segment emitted.
    EndList,
}

/// What the fetch loop does next. Every step is decided from the playlist and the clock the
/// caller passes in; the planner never sleeps or fetches.
#[derive(Debug, Clone, PartialEq, Eq)]
pub enum Step {
    /// Fetch these segments in order, and reload the playlist `then_wait` later. `skipped` is
    /// how many sequence numbers the window moved past before they could be fetched: an
    /// audible gap.
    Fetch { segments: Vec<Segment>, skipped: u64, then_wait: Duration },
    /// Nothing new (or the reload failed): reload again after this long.
    Wait(Duration),
    /// The stream is over for this cause; the loop closes the channel and the session's own
    /// backoff takes it from there.
    End(EndCause),
}

pub enum StepView {
    Fetch { segments: Seq<SegmentView>, skipped: u64, then_wait: Duration },
    Wait(Duration),
    End(EndCause),
}

impl View for Step {
    type V = StepView;

    open spec fn view(&self) -> StepView {
        match self {
            Step::Fetch { segments, skipped, then_wait } => StepView::Fetch {
                segments: segment_views(segments@),
                skipped: *skipped,
                then_wait: *then_wait,
            },
            Step::Wait(d) => StepView::Wait(*d),
            Step::End(c) => StepView::End(*c),
        }
    }
}

#[derive(Debug, Clone, Copy, PartialEq, Eq, Structural)]
pub struct Planner {
    pub target_duration: Duration,
    /// The next sequence number to emit. Everything below it has been emitted (or skipped).
    pub next_seq: u64,
    /// The `EXT-X-MEDIA-SEQUENCE` of the last playlist accepted, to tell a restart from the
    /// ordinary case of a window that still lists older segments.
    pub window_start: u64,
    /// When the window last brought a new segment.
    pub last_new_at: Instant,
}

/// `d`, but no less than the shortest wait and no more than the longest.
pub open spec fn clamped(d: Duration) -> Duration {
    if d.nanos < MIN_WAIT_SECS * NANOS_PER_SEC {
        secs(MIN_WAIT_SECS as nat)
    } else if d.nanos > MAX_WAIT_SECS * NANOS_PER_SEC {
        secs(MAX_WAIT_SECS as nat)
    } else {
        d
    }
}

/// How long a window may stand still.
pub open spec fn stall_limit(target_duration: Duration) -> Duration {
    Duration { nanos: (clamped(target_duration).nanos * STALL_TARGET_DURATIONS) as u128 }
}

/// Half of `d`.
pub open spec fn half_of(d: Duration) -> Duration {
    Duration { nanos: d.nanos / 2 }
}

/// The segments numbered `next_seq` or more.
pub open spec fn from_seq(segments: Seq<SegmentView>, next_seq: u64) -> Seq<SegmentView> {
    segments.filter(|s: SegmentView| s.seq >= next_seq)
}

/// The number after that of the last of `segments` fits in 64 bits.
pub open spec fn has_next(segments: Seq<SegmentView>) -> bool {
    segments.len() > 0 ==> segments.last().seq < u64::MAX
}

/// The planner can take the playlist of a reload: the window went back, which ends the stream, or
/// the number after that of the last new segment fits in 64 bits.
pub open spec fn can_take(p: Planner, media: MediaView) -> bool {
    media.media_sequence < p.window_start || has_next(from_seq(media.segments, p.next_seq))
}

/// The planner and first step on a freshly fetched playlist.
pub open spec fn started(media: MediaView, now: Instant) -> (Planner, StepView) {
    let n = media.segments.len();
    let segments = if n > START_BEHIND {
        media.segments.skip(n - START_BEHIND)
    } else {
        media.segments
    };
    (
        Planner {
            target_duration: media.target_duration,
            next_seq: if n > 0 {
                (media.segments.last().seq + 1) as u64
            } else {
                media.media_sequence
            },
            window_start: media.media_sequence,
            last_new_at: now,
        },
        StepView::Fetch {
            segments,
            skipped: 0,
            then_wait: clamped(
                if n > 0 {
                    media.segments.last().duration
                } else {
                    half_of(media.target_duration)
                },
            ),
        },
    )
}

/// What comes of a reload that brought nothing new.
pub open spec fn nothing_new(p: Planner, now: Instant) -> StepView {
    if elapsed(p.last_new_at, now).nanos >= stall_limit(p.target_duration).nanos {
        StepView::End(EndCause::Stall)
    } else {
        StepView::Wait(clamped(half_of(p.target_duration)))
    }
}

/// The planner and step after a reload: `None` when it failed.
pub open spec fn reloaded(p: Planner, reload: Option<MediaView>, now: Instant) -> (
    Planner,
    StepView,
) {
    match reload {
        None => (p, nothing_new(p, now)),
        Some(media) => if media.media_sequence < p.window_start {
            (p, StepView::End(EndCause::Restarted))
        } else {
            let moved = Planner { window_start: media.media_sequence, ..p };
            let segments = from_seq(media.segments, p.next_seq);
            if segments.len() > 0 {
                (
                    Planner {
                        last_new_at: now,
                        next_seq: (segments.last().seq + 1) as u64,
                        ..moved
                    },
                    StepView::Fetch {
                        segments,
                        skipped: if media.media_sequence > p.next_seq {
                            (media.media_sequence - p.next_seq) as u64
                        } else {
                            0
                        },
                        then_wait: clamped(segments.last().duration),
                    },
                )
            } else if media.end_list {
                (moved, StepView::End(EndCause::EndList))
            } else {
                (moved, nothing_new(p, now))
            }
        },
    }
}

pub open spec fn reload_view(r: Option<&MediaPlaylist>) -> Option<MediaView> {
    match r {
        Some(m) => Some(m@),
        None => None,
    }
}

pub fn clamp_wait(d: Duration) -> (r: Duration)
    ensures
        r == clamped(d),
{
    let min = Duration::from_secs(MIN_WAIT_SECS);
    let max = Duration::from_secs(MAX_WAIT_SECS);
    if d.nanos < min.nanos {
        min
    } else if d.nanos > max.nanos {
        max
    } else {
        d
    }
}

/// A target duration within the bounds of a wait: a playlist's own number is not believed
/// outside them.
pub fn bounded_target_duration(d: Duration) -> (r: Duration)
    ensures
        r == clamped(d),
{
    clamp_wait(d)
}

/// The stall bound for a target duration: [`STALL_TARGET_DURATIONS`] times the **clamped**
/// target duration, so a `TARGETDURATION:0` playlist gets 3 s rather than a bound of zero that
/// would declare a stall on its first reload, and an hour-long one 90 s. The fetch layer sizes
/// its idle timeout on it.
pub fn stall_bound(target_duration: Duration) -> (r: Duration)
    ensures
        r == stall_limit(target_duration),
        3 * NANOS_PER_SEC <= r.nanos <= 90 * NANOS_PER_SEC,
{
    clamp_wait(target_duration).times(STALL_TARGET_DURATIONS)
}

/// The segments of `all` numbered `next_seq` or more.
fn copy_from_seq(all: &Vec<Segment>, next_seq: u64) -> (out: Vec<Segment>)
    ensures
        segment_views(out@) == from_seq(segment_views(all@), next_seq),
{
    let ghost views = segment_views(all@);
    let ghost wanted = |s: SegmentView| s.seq >= next_seq;
    let mut out: Vec<Segment> = Vec::new();
    let mut i: usize = 0;
    proof {
        reveal(Seq::filter);
        assert(segment_views(out@) =~= views.take(0).filter(wanted));
    }
    while i < all.len()
        invariant
            i <= all.len(),
            views == segment_views(all@),
            wanted == (|s: SegmentView| s.seq >= next_seq),
            segment_views(out@) == views.take(i as int).filter(wanted),
        decreases all.len() - i,
    {
        proof {
            reveal(Seq::filter);
            assert(views[i as int] == all@[i as int]@);
            assert(views.take(i + 1).drop_last() == views.take(i as int));
            assert(views.take(i + 1).last() == all@[i as int]@);
        }
        let ghost before = out@;
        if all[i].seq >= next_seq {
            let s = all[i].clone();
            out.push(s);
            assert(segment_views(out@) =~= segment_views(before).push(s@));
        }
        i = i + 1;
    }
    assert(views.take(views.len() as int) == views);
    out
}

impl Planner {
    /// Starts on a freshly fetched media playlist: emits from [`START_BEHIND`] segments before
    /// the end (or the first, when the window is that short).
    pub fn start(media: &MediaPlaylist, now: Instant) -> (r: (Planner, Step))
        requires
            has_next(media@.segments),
        ensures
            (r.0, r.1@) == started(media@, now),
    {
        let n: usize = media.segments.len();
        let from: usize = if n > START_BEHIND {
            n - START_BEHIND
        } else {
            0
        };
        let ghost views = media@.segments;
        let mut segments: Vec<Segment> = Vec::new();
        let mut i: usize = from;
        assert(segment_views(segments@) =~= views.subrange(from as int, from as int));
        while i < n
            invariant
                from <= i <= n,
                n == media.segments.len(),
                views == media@.segments,
                segment_views(segments@) == views.subrange(from as int, i as int),
            decreases n - i,
        {
            let ghost before = segments@;
            let s = media.segments[i].clone();
            segments.push(s);
            i = i + 1;
            proof {
                assert(segment_views(segments@) =~= segment_views(before).push(s@));
                assert(views.subrange(from as int, i as int) =~= views.subrange(
                    from as int,
                    i - 1,
                ).push(views[i - 1]));
            }
        }
        assert(segment_views(segments@) =~= (if n > START_BEHIND {
            views.skip(n - START_BEHIND)
        } else {
            views
        }));
        assert(n > 0 ==> views.last() == media.segments@[n - 1]@);
        let planner = Planner {
            target_duration: media.target_duration,
            next_seq: if n > 0 {
                media.segments[n - 1].seq + 1
            } else {
                media.media_sequence
            },
            window_start: media.media_sequence,
            last_new_at: now,
        };
        let then_wait = clamp_wait(
            if n > 0 {
                media.segments[n - 1].duration
            } else {
                media.target_duration.half()
            },
        );
        (planner, Step::Fetch { segments, skipped: 0, then_wait })
    }

    fn nothing_new(&self, now: Instant) -> (step: Step)
        ensures
            step@ == nothing_new(*self, now),
    {
        if now.duration_since(self.last_new_at).nanos >= stall_bound(self.target_duration).nanos {
            Step::End(EndCause::Stall)
        } else {
            Step::Wait(clamp_wait(self.target_duration.half()))
        }
    }

    /// Whether a reload can be taken: whether the window went back, or the last new segment's
    /// number has a next.
    pub fn takes(&self, media: &MediaPlaylist) -> (r: bool)
        ensures
            r == can_take(*self, media@),
    {
        if media.media_sequence < self.window_start {
            return true;
        }
        let ghost views = media@.segments;
        let ghost wanted = |s: SegmentView| s.seq >= self.next_seq;
        let mut last: u64 = 0;
        let mut i: usize = 0;
        proof {
            reveal(Seq::filter);
            assert(views.take(0).filter(wanted) =~= Seq::<SegmentView>::empty());
        }
        while i < media.segments.len()
            invariant
                i <= media.segments.len(),
                views == segment_views(media.segments@),
                wanted == (|s: SegmentView| s.seq >= self.next_seq),
                ({
                    let new = views.take(i as int).filter(wanted);
                    last == (if new.len() > 0 {
                        new.last().seq
                    } else {
                        0
                    })
                }),
            decreases media.segments.len() - i,
        {
            proof {
                reveal(Seq::filter);
                assert(views[i as int] == media.segments@[i as int]@);
                assert(views.take(i + 1).drop_last() == views.take(i as int));
                assert(views.take(i + 1).last() == media.segments@[i as int]@);
            }
            if media.segments[i].seq >= self.next_seq {
                last = media.segments[i].seq;
            }
            i = i + 1;
        }
        assert(views.take(views.len() as int) == views);
        last < u64::MAX
    }

    /// The outcome of a playlist reload: `Some` when it was fetched and parsed, `None` when it
    /// failed (the loop retries at the next tick, until the stall bound).
    pub fn reload(&mut self, reload: Option<&MediaPlaylist>, now: Instant) -> (step: Step)
        requires
            reload matches Some(m) ==> can_take(*old(self), m@),
        ensures
            (*final(self), step@) == reloaded(*old(self), reload_view(reload), now),
    {
        let media = match reload {
            Some(m) => m,
            None => {
                return self.nothing_new(now);
            },
        };
        if media.media_sequence < self.window_start {
            return Step::End(EndCause::Restarted);
        }
        let step = self.nothing_new(now);
        self.window_start = media.media_sequence;
        // The identity is the sequence number: emit only what is past the last emitted one. A
        // live window still lists segments older than those already fetched (every reload
        // does), so "not yet seen" would replay them.
        let skipped: u64 = if media.media_sequence > self.next_seq {
            media.media_sequence - self.next_seq
        } else {
            0
        };
        let segments = copy_from_seq(&media.segments, self.next_seq);
        let n: usize = segments.len();
        assert(segment_views(segments@).len() == n);
        if n == 0 {
            return if media.end_list {
                Step::End(EndCause::EndList)
            } else {
                step
            };
        }
        assert(segment_views(segments@).last() == segments@[n - 1]@);
        self.last_new_at = now;
        self.next_seq = segments[n - 1].seq + 1;
        let then_wait = clamp_wait(segments[n - 1].duration);
        Step::Fetch { segments, skipped, then_wait }
    }

    pub fn next_seq(&self) -> (n: u64)
        ensures
            n == self.next_seq,
    {
        self.next_seq
    }
}

// ---------------------------------------------------------------------------------------------
// What the planner keeps

/// The wait that a step asks for.
pub open spec fn wait_of(step: StepView) -> Option<Duration> {
    match step {
        StepView::Fetch { then_wait, .. } => Some(then_wait),
        StepView::Wait(d) => Some(d),
        StepView::End(_) => None,
    }
}

/// A wait within the bounds.
pub open spec fn is_bounded(d: Duration) -> bool {
    MIN_WAIT_SECS * NANOS_PER_SEC <= d.nanos <= MAX_WAIT_SECS * NANOS_PER_SEC
}

/// Every wait is at least a second and at most thirty.
pub proof fn waits_are_bounded(
    media: MediaView,
    p: Planner,
    reload: Option<MediaView>,
    now: Instant,
)
    ensures
        wait_of(started(media, now).1) matches Some(d) && is_bounded(d),
        wait_of(reloaded(p, reload, now).1) matches Some(d) ==> is_bounded(d),
{
}

/// The segments that a step has fetched.
pub open spec fn fetched(step: StepView) -> Seq<SegmentView> {
    match step {
        StepView::Fetch { segments, .. } => segments,
        _ => Seq::empty(),
    }
}

/// The segments that a run of reloads has fetched, in order.
pub open spec fn fetched_by(p: Planner, reloads: Seq<(Option<MediaView>, Instant)>) -> Seq<
    SegmentView,
>
    decreases reloads.len(),
{
    if reloads.len() == 0 {
        Seq::empty()
    } else {
        let (next, step) = reloaded(p, reloads[0].0, reloads[0].1);
        fetched(step) + fetched_by(next, reloads.skip(1))
    }
}

/// Every segment is numbered above the one before it.
pub open spec fn increasing(s: Seq<SegmentView>) -> bool {
    forall|i: int, j: int| 0 <= i < j < s.len() ==> (#[trigger] s[i]).seq < (#[trigger] s[j]).seq
}

/// The segments are in order and the number after the last one fits in 64 bits.
pub open spec fn in_order(m: MediaView) -> bool {
    increasing(m.segments) && has_next(m.segments)
}

/// Segments that are numbered one by one are in order.
pub proof fn numbered_segments_are_in_order(m: MediaView)
    requires
        numbered(m.segments, m.media_sequence),
        m.media_sequence + m.segments.len() <= u64::MAX,
    ensures
        in_order(m),
{
    if m.segments.len() > 0 {
        assert(m.segments[m.segments.len() - 1].seq == m.media_sequence + m.segments.len() - 1);
    }
}

/// Whatever the reloads bring, no sequence number is fetched twice: the numbers fetched only go
/// up, from the first playlist through every reload.
pub proof fn each_segment_is_fetched_once(
    media: MediaView,
    now: Instant,
    reloads: Seq<(Option<MediaView>, Instant)>,
)
    requires
        in_order(media),
        forall|i: int|
            0 <= i < reloads.len() ==> ((#[trigger] reloads[i]).0 matches Some(m) ==> in_order(m)),
    ensures
        increasing(fetched(started(media, now).1) + fetched_by(started(media, now).0, reloads)),
{
    let (p, step) = started(media, now);
    reloads_only_go_up(p, reloads);
    let a = fetched(step);
    let b = fetched_by(p, reloads);
    assert forall|i: int, j: int| 0 <= i < j < (a + b).len() implies (#[trigger] (a + b)[i]).seq < (
    #[trigger] (a + b)[j]).seq by {
        if i < a.len() {
            let k = media.segments.len() - a.len() + i;
            assert(a[i] == media.segments[k]);
            assert(a[i].seq < p.next_seq) by {
                if k < media.segments.len() - 1 {
                    assert(media.segments[k].seq < media.segments[media.segments.len() - 1].seq);
                }
            }
            if j < a.len() {
                assert(a[j] == media.segments[media.segments.len() - a.len() + j]);
            } else {
                assert(b[j - a.len()].seq >= p.next_seq);
            }
        } else {
            assert(b[i - a.len()].seq < b[j - a.len()].seq);
        }
    }
}

/// What reloads fetch is numbered from the planner's next number up.
pub proof fn reloads_only_go_up(p: Planner, reloads: Seq<(Option<MediaView>, Instant)>)
    requires
        forall|i: int|
            0 <= i < reloads.len() ==> ((#[trigger] reloads[i]).0 matches Some(m) ==> in_order(m)),
    ensures
        increasing(fetched_by(p, reloads)),
        forall|i: int|
            0 <= i < fetched_by(p, reloads).len() ==> (#[trigger] fetched_by(p, reloads)[i]).seq
                >= p.next_seq,
    decreases reloads.len(),
{
    if reloads.len() > 0 {
        let (next, step) = reloaded(p, reloads[0].0, reloads[0].1);
        let rest = reloads.skip(1);
        assert forall|i: int| 0 <= i < rest.len() implies ((#[trigger] rest[i]).0 matches Some(m)
            ==> in_order(m)) by {
            assert(rest[i] == reloads[i + 1]);
        }
        reloads_only_go_up(next, rest);
        let a = fetched(step);
        let b = fetched_by(next, rest);
        if let Some(m) = reloads[0].0 {
            assert(in_order(m));
            from_seq_is_in_order(m.segments, p.next_seq);
        }
        assert forall|i: int, j: int| 0 <= i < j < (a + b).len() implies (#[trigger] (a + b)[i]).seq
            < (#[trigger] (a + b)[j]).seq by {
            if i < a.len() {
                assert(a[i].seq < next.next_seq) by {
                    if i < a.len() - 1 {
                        assert(a[i].seq < a[a.len() - 1].seq);
                    }
                }
                if j < a.len() {
                    assert(a[i].seq < a[j].seq);
                } else {
                    assert(b[j - a.len()].seq >= next.next_seq);
                }
            } else {
                assert(b[i - a.len()].seq < b[j - a.len()].seq);
            }
        }
        assert forall|i: int| 0 <= i < (a + b).len() implies (#[trigger] (a + b)[i]).seq
            >= p.next_seq by {
            if i < a.len() {
                assert(a[i].seq >= p.next_seq);
            } else {
                assert(b[i - a.len()].seq >= next.next_seq);
                if a.len() > 0 {
                    assert(a[a.len() - 1].seq >= p.next_seq);
                }
            }
        }
    }
}

/// Every segment numbered `next_seq` or more is kept, no other, and their order stays.
pub proof fn from_seq_is_in_order(s: Seq<SegmentView>, next_seq: u64)
    requires
        increasing(s),
    ensures
        increasing(from_seq(s, next_seq)),
        has_next(s) ==> has_next(from_seq(s, next_seq)),
        forall|i: int|
            0 <= i < from_seq(s, next_seq).len() ==> (#[trigger] from_seq(s, next_seq)[i]).seq
                >= next_seq && s.contains(from_seq(s, next_seq)[i]),
        forall|i: int|
            0 <= i < s.len() && (#[trigger] s[i]).seq >= next_seq ==> from_seq(
                s,
                next_seq,
            ).contains(s[i]),
    decreases s.len(),
{
    reveal(Seq::filter);
    let f = from_seq(s, next_seq);
    if s.len() > 0 {
        let d = s.drop_last();
        assert(increasing(d));
        assert(has_next(d)) by {
            if d.len() > 0 {
                assert(s[d.len() - 1].seq < s[d.len() as int].seq);
            }
        }
        from_seq_is_in_order(d, next_seq);
        let g = from_seq(d, next_seq);
        assert(f == if s.last().seq >= next_seq {
            g.push(s.last())
        } else {
            g
        });
        assert forall|i: int| 0 <= i < g.len() implies (#[trigger] g[i]).seq < s.last().seq
            && s.contains(g[i]) by {
            let k = choose|k: int| 0 <= k < d.len() && d[k] == g[i];
            assert(d.contains(g[i]));
            assert(s[k] == g[i]);
            assert(s[k].seq < s[s.len() - 1].seq);
        }
        assert(s.contains(s.last())) by {
            assert(s[s.len() - 1] == s.last());
        }
        assert forall|i: int| 0 <= i < s.len() && (#[trigger] s[i]).seq >= next_seq implies f.contains(
            s[i],
        ) by {
            if i < d.len() {
                assert(d[i] == s[i]);
                let k = choose|k: int| 0 <= k < g.len() && g[k] == d[i];
                assert(g.contains(d[i]));
                assert(f[k] == s[i]);
            } else {
                assert(f[g.len() as int] == s[i]);
            }
        }
    }
}

/// A window that brings nothing new is waited for until the stall bound, and ends the stream at
/// the first reload from there on.
pub proof fn a_window_that_stands_still_ends_the_stream(
    p: Planner,
    reload: Option<MediaView>,
    now: Instant,
)
    requires
        reload matches Some(m) ==> m.media_sequence >= p.window_start && !m.end_list && from_seq(
            m.segments,
            p.next_seq,
        ).len() == 0,
    ensures
        reloaded(p, reload, now).1 == StepView::End(EndCause::Stall) <==> elapsed(
            p.last_new_at,
            now,
        ).nanos >= stall_limit(p.target_duration).nanos,
        reloaded(p, reload, now).1 is End || reloaded(p, reload, now).1 is Wait,
        reloaded(p, reload, now).0.last_new_at == p.last_new_at,
        reloaded(p, reload, now).0.next_seq == p.next_seq,
{
}

/// A window that did not go back and lists any segment not yet fetched has all of those fetched,
/// and no other, in their order, whether or not the list ends there; the planner moves past the
/// last of them, and waits its duration, but at least a second and at most thirty.
pub proof fn whatever_is_new_is_fetched(p: Planner, media: MediaView, now: Instant, k: int)
    requires
        media.media_sequence >= p.window_start,
        0 <= k < media.segments.len(),
        media.segments[k].seq >= p.next_seq,
    ensures
        ({
            let (next, step) = reloaded(p, Some(media), now);
            &&& step is Fetch
            &&& step->segments == media.segments.filter(|s: SegmentView| s.seq >= p.next_seq)
            &&& step->segments.contains(media.segments[k])
            &&& forall|s: SegmentView| #[trigger]
                step->segments.contains(s) ==> media.segments.contains(s) && s.seq >= p.next_seq
            &&& next.next_seq == (step->segments.last().seq + 1) as u64
            &&& next.window_start == media.media_sequence
            &&& next.last_new_at == now
            &&& next.target_duration == p.target_duration
            &&& step->skipped == (if media.media_sequence > p.next_seq {
                media.media_sequence - p.next_seq
            } else {
                0
            })
            &&& step->then_wait.nanos == ({
                let d = step->segments.last().duration.nanos;
                if d < 1_000_000_000 {
                    1_000_000_000
                } else if d > 30_000_000_000 {
                    30_000_000_000
                } else {
                    d
                }
            })
        }),
{
    from_seq_keeps_the_new(media.segments, p.next_seq);
    let f = from_seq(media.segments, p.next_seq);
    assert(f.contains(media.segments[k]));
    assert(f =~= media.segments.filter(|s: SegmentView| s.seq >= p.next_seq));
}

proof fn from_seq_keeps_the_new(s: Seq<SegmentView>, next_seq: u64)
    ensures
        forall|i: int|
            0 <= i < s.len() && (#[trigger] s[i]).seq >= next_seq ==> from_seq(
                s,
                next_seq,
            ).contains(s[i]),
        forall|x: SegmentView| #[trigger]
            from_seq(s, next_seq).contains(x) ==> s.contains(x) && x.seq >= next_seq,
    decreases s.len(),
{
    reveal(Seq::filter);
    let f = from_seq(s, next_seq);
    if s.len() > 0 {
        let d = s.drop_last();
        let g = from_seq(d, next_seq);
        from_seq_keeps_the_new(d, next_seq);
        assert forall|i: int| 0 <= i < s.len() && (#[trigger] s[i]).seq >= next_seq implies f.contains(
            s[i],
        ) by {
            if i < d.len() {
                assert(d[i] == s[i]);
                let k = choose|k: int| 0 <= k < g.len() && g[k] == d[i];
                assert(f[k] == s[i]);
            } else {
                assert(f[g.len() as int] == s[i]);
            }
        }
        assert forall|x: SegmentView| #[trigger] f.contains(x) implies s.contains(x) && x.seq
            >= next_seq by {
            let k = choose|k: int| 0 <= k < f.len() && f[k] == x;
            if k < g.len() {
                assert(g[k] == x);
                assert(g.contains(x));
                let m = choose|m: int| 0 <= m < d.len() && d[m] == x;
                assert(s[m] == x);
            } else {
                assert(s[s.len() - 1] == x);
            }
        }
    }
}

/// What a reload ends the stream for, and when it only waits. The window went back: it was
/// restarted. Nothing listed is new: the broadcast is over where the list says that it ends, and
/// has stalled where nothing new has come for three target durations.
pub proof fn what_ends_a_stream(p: Planner, reload: Option<MediaView>, now: Instant)
    ensures
        ({
            let (next, step) = reloaded(p, reload, now);
            let new = reload is Some && exists|k: int|
                0 <= k < reload->0.segments.len() && (#[trigger] reload->0.segments[k]).seq
                    >= p.next_seq;
            let back = reload is Some && reload->0.media_sequence < p.window_start;
            let t = p.target_duration.nanos;
            let still = now.nanos >= p.last_new_at.nanos && now.nanos - p.last_new_at.nanos >= 3 * (
            if t < 1_000_000_000 {
                1_000_000_000
            } else if t > 30_000_000_000 {
                30_000_000_000
            } else {
                t as int
            });
            &&& step == StepView::End(EndCause::Restarted) <==> back
            &&& step == StepView::End(EndCause::EndList) <==> !back && !new && reload is Some
                && reload->0.end_list
            &&& step == StepView::End(EndCause::Stall) <==> !back && !new && !(reload is Some
                && reload->0.end_list) && still
            &&& step is Fetch <==> !back && new
            &&& step is Wait ==> step->Wait_0.nanos == (if t / 2 < 1_000_000_000 {
                1_000_000_000
            } else if t / 2 > 30_000_000_000 {
                30_000_000_000
            } else {
                t as int / 2
            })
            &&& !(step is Fetch) ==> next.next_seq == p.next_seq && next.last_new_at
                == p.last_new_at
        }),
{
    if let Some(m) = reload {
        from_seq_keeps_the_new(m.segments, p.next_seq);
        let f = from_seq(m.segments, p.next_seq);
        if f.len() > 0 {
            assert(f.contains(f[0]));
            assert(m.segments.contains(f[0]));
            let k = choose|k: int| 0 <= k < m.segments.len() && m.segments[k] == f[0];
            assert(m.segments[k].seq >= p.next_seq);
        }
        if exists|k: int| 0 <= k < m.segments.len() && (#[trigger] m.segments[k]).seq >= p.next_seq {
            let k = choose|k: int|
                0 <= k < m.segments.len() && (#[trigger] m.segments[k]).seq >= p.next_seq;
            assert(m.segments.contains(m.segments[k]));
            assert(f.contains(m.segments[k]));
        }
    }
}

/// Of a window that numbers its segments one by one, a reload takes the rest from the number that
/// is next: no segment of the window is left out and none is taken again.
pub proof fn a_reload_goes_on_where_the_last_ended(p: Planner, media: MediaView, now: Instant)
    requires
        media.media_sequence >= p.window_start,
        forall|i: int|
            0 <= i < media.segments.len() ==> (#[trigger] media.segments[i]).seq
                == media.media_sequence + i,
        media.media_sequence + media.segments.len() > p.next_seq,
        media.media_sequence + media.segments.len() <= u64::MAX,
        media.segments.len() > 0,
    ensures
        ({
            let (next, step) = reloaded(p, Some(media), now);
            let from = if p.next_seq > media.media_sequence {
                p.next_seq - media.media_sequence
            } else {
                0
            };
            &&& step is Fetch
            &&& step->segments == media.segments.skip(from)
            &&& step->segments[0].seq == p.next_seq + step->skipped
            &&& next.next_seq == media.media_sequence + media.segments.len()
        }),
{
    let from = if p.next_seq > media.media_sequence {
        p.next_seq - media.media_sequence
    } else {
        0
    };
    kept_from(media.segments, p.next_seq, from);
    let n = media.segments.len() as int;
    let f = from_seq(media.segments, p.next_seq);
    assert(f.last() == media.segments[n - 1]);
    assert(f[0] == media.segments[from]);
}

proof fn kept_from(s: Seq<SegmentView>, next_seq: u64, from: int)
    requires
        0 <= from <= s.len(),
        forall|i: int| 0 <= i < from ==> (#[trigger] s[i]).seq < next_seq,
        forall|i: int| from <= i < s.len() ==> (#[trigger] s[i]).seq >= next_seq,
    ensures
        from_seq(s, next_seq) == s.skip(from),
    decreases s.len(),
{
    reveal(Seq::filter);
    if s.len() > 0 {
        let d = s.drop_last();
        if from == s.len() {
            kept_from(d, next_seq, from - 1);
            assert(from_seq(s, next_seq) =~= s.skip(from));
        } else {
            kept_from(d, next_seq, from);
            assert(from_seq(s, next_seq) =~= s.skip(from));
        }
    } else {
        assert(from_seq(s, next_seq) =~= s.skip(from));
    }
}

/// A stream starts three segments before the end of the window, or with the first where there are
/// no more; the planner goes on behind the last, and waits the last one's duration.
pub proof fn a_stream_starts_three_behind(media: MediaView, now: Instant)
    requires
        media.segments.len() > 0,
        media.segments.last().seq < u64::MAX,
    ensures
        ({
            let (p, step) = started(media, now);
            let n = media.segments.len() as int;
            &&& step is Fetch
            &&& step->segments.len() == (if n < 3 {
                n
            } else {
                3
            })
            &&& forall|i: int|
                0 <= i < step->segments.len() ==> #[trigger] step->segments[i]
                    == media.segments[n - step->segments.len() + i]
            &&& step->skipped == 0
            &&& p.next_seq == media.segments[n - 1].seq + 1
            &&& p.window_start == media.media_sequence
            &&& p.last_new_at == now
            &&& p.target_duration == media.target_duration
            &&& step->then_wait.nanos == ({
                let d = media.segments[n - 1].duration.nanos;
                if d < 1_000_000_000 {
                    1_000_000_000
                } else if d > 30_000_000_000 {
                    30_000_000_000
                } else {
                    d
                }
            })
        }),
{
}

} // verus!
