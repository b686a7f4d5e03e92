//! The requests that decide whether an HLS station can play at all: the playlist, the variant
//! it names, and the first segment. The caller performs each request and hands back what came of
//! it; what is asked for next, and whether the station opens, is decided here.

use vstd::prelude::*;

use super::fetch::{after_tags, FetchedPlaylist, SegmentFetch};
use super::playlist;
use super::playlist::{
    bounded_target_duration, chosen, clamped, error_text, has_next, is_bounded, parsed,
    seen_codecs, segment_views, started, variant_kind, ErrorView, Kind as VariantKind,
    MediaPlaylist, MediaView, Planner, Playlist, PlaylistView, Segment, Step, StepView,
};
use super::segment;
use super::segment::{cleaned, format_of, frames_of, Container, FormatGuard};
use super::{
    container_text, kind_read, logged_kind, network, network_error, playlist_refused,
    refused_container, retry_limit, retry_timeout_for, unsupported, unsupported_error, Kind,
};
use crate::stream::{StreamError, StreamErrorView};
use crate::text;
use crate::text::digits;
use crate::time::{Duration, Instant};
use crate::types::text_view;

verus! {

/// Which playlist a request was for.
#[derive(Debug, Clone, Copy, PartialEq, Eq, Structural)]
pub enum Stage {
    /// The station's own.
    First,
    /// The variant that was chosen from the station's master, with its bandwidth in kbit/s.
    Variant { bitrate_kbps: Option<u32> },
}

/// What to ask for next.
#[derive(Debug, Clone)]
pub enum Asked {
    /// The playlist of the chosen variant.
    Variant { uri: String, bitrate_kbps: Option<u32> },
    /// The segments to start with, in turn.
    Segments(Start),
}

/// A media playlist that may be played from.
#[derive(Debug, Clone)]
pub struct Start {
    pub media_url: String,
    /// As the playlist gives it.
    pub target_duration: Duration,
    pub planner: Planner,
    /// The segments to start with that were not tried yet, in order.
    pub pending: Vec<Segment>,
    pub then_wait: Duration,
    pub bitrate_kbps: Option<u32>,
}

/// A station that is open: the task to run, and what its reader is told.
#[derive(Debug, Clone)]
pub struct Opened {
    pub media_url: String,
    /// Within the bounds of a wait: the retry window is compared against it.
    pub target_duration: Duration,
    pub planner: Planner,
    pub guard: FormatGuard,
    /// The start segments after the first one that was there.
    pub pending: Vec<Segment>,
    pub then_wait: Duration,
    /// The first segment, normalised.
    pub first_payload: Vec<u8>,
    pub content_type: String,
    pub bitrate_kbps: Option<u32>,
    /// The idle timeout of the reader.
    pub retry_timeout: Duration,
}

/// What came of trying a start segment.
#[derive(Debug, Clone)]
pub enum Tried {
    /// It is gone: try the next one.
    Again(Start),
    Opened(Opened),
    Failed(StreamError),
}

/// A bandwidth in kbit/s: capped, not truncated, on its way into 32 bits.
pub open spec fn kbps(bandwidth: Option<u64>) -> Option<u32> {
    match bandwidth {
        Some(b) => if b / 1000 <= u32::MAX {
            Some((b / 1000) as u32)
        } else {
            Some(u32::MAX)
        },
        None => None,
    }
}

fn to_kbps(bandwidth: Option<u64>) -> (r: Option<u32>)
    ensures
        r == kbps(bandwidth),
{
    match bandwidth {
        Some(b) => if b / 1000 <= u32::MAX as u64 {
            Some((b / 1000) as u32)
        } else {
            Some(u32::MAX)
        },
        None => None,
    }
}

/// Parses a fetched body as a playlist. With it comes the kind to log the request with, where
/// `expected` is what was asked for.
pub fn parse_fetched(fetched: &FetchedPlaylist, expected: Kind) -> (r: (
    Kind,
    Result<Playlist, StreamError>,
))
    ensures
        r.0 == kind_read(expected, parsed(fetched.text@, fetched.url@)),
        match parsed(fetched.text@, fetched.url@) {
            Ok(p) => r.1 matches Ok(q) && q@ == p,
            Err(e) => r.1 matches Err(s) && s@ == unsupported_error(error_text(e)),
        },
{
    match playlist::parse(fetched.text.as_str(), fetched.url.as_str()) {
        Ok(p) => (logged_kind(expected, Some(&p)), Ok(p)),
        Err(e) => (logged_kind(expected, None), Err(playlist_refused(e))),
    }
}

/// The kind of a playlist that is asked for.
pub open spec fn asked_kind(stage: Stage) -> Kind {
    match stage {
        Stage::First => Kind::Master,
        Stage::Variant { .. } => Kind::Media,
    }
}

/// The error for a playlist that lists nothing, or that numbers past 64 bits; nothing for one
/// that may be played from.
pub open spec fn start_error(media: MediaView, url: Seq<char>) -> Option<StreamErrorView> {
    if media.segments.len() == 0 {
        Some(network_error("HLS media playlist "@ + url + " lists no segment"@))
    } else if !has_next(media.segments) {
        Some(
            unsupported_error(
                error_text(
                    ErrorView::Malformed(
                        "EXT-X-MEDIA-SEQUENCE:"@ + digits(media.media_sequence as nat),
                    ),
                ),
            ),
        )
    } else {
        None
    }
}

/// `s` is how `media` is played from.
pub open spec fn is_start(
    s: Start,
    media: MediaView,
    url: Seq<char>,
    bitrate_kbps: Option<u32>,
    now: Instant,
) -> bool {
    let (planner, step) = started(media, now);
    &&& s.media_url@ == url
    &&& s.target_duration == media.target_duration
    &&& s.planner == planner
    &&& step == StepView::Fetch {
        segments: segment_views(s.pending@),
        skipped: 0,
        then_wait: s.then_wait,
    }
    &&& s.bitrate_kbps == bitrate_kbps
    &&& s.wf()
}

/// `r` is what comes of the playlist `p`, fetched from `url` at the stage `stage`.
pub open spec fn is_next(
    stage: Stage,
    p: PlaylistView,
    url: Seq<char>,
    now: Instant,
    r: Result<Asked, StreamError>,
) -> bool {
    match (p, stage) {
        (PlaylistView::Media(m), _) => match start_error(m, url) {
            Some(e) => r matches Err(s) && s@ == e,
            None => r matches Ok(Asked::Segments(s)) && is_start(
                s,
                m,
                url,
                match stage {
                    Stage::First => None,
                    Stage::Variant { bitrate_kbps } => bitrate_kbps,
                },
                now,
            ),
        },
        (PlaylistView::Master(_), Stage::Variant { .. }) => r matches Err(e) && e@
            == unsupported_error("HLS variant is another master playlist"@),
        (PlaylistView::Master(vs), Stage::First) => match r {
            Ok(Asked::Variant { uri, bitrate_kbps }) => exists|i: int|
                #[trigger] chosen(vs, i) && uri@ == vs[i].uri && bitrate_kbps == kbps(
                    vs[i].bandwidth,
                ),
            Ok(Asked::Segments(_)) => false,
            Err(e) => {
                &&& forall|i: int|
                    0 <= i < vs.len() ==> variant_kind(#[trigger] vs[i]) == VariantKind::VideoOnly
                &&& e@ == unsupported_error(
                    "HLS stream has no audio variant (video only: "@ + seen_codecs(vs) + ")"@,
                )
            },
        },
    }
}

/// Decides what a playlist that was fetched and parsed leads to: a master to the variant that is
/// played, a media playlist to its start segments.
pub fn open_playlist(stage: Stage, p: Playlist, url: String, now: Instant) -> (r: Result<
    Asked,
    StreamError,
>)
    ensures
        is_next(stage, p@, url@, now, r),
{
    match p {
        Playlist::Media(media) => {
            let bitrate_kbps = match stage {
                Stage::First => None,
                Stage::Variant { bitrate_kbps } => bitrate_kbps,
            };
            match Start::new(&media, url, bitrate_kbps, now) {
                Ok(s) => Ok(Asked::Segments(s)),
                Err(e) => Err(e),
            }
        },
        Playlist::Master(master) => match stage {
            Stage::Variant { .. } => Err(
                unsupported("HLS variant is another master playlist".to_owned()),
            ),
            Stage::First => match playlist::choose_variant(&master) {
                Ok(v) => {
                    let ghost i = choose|i: int|
                        #[trigger] chosen(master@, i) && *v == master.variants@[i];
                    assert(master@[i] == v@);
                    Ok(Asked::Variant { uri: v.uri.clone(), bitrate_kbps: to_kbps(v.bandwidth) })
                },
                Err(e) => Err(unsupported(e.message())),
            },
        },
    }
}

/// What a playlist request leads to: the error it ended in, or what is asked for next. With it
/// comes the kind to log the request with.
pub fn after_playlist(
    stage: Stage,
    fetched: Result<FetchedPlaylist, StreamError>,
    now: Instant,
) -> (r: (Kind, Result<Asked, StreamError>))
    ensures
        match fetched {
            Err(e) => r == (asked_kind(stage), Err::<Asked, StreamError>(e)),
            Ok(f) => {
                &&& r.0 == kind_read(asked_kind(stage), parsed(f.text@, f.url@))
                &&& match parsed(f.text@, f.url@) {
                    Err(e) => r.1 matches Err(s) && s@ == unsupported_error(error_text(e)),
                    Ok(p) => is_next(stage, p, f.url@, now, r.1),
                }
            },
        },
{
    let expected = match stage {
        Stage::First => Kind::Master,
        Stage::Variant { .. } => Kind::Media,
    };
    match fetched {
        Err(e) => (expected, Err(e)),
        Ok(f) => match parse_fetched(&f, expected) {
            (kind, Err(e)) => (kind, Err(e)),
            (kind, Ok(p)) => (kind, open_playlist(stage, p, f.url, now)),
        },
    }
}

/// The error for start segments that are all gone.
pub open spec fn all_gone(status: u16, seq: u64) -> StreamErrorView {
    network_error(
        "HLS start segments are gone ("@ + digits(status as nat) + " at seq "@ + digits(seq as nat)
            + "); the window moved on"@,
    )
}

/// The frames of a segment, after its tags.
pub open spec fn segment_frames(bytes: Seq<u8>) -> Seq<Seq<u8>> {
    frames_of(after_tags(bytes))
}

/// `o` is the station that `s` opens when its first pending segment holds `bytes`.
pub open spec fn is_opened(
    o: Opened,
    s: Start,
    bytes: Seq<u8>,
    content_type: Option<Seq<char>>,
) -> bool {
    let frames = segment_frames(bytes);
    &&& frames.len() > 0
    &&& o.media_url == s.media_url
    &&& o.target_duration == clamped(s.target_duration)
    &&& o.planner == s.planner
    &&& o.guard.first == Some(format_of(frames[0]))
    &&& o.pending@ == s.pending@.skip(1)
    &&& o.then_wait == s.then_wait
    &&& o.first_payload@ == cleaned(frames)
    &&& o.content_type@ == (match content_type {
        Some(t) => t,
        None => "audio/aac"@,
    })
    &&& o.bitrate_kbps == s.bitrate_kbps
    &&& o.retry_timeout == retry_limit(s.target_duration)
}

impl Opened {
    /// The wait before the first reload is within its bounds.
    pub open spec fn wf(&self) -> bool {
        is_bounded(self.then_wait)
    }
}

impl Start {
    /// There is a segment to try, and the wait after the last is within its bounds.
    pub open spec fn wf(&self) -> bool {
        self.pending@.len() > 0 && is_bounded(self.then_wait)
    }

    /// Starts on a media playlist: the planner, and the segments to start with.
    pub fn new(
        media: &MediaPlaylist,
        media_url: String,
        bitrate_kbps: Option<u32>,
        now: Instant,
    ) -> (r: Result<Start, StreamError>)
        ensures
            match start_error(media@, media_url@) {
                Some(e) => r matches Err(s) && s@ == e,
                None => r matches Ok(s) && is_start(s, media@, media_url@, bitrate_kbps, now),
            },
    {
        let n: usize = media.segments.len();
        assert(media@.segments.len() == n);
        if n == 0 {
            return Err(
                network(
                    "HLS media playlist ".to_owned().concat(media_url.as_str()).concat(
                        " lists no segment",
                    ),
                ),
            );
        }
        assert(media@.segments.last() == media.segments@[n - 1]@);
        if media.segments[n - 1].seq == u64::MAX {
            let mut m = text::chars_of("EXT-X-MEDIA-SEQUENCE:");
            text::push_digits(&mut m, media.media_sequence);
            return Err(
                playlist_refused(playlist::PlaylistError::Malformed(text::string_of(&m))),
            );
        }
        let (planner, step) = Planner::start(media, now);
        match step {
            Step::Fetch { segments, skipped: _, then_wait } => {
                assert(segment_views(segments@).len() == segments@.len());
                Ok(
                    Start {
                        media_url,
                        target_duration: media.target_duration,
                        planner,
                        pending: segments,
                        then_wait,
                        bitrate_kbps,
                    },
                )
            },
            _ => {
                assert(false);
                Err(network(String::new()))
            },
        }
    }

    /// The segment to try: sniffed first, within the timeout of the target duration.
    pub fn candidate(&self) -> (s: &Segment)
        requires
            self.wf(),
        ensures
            *s == self.pending@[0],
    {
        &self.pending[0]
    }

    /// The outcome of trying the first pending segment. It decides the container and the
    /// session's format. A 404/410 on it is an eviction (the window moved on between the
    /// playlist and the request), so the next pending segment is tried; only when every start
    /// segment is gone does the open fail, and as a retriable error: the session's backoff
    /// reopens on a fresher window.
    pub fn tried(self, fetched: Result<SegmentFetch, StreamError>) -> (t: Tried)
        requires
            self.wf(),
            fetched matches Ok(SegmentFetch::Refused(c)) ==> c != Container::Adts,
        ensures
            match fetched {
                Err(e) => t == Tried::Failed(e),
                Ok(SegmentFetch::Refused(c)) => t matches Tried::Failed(e) && e@
                    == unsupported_error(container_text(c)),
                Ok(SegmentFetch::Evicted(status)) => if self.pending@.len() == 1 {
                    t matches Tried::Failed(e) && e@ == all_gone(status, self.pending@[0].seq)
                } else {
                    &&& t matches Tried::Again(s)
                    &&& s.pending@ == self.pending@.skip(1)
                    &&& s.wf()
                    &&& s == (Start { pending: s.pending, ..self })
                },
                Ok(SegmentFetch::Body { bytes, content_type }) => if segment_frames(
                    bytes@,
                ).len() == 0 {
                    t matches Tried::Failed(e) && e@ == unsupported_error(
                        "HLS segment format not recognised"@,
                    )
                } else {
                    &&& t matches Tried::Opened(o)
                    &&& is_opened(o, self, bytes@, text_view(content_type))
                    &&& o.wf()
                },
            },
    {
        let Start { media_url, target_duration, planner, mut pending, then_wait, bitrate_kbps } =
            self;
        match fetched {
            Err(e) => Tried::Failed(e),
            Ok(SegmentFetch::Refused(c)) => Tried::Failed(refused_container(c)),
            Ok(SegmentFetch::Evicted(status)) => {
                let ghost before = pending@;
                let gone = pending.remove(0);
                assert(pending@ =~= before.skip(1));
                if pending.len() == 0 {
                    let mut m = text::chars_of("HLS start segments are gone (");
                    text::push_digits(&mut m, status as u64);
                    text::push_str(&mut m, " at seq ");
                    text::push_digits(&mut m, gone.seq);
                    text::push_str(&mut m, "); the window moved on");
                    Tried::Failed(network(text::string_of(&m)))
                } else {
                    Tried::Again(
                        Start {
                            media_url,
                            target_duration,
                            planner,
                            pending,
                            then_wait,
                            bitrate_kbps,
                        },
                    )
                }
            },
            Ok(SegmentFetch::Body { bytes, content_type }) => {
                let normalised = segment::normalise(&bytes);
                let format = match normalised.format {
                    Some(f) => f,
                    None => {
                        return Tried::Failed(
                            unsupported("HLS segment format not recognised".to_owned()),
                        );
                    },
                };
                let ghost before = pending@;
                let _ = pending.remove(0);
                assert(pending@ =~= before.skip(1));
                let mut guard = FormatGuard::default();
                let _ = guard.check(format);
                Tried::Opened(
                    Opened {
                        media_url,
                        target_duration: bounded_target_duration(target_duration),
                        planner,
                        guard,
                        pending,
                        then_wait,
                        first_payload: normalised.bytes,
                        content_type: match content_type {
                            Some(t) => t,
                            None => "audio/aac".to_owned(),
                        },
                        bitrate_kbps,
                        retry_timeout: retry_timeout_for(target_duration),
                    },
                )
            },
        }
    }
}

// ---------------------------------------------------------------------------------------------
// What opens, and what does not

/// A bandwidth is told in whole kilobits, rounded down, and as the greatest number where it does
/// not fit.
pub proof fn a_bandwidth_is_told_in_kilobits(b: u64)
    ensures
        kbps(None) is None,
        kbps(Some(b)) is Some,
        b < 4_294_967_296_000 ==> kbps(Some(b))->0 * 1000 <= b < kbps(Some(b))->0 * 1000 + 1000,
        b >= 4_294_967_296_000 ==> kbps(Some(b)) == Some(u32::MAX),
{
}

/// A playlist without a segment may have one the next time; one whose last number has no next never
/// opens; any other is played from.
pub proof fn what_is_played_from(media: MediaView, url: Seq<char>)
    ensures
        start_error(media, url) is None <==> media.segments.len() > 0
            && media.segments.last().seq < u64::MAX,
        media.segments.len() == 0 ==> !start_error(media, url)->0.terminal,
        media.segments.len() > 0 && media.segments.last().seq == u64::MAX ==> start_error(
            media,
            url,
        )->0.terminal,
{
}

/// A station that was given as a media playlist, or chosen as a variant, starts with the last three
/// segments of its window, or with all where there are fewer, in their order; the bitrate told is
/// that of the variant.
pub proof fn a_media_playlist_leads_to_its_last_segments(
    stage: Stage,
    media: MediaView,
    url: Seq<char>,
    now: Instant,
    r: Result<Asked, StreamError>,
)
    requires
        is_next(stage, PlaylistView::Media(media), url, now, r),
        media.segments.len() > 0,
        media.segments.last().seq < u64::MAX,
    ensures
        r matches Ok(Asked::Segments(s)) && {
            let n = media.segments.len() as int;
            let k = s.pending@.len() as int;
            &&& k == (if n < 3 {
                n
            } else {
                3
            })
            &&& forall|i: int|
                0 <= i < k ==> (#[trigger] s.pending@[i])@ == media.segments[n - k + i]
            &&& s.planner.next_seq == media.segments[n - 1].seq + 1
            &&& s.media_url@ == url
            &&& s.target_duration == media.target_duration
            &&& stage == Stage::First ==> s.bitrate_kbps is None
            &&& stage matches Stage::Variant { bitrate_kbps } ==> s.bitrate_kbps == bitrate_kbps
        },
{
    playlist::a_stream_starts_three_behind(media, now);
    if let Ok(Asked::Segments(s)) = r {
        let views = segment_views(s.pending@);
        let n = media.segments.len() as int;
        assert(views.len() == s.pending@.len());
        assert forall|i: int| 0 <= i < s.pending@.len() implies (#[trigger] s.pending@[i])@
            == media.segments[n - s.pending@.len() + i] by {
            assert(views[i] == s.pending@[i]@);
        }
    }
}

/// A master leads to one of its own variants wherever any may carry audio, with that variant's
/// address and bandwidth; and to a refusal where none does, and where it stands in for a variant.
pub proof fn a_master_leads_to_a_variant(
    vs: Seq<super::playlist::VariantView>,
    url: Seq<char>,
    now: Instant,
    r: Result<Asked, StreamError>,
)
    requires
        is_next(Stage::First, PlaylistView::Master(vs), url, now, r),
    ensures
        (exists|i: int| 0 <= i < vs.len() && variant_kind(#[trigger] vs[i]) != VariantKind::VideoOnly)
            <==> r is Ok,
        r is Ok ==> r->Ok_0 is Variant && exists|i: int|
            0 <= i < vs.len() && r->Ok_0->Variant_uri@ == (#[trigger] vs[i]).uri && variant_kind(
                vs[i],
            ) != VariantKind::VideoOnly,
        r is Err ==> r->Err_0@.terminal,
{
    if let Ok(Asked::Variant { uri, bitrate_kbps }) = r {
        let i = choose|i: int|
            #[trigger] chosen(vs, i) && uri@ == vs[i].uri && bitrate_kbps == kbps(vs[i].bandwidth);
        assert(variant_kind(vs[i]) != VariantKind::VideoOnly);
        assert(uri@ == vs[i].uri);
    }
}

/// A station opens with the frames of its first segment, cleaned, in the format of the first of
/// them, and goes on with the segments behind it.
pub proof fn a_station_opens_with_its_first_segment(
    o: Opened,
    s: Start,
    bytes: Seq<u8>,
    content_type: Option<Seq<char>>,
)
    requires
        s.pending@.len() > 0,
        is_opened(o, s, bytes, content_type),
    ensures
        o.first_payload@ == cleaned(frames_of(bytes.skip(segment::tags_len(bytes) as int))),
        o.guard.first == Some(format_of(frames_of(bytes.skip(segment::tags_len(bytes) as int))[0])),
        o.pending@.len() == s.pending@.len() - 1,
        forall|i: int| 0 <= i < o.pending@.len() ==> #[trigger] o.pending@[i] == s.pending@[i + 1],
        o.planner == s.planner && o.then_wait == s.then_wait && o.media_url == s.media_url
            && o.bitrate_kbps == s.bitrate_kbps,
        content_type is Some ==> o.content_type@ == content_type->0,
        content_type is None ==> o.content_type@ == "audio/aac"@,
        o.target_duration.nanos == super::believed(s.target_duration),
        o.retry_timeout.nanos == 3 * super::believed(s.target_duration) + super::segment_limit(
            s.target_duration,
        ).nanos + 5_000_000_000,
{
}

/// Start segments that are all gone are an error of the network, tried again on a fresher window.
pub proof fn start_segments_that_are_gone_are_tried_again(status: u16, seq: u64)
    ensures
        !all_gone(status, seq).terminal,
        all_gone(status, seq).code == crate::types::ErrorCode::Network,
        text::holds(all_gone(status, seq).message, digits(seq as nat)),
{
    let m = all_gone(status, seq).message;
    let head = "HLS start segments are gone ("@ + digits(status as nat) + " at seq "@;
    let d = digits(seq as nat);
    let n = head.len() as int;
    assert(m.subrange(n, n + d.len()) =~= d);
    assert(text::stands_at(m, d, n));
}

/// A request is logged as what it brought, and as what was asked for where that was no playlist.
pub proof fn a_request_is_logged_as_what_it_brought(
    stage: Stage,
    p: Result<PlaylistView, ErrorView>,
)
    ensures
        p matches Ok(PlaylistView::Master(_)) ==> kind_read(asked_kind(stage), p) == Kind::Master,
        p matches Ok(PlaylistView::Media(_)) ==> kind_read(asked_kind(stage), p) == Kind::Media,
        p is Err && stage == Stage::First ==> kind_read(asked_kind(stage), p) == Kind::Master,
        p is Err && stage != Stage::First ==> kind_read(asked_kind(stage), p) == Kind::Media,
{
}

} // verus!
