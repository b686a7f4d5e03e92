//! Playlists as a server writes them: what is written is what is read.

use vstd::prelude::*;

use super::playlist::{
    attribute, codec_list, encrypts, error_is_final, lines_of, nothing_read,
    pairs, parsed, read_line, read_lines, read_tag, same_lines_read_alike, stream_inf,
    tag_of, value_and_rest, value_of, ErrorView, MediaView, PlaylistView, Scan, SegmentView,
    VariantView,
};
use crate::outside::{joined, written_seconds};
use crate::text;
use crate::text::{begins, digits, first_at, pieces, put_together, trimmed, white};
use crate::time::Duration;

verus! {

// ---------------------------------------------------------------------------------------------
// Lines

/// A line that stands by itself: it holds no line feed and is not surrounded by white space.
pub open spec fn is_line(l: Seq<char>) -> bool {
    &&& l.len() > 0 ==> !white(l[0]) && !white(l.last())
    &&& forall|i: int| 0 <= i < l.len() ==> #[trigger] l[i] != '\n'
}

/// What is written line by line is read line by line.
pub proof fn lines_are_read_as_written(lines: Seq<Seq<char>>)
    requires
        lines.len() > 0,
        forall|i: int| 0 <= i < lines.len() ==> is_line(#[trigger] lines[i]),
    ensures
        lines_of(put_together(lines, '\n')) == lines,
{
    assert forall|i: int, k: int|
        0 <= i < lines.len() && 0 <= k < lines[i].len() implies #[trigger] lines[i][k] != '\n' by {
        assert(is_line(lines[i]));
    }
    text::together_splits_again(lines, '\n');
    let none = Seq::<char>::empty();
    assert forall|i: int| 0 <= i < lines.len() implies trimmed(#[trigger] lines[i]) == lines[i] by {
        assert(is_line(lines[i]));
        text::trimming_takes_the_white_off(none, lines[i], none);
        assert(none + lines[i] + none =~= lines[i]);
    }
    assert(lines_of(put_together(lines, '\n')) =~= lines);
}

/// A tag with its value, as a line.
pub open spec fn tag_line(name: Seq<char>, value: Seq<char>) -> Seq<char> {
    seq!['#'] + name + seq![':'] + value
}

/// A tag without a value, as a line.
pub open spec fn bare_tag(name: Seq<char>) -> Seq<char> {
    seq!['#'] + name
}

/// A line that writes a tag is read as that tag, with the value behind its first colon.
pub proof fn a_tag_is_read_by_its_name(
    at: Scan,
    name: Seq<char>,
    value: Seq<char>,
    base: Seq<char>,
)
    requires
        begins(name, "EXT"@),
        forall|i: int| 0 <= i < name.len() ==> #[trigger] name[i] != ':',
    ensures
        read_line(at, tag_line(name, value), base) == read_tag(at, name, value),
        read_line(at, bare_tag(name), base) == read_tag(at, name, Seq::empty()),
{
    reveal_strlit("EXT");
    let n = name.len() as int;
    let line = tag_line(name, value);
    let rest = line.skip(1);
    assert(rest =~= name + seq![':'] + value);
    assert forall|i: int| 0 <= i < n implies rest[i] != ':' by {
        assert(rest[i] == name[i]);
    }
    assert(rest[n] == ':');
    text::first_at_unique(rest, ':', n);
    assert(tag_of(rest) =~= name);
    assert(value_of(rest) =~= value);
    assert(rest.take(3) =~= name.take(3));
    let bare = bare_tag(name).skip(1);
    assert(bare =~= name);
    text::first_at_unique(bare, ':', n);
    assert(tag_of(bare) =~= name);
}

/// The tags that say something begin with `EXT`, hold no colon, and no two are the same.
proof fn the_tags_are_told_apart()
    ensures
        forall|i: int| 0 <= i < "EXT-X-STREAM-INF"@.len() ==> #[trigger] "EXT-X-STREAM-INF"@[i]
            != ':',
        forall|i: int| 0 <= i < "EXT-X-TARGETDURATION"@.len() ==> #[trigger]
            "EXT-X-TARGETDURATION"@[i] != ':',
        forall|i: int| 0 <= i < "EXT-X-MEDIA-SEQUENCE"@.len() ==> #[trigger]
            "EXT-X-MEDIA-SEQUENCE"@[i] != ':',
        forall|i: int| 0 <= i < "EXTINF"@.len() ==> #[trigger] "EXTINF"@[i] != ':',
        forall|i: int| 0 <= i < "EXT-X-DISCONTINUITY"@.len() ==> #[trigger]
            "EXT-X-DISCONTINUITY"@[i] != ':',
        forall|i: int| 0 <= i < "EXT-X-ENDLIST"@.len() ==> #[trigger] "EXT-X-ENDLIST"@[i] != ':',
        forall|i: int| 0 <= i < "EXT-X-MAP"@.len() ==> #[trigger] "EXT-X-MAP"@[i] != ':',
        forall|i: int| 0 <= i < "EXT-X-KEY"@.len() ==> #[trigger] "EXT-X-KEY"@[i] != ':',
        forall|i: int| 0 <= i < "EXT-X-BYTERANGE"@.len() ==> #[trigger] "EXT-X-BYTERANGE"@[i]
            != ':',
        begins("EXT-X-STREAM-INF"@, "EXT"@),
        begins("EXT-X-TARGETDURATION"@, "EXT"@),
        begins("EXT-X-MEDIA-SEQUENCE"@, "EXT"@),
        begins("EXTINF"@, "EXT"@),
        begins("EXT-X-DISCONTINUITY"@, "EXT"@),
        begins("EXT-X-ENDLIST"@, "EXT"@),
        begins("EXT-X-MAP"@, "EXT"@),
        begins("EXT-X-KEY"@, "EXT"@),
        begins("EXT-X-BYTERANGE"@, "EXT"@),
        "EXT-X-STREAM-INF"@.len() == 16,
        "EXT-X-TARGETDURATION"@.len() == 20,
        "EXT-X-MEDIA-SEQUENCE"@.len() == 20,
        "EXTINF"@.len() == 6,
        "EXT-X-DISCONTINUITY"@.len() == 19,
        "EXT-X-ENDLIST"@.len() == 13,
        "EXT-X-MAP"@.len() == 9,
        "EXT-X-KEY"@.len() == 9,
        "EXT-X-BYTERANGE"@.len() == 15,
        "EXT-X-TARGETDURATION"@ != "EXT-X-MEDIA-SEQUENCE"@,
        "EXT-X-MAP"@ != "EXT-X-KEY"@,
{
    reveal_strlit("EXT");
    reveal_strlit("EXT-X-STREAM-INF");
    reveal_strlit("EXT-X-TARGETDURATION");
    reveal_strlit("EXT-X-MEDIA-SEQUENCE");
    reveal_strlit("EXTINF");
    reveal_strlit("EXT-X-DISCONTINUITY");
    reveal_strlit("EXT-X-ENDLIST");
    reveal_strlit("EXT-X-MAP");
    reveal_strlit("EXT-X-KEY");
    reveal_strlit("EXT-X-BYTERANGE");
    assert("EXT-X-STREAM-INF"@.take(3) =~= "EXT"@);
    assert("EXT-X-TARGETDURATION"@.take(3) =~= "EXT"@);
    assert("EXT-X-MEDIA-SEQUENCE"@.take(3) =~= "EXT"@);
    assert("EXTINF"@.take(3) =~= "EXT"@);
    assert("EXT-X-DISCONTINUITY"@.take(3) =~= "EXT"@);
    assert("EXT-X-ENDLIST"@.take(3) =~= "EXT"@);
    assert("EXT-X-MAP"@.take(3) =~= "EXT"@);
    assert("EXT-X-KEY"@.take(3) =~= "EXT"@);
    assert("EXT-X-BYTERANGE"@.take(3) =~= "EXT"@);
    assert("EXT-X-TARGETDURATION"@[6] != "EXT-X-MEDIA-SEQUENCE"@[6]);
    assert("EXT-X-MAP"@[6] != "EXT-X-KEY"@[6]);
}

// ---------------------------------------------------------------------------------------------
// Media playlists

/// A segment as a server writes it.
pub struct WrittenSegment {
    pub discontinuity: bool,
    /// The duration, as it is written.
    pub duration: Seq<char>,
    pub title: Seq<char>,
    pub uri: Seq<char>,
}

/// What a server may write: a duration that is a number and holds no comma, a title in the same
/// line, and a URI that joins the base.
pub open spec fn is_written(s: WrittenSegment, base: Seq<char>) -> bool {
    &&& s.duration.len() > 0 && is_line(s.duration)
    &&& forall|i: int| 0 <= i < s.duration.len() ==> #[trigger] s.duration[i] != ','
    &&& written_seconds(s.duration) is Some
    &&& s.title.len() > 0 ==> !white(s.title.last())
    &&& forall|i: int| 0 <= i < s.title.len() ==> #[trigger] s.title[i] != '\n'
    &&& s.uri.len() > 0 && is_line(s.uri) && s.uri[0] != '#'
    &&& joined(base, s.uri) is Ok
}

/// The lines of a segment.
pub open spec fn segment_lines(s: WrittenSegment) -> Seq<Seq<char>> {
    (if s.discontinuity {
        seq![bare_tag("EXT-X-DISCONTINUITY"@)]
    } else {
        Seq::empty()
    }) + seq![tag_line("EXTINF"@, s.duration + seq![','] + s.title), s.uri]
}

/// The lines of the segments, in order.
pub open spec fn segments_lines(segments: Seq<WrittenSegment>) -> Seq<Seq<char>>
    decreases segments.len(),
{
    if segments.len() == 0 {
        Seq::empty()
    } else {
        segments_lines(segments.drop_last()) + segment_lines(segments.last())
    }
}

/// The first lines of a media playlist.
pub open spec fn media_head(target: u64, media_sequence: u64) -> Seq<Seq<char>> {
    seq![
        tag_line("EXT-X-TARGETDURATION"@, digits(target as nat)),
        tag_line("EXT-X-MEDIA-SEQUENCE"@, digits(media_sequence as nat)),
    ]
}

/// The lines of a media playlist.
pub open spec fn media_lines(
    target: u64,
    media_sequence: u64,
    segments: Seq<WrittenSegment>,
    end_list: bool,
) -> Seq<Seq<char>> {
    seq!["#EXTM3U"@] + (media_head(target, media_sequence) + segments_lines(segments) + (
    if end_list {
        seq![bare_tag("EXT-X-ENDLIST"@)]
    } else {
        Seq::empty()
    }))
}

/// The segments that are read: each with the duration, the address and the mark that were written
/// for it, numbered one by one from the media sequence number.
pub open spec fn segments_read(
    segments: Seq<WrittenSegment>,
    media_sequence: u64,
    base: Seq<char>,
) -> Seq<SegmentView> {
    Seq::new(
        segments.len(),
        |i: int|
            SegmentView {
                seq: (media_sequence + i) as u64,
                duration: Duration { nanos: written_seconds(segments[i].duration)->0 },
                uri: joined(base, segments[i].uri)->Ok_0,
                discontinuity: segments[i].discontinuity,
            },
    )
}

/// A media playlist is read as it was written: the target duration, the number of its first
/// segment, whether it ends, and every segment in its order, with its duration up to the comma, its
/// address on the base and its discontinuity.
pub proof fn a_media_playlist_is_read_as_written(
    target: u64,
    media_sequence: u64,
    segments: Seq<WrittenSegment>,
    end_list: bool,
    base: Seq<char>,
)
    requires
        forall|i: int| 0 <= i < segments.len() ==> is_written(#[trigger] segments[i], base),
        media_sequence + segments.len() <= u64::MAX,
    ensures
        parsed(put_together(media_lines(target, media_sequence, segments, end_list), '\n'), base)
            == Ok::<PlaylistView, ErrorView>(
            PlaylistView::Media(
                MediaView {
                    target_duration: Duration { nanos: (target * 1_000_000_000) as u128 },
                    media_sequence,
                    segments: segments_read(segments, media_sequence, base),
                    end_list,
                },
            ),
        ),
{
    let lines = media_lines(target, media_sequence, segments, end_list);
    let rest = lines.skip(1);
    let body = media_head(target, media_sequence) + segments_lines(segments);
    media_lines_are_lines(target, media_sequence, segments, end_list, base);
    lines_are_read_as_written(lines);
    reveal_strlit("#EXTM3U");
    assert(lines[0] == "#EXTM3U"@);
    assert("#EXTM3U"@.take(7) =~= "#EXTM3U"@);
    segments_are_read_as_written(target, media_sequence, segments, base);
    if end_list {
        let last = bare_tag("EXT-X-ENDLIST"@);
        assert(rest =~= body.push(last));
        same_lines_read_alike(body, rest, body.len(), base);
        the_tags_are_told_apart();
        let at = read_lines(body, body.len(), base)->Ok_0;
        a_tag_is_read_by_its_name(at, "EXT-X-ENDLIST"@, Seq::empty(), base);
        assert(rest[body.len() as int] == last);
    } else {
        assert(rest =~= body);
    }
}

/// The state after the segments that were written.
spec fn scan_after(
    target: u64,
    media_sequence: u64,
    segments: Seq<WrittenSegment>,
    base: Seq<char>,
) -> Scan {
    Scan {
        target_duration: Some(Duration { nanos: (target * 1_000_000_000) as u128 }),
        media_sequence,
        segments: segments_read(segments, media_sequence, base),
        ..nothing_read()
    }
}

proof fn the_head_is_read_as_written(target: u64, media_sequence: u64, base: Seq<char>)
    ensures
        read_lines(media_head(target, media_sequence), 2, base) == Ok::<Scan, ErrorView>(
            scan_after(target, media_sequence, Seq::empty(), base),
        ),
{
    let head = media_head(target, media_sequence);
    let none = Seq::<char>::empty();
    the_tags_are_told_apart();
    reveal_with_fuel(read_lines, 3);
    let (t, m) = (digits(target as nat), digits(media_sequence as nat));
    text::digits_read_back(target as nat, u64::MAX as nat);
    text::digits_read_back(media_sequence as nat, u64::MAX as nat);
    digits_are_trimmed(target as nat);
    digits_are_trimmed(media_sequence as nat);
    let s0 = nothing_read();
    a_tag_is_read_by_its_name(s0, "EXT-X-TARGETDURATION"@, t, base);
    let s1 = Scan {
        target_duration: Some(Duration { nanos: (target * 1_000_000_000) as u128 }),
        ..s0
    };
    assert(read_line(s0, head[0], base) == Ok::<Scan, ErrorView>(s1));
    a_tag_is_read_by_its_name(s1, "EXT-X-MEDIA-SEQUENCE"@, m, base);
    let s2 = Scan { media_sequence, ..s1 };
    assert(read_line(s1, head[1], base) == Ok::<Scan, ErrorView>(s2));
    assert(segments_read(Seq::empty(), media_sequence, base) =~= Seq::<SegmentView>::empty());
}

proof fn digits_are_trimmed(n: nat)
    ensures
        trimmed(digits(n)) == digits(n),
        is_line(digits(n)),
        digits(n).len() > 0,
{
    text::digits_read_back(n, n);
    let d = digits(n);
    let none = Seq::<char>::empty();
    assert('0' <= d[0] <= '9' && '0' <= d[d.len() - 1] <= '9');
    text::trimming_takes_the_white_off(none, d, none);
    assert(none + d + none =~= d);
}

proof fn segments_are_read_as_written(
    target: u64,
    media_sequence: u64,
    segments: Seq<WrittenSegment>,
    base: Seq<char>,
)
    requires
        forall|i: int| 0 <= i < segments.len() ==> is_written(#[trigger] segments[i], base),
        media_sequence + segments.len() <= u64::MAX,
    ensures
        ({
            let lines = media_head(target, media_sequence) + segments_lines(segments);
            read_lines(lines, lines.len(), base) == Ok::<Scan, ErrorView>(
                scan_after(target, media_sequence, segments, base),
            )
        }),
    decreases segments.len(),
{
    let head = media_head(target, media_sequence);
    let lines = head + segments_lines(segments);
    if segments.len() == 0 {
        assert(lines =~= head);
        assert(segments =~= Seq::<WrittenSegment>::empty());
        the_head_is_read_as_written(target, media_sequence, base);
    } else {
        let before = segments.drop_last();
        let s = segments.last();
        let some = head + segments_lines(before);
        let n = some.len();
        assert forall|i: int| 0 <= i < before.len() implies is_written(
            #[trigger] before[i],
            base,
        ) by {
            assert(before[i] == segments[i]);
        }
        assert(is_written(segments[segments.len() - 1], base));
        segments_are_read_as_written(target, media_sequence, before, base);
        assert(lines =~= some + segment_lines(s));
        same_lines_read_alike(some, lines, n, base);
        let at = scan_after(target, media_sequence, before, base);
        one_segment_is_read_as_written(at, s, base);
        let marked = with_mark(at, s.discontinuity);
        let timed = with_duration(marked, Duration { nanos: written_seconds(s.duration)->0 });
        let done = scan_after(target, media_sequence, segments, base);
        assert(done.segments =~= at.segments.push(
            SegmentView {
                seq: (media_sequence + before.len()) as u64,
                duration: Duration { nanos: written_seconds(s.duration)->0 },
                uri: joined(base, s.uri)->Ok_0,
                discontinuity: s.discontinuity,
            },
        ));
        let inf = tag_line("EXTINF"@, s.duration + seq![','] + s.title);
        if s.discontinuity {
            assert(lines[n as int] == bare_tag("EXT-X-DISCONTINUITY"@));
            assert(lines[n as int + 1] == inf);
            assert(lines[n as int + 2] == s.uri);
            assert(lines.len() == n + 3);
            assert(read_lines(lines, n + 1, base) == Ok::<Scan, ErrorView>(marked));
            assert(read_lines(lines, n + 2, base) == Ok::<Scan, ErrorView>(timed));
            assert(read_lines(lines, n + 3, base) == Ok::<Scan, ErrorView>(done));
        } else {
            assert(lines[n as int] == inf);
            assert(lines[n as int + 1] == s.uri);
            assert(lines.len() == n + 2);
            assert(marked == at);
            assert(read_lines(lines, n + 1, base) == Ok::<Scan, ErrorView>(timed));
            assert(read_lines(lines, n + 2, base) == Ok::<Scan, ErrorView>(done));
        }
    }
}

/// What each line of a segment does.
proof fn one_segment_is_read_as_written(at: Scan, s: WrittenSegment, base: Seq<char>)
    requires
        is_written(s, base),
        at.pending_variant is None,
        at.media_sequence + at.segments.len() <= u64::MAX,
    ensures
        read_line(at, bare_tag("EXT-X-DISCONTINUITY"@), base) == Ok::<Scan, ErrorView>(
            Scan { discontinuity: true, ..at },
        ),
        forall|d: bool|
            read_line(
                #[trigger] with_mark(at, d),
                tag_line("EXTINF"@, s.duration + seq![','] + s.title),
                base,
            ) == Ok::<Scan, ErrorView>(
                Scan {
                    pending_duration: Some(Duration { nanos: written_seconds(s.duration)->0 }),
                    ..with_mark(at, d)
                },
            ),
        forall|d: bool, t: Duration|
            read_line(#[trigger] with_duration(with_mark(at, d), t), s.uri, base) == Ok::<
                Scan,
                ErrorView,
            >(
                Scan {
                    segments: at.segments.push(
                        SegmentView {
                            seq: (at.media_sequence + at.segments.len()) as u64,
                            duration: t,
                            uri: joined(base, s.uri)->Ok_0,
                            discontinuity: d,
                        },
                    ),
                    pending_duration: None,
                    discontinuity: false,
                    ..at
                },
            ),
{
    the_tags_are_told_apart();
    let none = Seq::<char>::empty();
    a_tag_is_read_by_its_name(at, "EXT-X-DISCONTINUITY"@, none, base);
    let value = s.duration + seq![','] + s.title;
    let n = s.duration.len() as int;
    assert forall|i: int| 0 <= i < n implies value[i] != ',' by {
        assert(value[i] == s.duration[i]);
    }
    assert(value[n] == ',');
    text::first_at_unique(value, ',', n);
    assert(value.take(n) =~= s.duration);
    assert(pieces(value, ',')[0] == s.duration);
    text::trimming_takes_the_white_off(none, s.duration, none);
    assert(none + s.duration + none =~= s.duration);
    assert forall|d: bool|
        read_line(#[trigger] with_mark(at, d), tag_line("EXTINF"@, value), base) == Ok::<
            Scan,
            ErrorView,
        >(
            Scan {
                pending_duration: Some(Duration { nanos: written_seconds(s.duration)->0 }),
                ..with_mark(at, d)
            },
        ) by {
        a_tag_is_read_by_its_name(with_mark(at, d), "EXTINF"@, value, base);
    }
}

spec fn with_mark(at: Scan, d: bool) -> Scan {
    Scan { discontinuity: d, ..at }
}

spec fn with_duration(at: Scan, t: Duration) -> Scan {
    Scan { pending_duration: Some(t), ..at }
}

proof fn media_lines_are_lines(
    target: u64,
    media_sequence: u64,
    segments: Seq<WrittenSegment>,
    end_list: bool,
    base: Seq<char>,
)
    requires
        forall|i: int| 0 <= i < segments.len() ==> is_written(#[trigger] segments[i], base),
    ensures
        forall|i: int|
            0 <= i < media_lines(target, media_sequence, segments, end_list).len() ==> is_line(
                #[trigger] media_lines(target, media_sequence, segments, end_list)[i],
            ),
{
    let lines = media_lines(target, media_sequence, segments, end_list);
    let body = segments_lines(segments);
    literals_are_lines();
    segments_lines_are_lines(segments, base);
    digits_are_trimmed(target as nat);
    digits_are_trimmed(media_sequence as nat);
    assert(is_line(media_head(target, media_sequence)[0])) by {
        a_tag_line_is_a_line("EXT-X-TARGETDURATION"@, digits(target as nat));
    }
    assert(is_line(media_head(target, media_sequence)[1])) by {
        a_tag_line_is_a_line("EXT-X-MEDIA-SEQUENCE"@, digits(media_sequence as nat));
    }
    assert forall|i: int| 0 <= i < lines.len() implies is_line(#[trigger] lines[i]) by {
        if i == 0 {
            assert(lines[0] == "#EXTM3U"@);
        } else if i < 3 {
            assert(lines[i] == media_head(target, media_sequence)[i - 1]);
        } else if i < 3 + body.len() {
            assert(lines[i] == body[i - 3]);
        } else {
            assert(lines[i] == bare_tag("EXT-X-ENDLIST"@));
        }
    }
}

proof fn literals_are_lines()
    ensures
        is_line("#EXTM3U"@),
        is_line(bare_tag("EXT-X-ENDLIST"@)),
        is_line(bare_tag("EXT-X-DISCONTINUITY"@)),
        forall|i: int| 0 <= i < "EXTINF"@.len() ==> #[trigger] "EXTINF"@[i] != '\n',
        forall|i: int| 0 <= i < "EXT-X-TARGETDURATION"@.len() ==> #[trigger]
            "EXT-X-TARGETDURATION"@[i] != '\n',
        forall|i: int| 0 <= i < "EXT-X-MEDIA-SEQUENCE"@.len() ==> #[trigger]
            "EXT-X-MEDIA-SEQUENCE"@[i] != '\n',
        forall|i: int| 0 <= i < "EXT-X-STREAM-INF"@.len() ==> #[trigger] "EXT-X-STREAM-INF"@[i]
            != '\n',
{
    reveal_strlit("#EXTM3U");
    reveal_strlit("EXT-X-ENDLIST");
    reveal_strlit("EXT-X-DISCONTINUITY");
    reveal_strlit("EXTINF");
    reveal_strlit("EXT-X-TARGETDURATION");
    reveal_strlit("EXT-X-MEDIA-SEQUENCE");
    reveal_strlit("EXT-X-STREAM-INF");
    let e = bare_tag("EXT-X-ENDLIST"@);
    assert(e[e.len() - 1] == 'T');
    let d = bare_tag("EXT-X-DISCONTINUITY"@);
    assert(d[d.len() - 1] == 'Y');
}

proof fn a_tag_line_is_a_line(name: Seq<char>, value: Seq<char>)
    requires
        forall|i: int| 0 <= i < name.len() ==> #[trigger] name[i] != '\n',
        forall|i: int| 0 <= i < value.len() ==> #[trigger] value[i] != '\n',
        value.len() > 0,
        !white(value.last()),
    ensures
        is_line(tag_line(name, value)),
{
    let l = tag_line(name, value);
    assert(l[0] == '#');
    assert(l.last() == value.last());
    assert forall|i: int| 0 <= i < l.len() implies #[trigger] l[i] != '\n' by {
        if 1 <= i <= name.len() {
            assert(l[i] == name[i - 1]);
        } else if i > name.len() + 1 {
            assert(l[i] == value[i - name.len() - 2]);
        }
    }
}

proof fn segments_lines_are_lines(segments: Seq<WrittenSegment>, base: Seq<char>)
    requires
        forall|i: int| 0 <= i < segments.len() ==> is_written(#[trigger] segments[i], base),
    ensures
        forall|i: int|
            0 <= i < segments_lines(segments).len() ==> is_line(
                #[trigger] segments_lines(segments)[i],
            ),
    decreases segments.len(),
{
    if segments.len() > 0 {
        let before = segments.drop_last();
        let s = segments.last();
        let all = segments_lines(segments);
        let some = segments_lines(before);
        assert forall|i: int| 0 <= i < before.len() implies is_written(
            #[trigger] before[i],
            base,
        ) by {
            assert(before[i] == segments[i]);
        }
        segments_lines_are_lines(before, base);
        assert(is_written(segments[segments.len() - 1], base));
        literals_are_lines();
        let value = s.duration + seq![','] + s.title;
        assert(!white(','));
        assert(!white(value.last())) by {
            if s.title.len() > 0 {
                assert(value.last() == s.title.last());
            } else {
                assert(value.last() == ',');
            }
        }
        assert forall|i: int| 0 <= i < value.len() implies #[trigger] value[i] != '\n' by {
            if i < s.duration.len() {
                assert(value[i] == s.duration[i]);
            } else if i > s.duration.len() {
                assert(value[i] == s.title[i - s.duration.len() - 1]);
            }
        }
        a_tag_line_is_a_line("EXTINF"@, value);
        let own = segment_lines(s);
        assert forall|i: int| 0 <= i < own.len() implies is_line(#[trigger] own[i]) by {
            assert(own[own.len() - 1] == s.uri);
            assert(own[own.len() - 2] == tag_line("EXTINF"@, value));
            if s.discontinuity {
                assert(own[0] == bare_tag("EXT-X-DISCONTINUITY"@));
            }
        }
        assert forall|i: int| 0 <= i < all.len() implies is_line(#[trigger] all[i]) by {
            if i < some.len() {
                assert(all[i] == some[i]);
            } else {
                assert(all[i] == own[i - some.len()]);
            }
        }
    }
}

// ---------------------------------------------------------------------------------------------
// Refusals

/// A list whose first lines are good is refused at the first line that says what cannot be played:
/// fragments, byte ranges, or a key of any method but `NONE`; whatever follows it.
pub proof fn what_cannot_be_played_is_refused(body: Seq<char>, k: int, base: Seq<char>)
    requires
        begins(lines_of(body)[0], "#EXTM3U"@),
        1 <= k < lines_of(body).len(),
        read_lines(lines_of(body).skip(1), (k - 1) as nat, base) is Ok,
    ensures
        ({
            let line = lines_of(body)[k];
            let value = line.skip(11);
            &&& line == bare_tag("EXT-X-MAP"@) || begins(line, tag_line("EXT-X-MAP"@, Seq::empty()))
                ==> parsed(body, base) == Err::<PlaylistView, ErrorView>(ErrorView::Fmp4)
            &&& line == bare_tag("EXT-X-BYTERANGE"@) || begins(
                line,
                tag_line("EXT-X-BYTERANGE"@, Seq::empty()),
            ) ==> parsed(body, base) == Err::<PlaylistView, ErrorView>(ErrorView::ByteRange)
            &&& begins(line, tag_line("EXT-X-KEY"@, Seq::empty())) && encrypts(value) ==> parsed(
                body,
                base,
            ) == Err::<PlaylistView, ErrorView>(ErrorView::Encrypted)
        }),
{
    let rest = lines_of(body).skip(1);
    let line = lines_of(body)[k];
    let at = read_lines(rest, (k - 1) as nat, base)->Ok_0;
    let none = Seq::<char>::empty();
    assert(rest[k - 1] == line);
    the_tags_are_told_apart();
    let (map, range, key) = ("EXT-X-MAP"@, "EXT-X-BYTERANGE"@, "EXT-X-KEY"@);
    a_tag_is_read_by_its_name(at, map, line.skip(11), base);
    a_tag_is_read_by_its_name(at, range, line.skip(17), base);
    a_tag_is_read_by_its_name(at, key, line.skip(11), base);
    if begins(line, tag_line(map, none)) {
        begins_a_tag_line(line, map);
    }
    if begins(line, tag_line(range, none)) {
        begins_a_tag_line(line, range);
    }
    if begins(line, tag_line(key, none)) {
        begins_a_tag_line(line, key);
    }
    if read_line(at, line, base) is Err {
        assert(read_lines(rest, k as nat, base) == read_line(at, line, base));
        error_is_final(rest, k as nat, rest.len(), base);
    }
}

proof fn begins_a_tag_line(line: Seq<char>, name: Seq<char>)
    requires
        begins(line, tag_line(name, Seq::empty())),
    ensures
        line == tag_line(name, line.skip(name.len() as int + 2)),
{
    let head = tag_line(name, Seq::empty());
    assert(head =~= seq!['#'] + name + seq![':']);
    assert(line =~= line.take(head.len() as int) + line.skip(head.len() as int));
    assert(line =~= tag_line(name, line.skip(name.len() as int + 2)));
}

/// A key encrypts unless its method is `NONE`, whatever the case of its letters; and a key without a
/// method encrypts.
pub proof fn which_keys_encrypt(method: Seq<char>)
    requires
        method.len() > 0 && !white(method[0]) && !white(method.last()) && method[0] != '"',
        forall|i: int| 0 <= i < method.len() ==> #[trigger] method[i] != ',',
    ensures
        encrypts("METHOD"@ + seq!['='] + method) <==> !(method.len() == 4 && text::alike_from(
            method,
            "NONE"@,
            0,
        )),
        encrypts(Seq::empty()),
{
    reveal_strlit("METHOD");
    reveal_strlit("NONE");
    let none = Seq::<char>::empty();
    let s = "METHOD"@ + seq!['='] + method;
    assert("METHOD"@.len() == 6 && "METHOD"@[5] == 'D');
    assert(is_key_name("METHOD"@));
    a_last_attribute_is_read("METHOD"@, method);
    assert(s[0] == 'M' && s.last() == method.last());
    text::trimming_takes_the_white_off(none, s, none);
    assert(none + s + none =~= s);
    one_attribute("METHOD"@, method, "NONE"@);
    text::lowered_alike(method, "NONE"@);
    if method.len() == 4 {
        if text::alike_from(method, "NONE"@, 0) {
            assert forall|i: int| 0 <= i < 4 implies text::same_letter(
                #[trigger] method[i],
                "NONE"@[i],
            ) by {
                assert(text::same_letter(method[0 + i], "NONE"@[i]));
            }
        }
        if text::lowered(method) == text::lowered("NONE"@) {
            assert forall|k: int| 0 <= k < 4 implies text::same_letter(
                method[0 + k],
                #[trigger] "NONE"@[k],
            ) by {
                assert(text::same_letter(method[k], "NONE"@[k]));
            }
        }
    }
    no_pairs_in_nothing();
    text::trimming_takes_the_white_off(none, none, none);
    assert(none + none + none =~= none);
    assert(attribute(pairs(none), "METHOD"@) is None);
    assert(text::lowered(none).len() == 0 && text::lowered("NONE"@).len() == 4);
}

// ---------------------------------------------------------------------------------------------
// Master playlists

/// A variant as a server writes it.
pub struct WrittenVariant {
    pub bandwidth: u64,
    pub codecs: Option<Seq<Seq<char>>>,
    pub uri: Seq<char>,
}

/// A codec as it may stand in a list in quotes.
pub open spec fn is_codec_name(c: Seq<char>) -> bool {
    &&& c.len() > 0 && is_line(c)
    &&& forall|i: int| 0 <= i < c.len() ==> #[trigger] c[i] != ',' && c[i] != '"'
}

/// What a server may write.
pub open spec fn is_written_variant(v: WrittenVariant, base: Seq<char>) -> bool {
    &&& v.codecs matches Some(cs) ==> cs.len() > 0 && forall|i: int|
        0 <= i < cs.len() ==> is_codec_name(#[trigger] cs[i])
    &&& v.uri.len() > 0 && is_line(v.uri) && v.uri[0] != '#'
    &&& joined(base, v.uri) is Ok
}

/// The attributes of a variant.
pub open spec fn variant_value(v: WrittenVariant) -> Seq<char> {
    "BANDWIDTH="@ + digits(v.bandwidth as nat) + (match v.codecs {
        Some(cs) => ",CODECS=\""@ + put_together(cs, ',') + seq!['"'],
        None => Seq::empty(),
    })
}

/// The lines of the variants, in order.
pub open spec fn variants_lines(variants: Seq<WrittenVariant>) -> Seq<Seq<char>>
    decreases variants.len(),
{
    if variants.len() == 0 {
        Seq::empty()
    } else {
        let v = variants.last();
        variants_lines(variants.drop_last()) + seq![
            tag_line("EXT-X-STREAM-INF"@, variant_value(v)),
            v.uri,
        ]
    }
}

/// The lines of a master playlist.
pub open spec fn master_lines(variants: Seq<WrittenVariant>) -> Seq<Seq<char>> {
    seq!["#EXTM3U"@] + variants_lines(variants)
}

/// The variants that are read.
pub open spec fn variants_read(variants: Seq<WrittenVariant>, base: Seq<char>) -> Seq<VariantView> {
    Seq::new(
        variants.len(),
        |i: int|
            VariantView {
                uri: joined(base, variants[i].uri)->Ok_0,
                bandwidth: Some(variants[i].bandwidth),
                codecs: variants[i].codecs,
            },
    )
}

/// A master playlist is read as it was written: every variant in its order, with its bandwidth, its
/// codecs, in one quoted attribute with commas between them, or none, and its address on the base.
pub proof fn a_master_playlist_is_read_as_written(variants: Seq<WrittenVariant>, base: Seq<char>)
    requires
        variants.len() > 0,
        forall|i: int| 0 <= i < variants.len() ==> is_written_variant(#[trigger] variants[i], base),
    ensures
        parsed(put_together(master_lines(variants), '\n'), base) == Ok::<PlaylistView, ErrorView>(
            PlaylistView::Master(variants_read(variants, base)),
        ),
{
    let lines = master_lines(variants);
    let rest = lines.skip(1);
    let body = variants_lines(variants);
    variants_lines_are_lines(variants, base);
    literals_are_lines();
    assert forall|i: int| 0 <= i < lines.len() implies is_line(#[trigger] lines[i]) by {
        if i == 0 {
            assert(lines[0] == "#EXTM3U"@);
        } else {
            assert(lines[i] == body[i - 1]);
        }
    }
    lines_are_read_as_written(lines);
    reveal_strlit("#EXTM3U");
    assert(lines[0] == "#EXTM3U"@);
    assert("#EXTM3U"@.take(7) =~= "#EXTM3U"@);
    assert(rest =~= body);
    variants_are_read_as_written(variants, base);
}

proof fn variants_are_read_as_written(variants: Seq<WrittenVariant>, base: Seq<char>)
    requires
        forall|i: int| 0 <= i < variants.len() ==> is_written_variant(#[trigger] variants[i], base),
    ensures
        ({
            let lines = variants_lines(variants);
            read_lines(lines, lines.len(), base) == Ok::<Scan, ErrorView>(
                Scan { variants: variants_read(variants, base), ..nothing_read() },
            )
        }),
    decreases variants.len(),
{
    let lines = variants_lines(variants);
    if variants.len() == 0 {
        assert(variants_read(variants, base) =~= Seq::<VariantView>::empty());
    } else {
        let before = variants.drop_last();
        let v = variants.last();
        let some = variants_lines(before);
        let n = some.len();
        assert forall|i: int| 0 <= i < before.len() implies is_written_variant(
            #[trigger] before[i],
            base,
        ) by {
            assert(before[i] == variants[i]);
        }
        assert(is_written_variant(variants[variants.len() - 1], base));
        variants_are_read_as_written(before, base);
        same_lines_read_alike(some, lines, n, base);
        the_tags_are_told_apart();
        let at = Scan { variants: variants_read(before, base), ..nothing_read() };
        let value = variant_value(v);
        a_tag_is_read_by_its_name(at, "EXT-X-STREAM-INF"@, value, base);
        attributes_are_read_as_written(v, base);
        let told = Scan { pending_variant: Some((Some(v.bandwidth), v.codecs)), ..at };
        assert(lines[n as int] == tag_line("EXT-X-STREAM-INF"@, value));
        assert(lines[n as int + 1] == v.uri);
        assert(lines.len() == n + 2);
        assert(read_lines(lines, n + 1, base) == Ok::<Scan, ErrorView>(told));
        assert(variants_read(variants, base) =~= variants_read(before, base).push(
            VariantView {
                uri: joined(base, v.uri)->Ok_0,
                bandwidth: Some(v.bandwidth),
                codecs: v.codecs,
            },
        ));
    }
}

/// The attributes of a variant are read as they were written.
proof fn attributes_are_read_as_written(v: WrittenVariant, base: Seq<char>)
    requires
        is_written_variant(v, base),
    ensures
        stream_inf(variant_value(v)) == (Some(v.bandwidth), v.codecs),
{
    let none = Seq::<char>::empty();
    let d = digits(v.bandwidth as nat);
    let value = variant_value(v);
    let (bandwidth, codecs) = ("BANDWIDTH"@, "CODECS"@);
    digits_are_trimmed(v.bandwidth as nat);
    text::digits_read_back(v.bandwidth as nat, u64::MAX as nat);
    attribute_names();
    value_is_trimmed(v);
    match v.codecs {
        None => {
            assert(value =~= bandwidth + seq!['='] + d);
            a_last_attribute_is_read(bandwidth, d);
            one_attribute(bandwidth, d, codecs);
        },
        Some(cs) => {
            let list = put_together(cs, ',');
            let more = codecs + seq!['='] + (seq!['"'] + list + seq!['"']);
            reveal_strlit(",CODECS=\"");
            reveal_strlit("CODECS");
            assert(",CODECS=\""@ =~= seq![','] + codecs + seq!['=', '"']);
            assert(value =~= bandwidth + seq!['='] + d + seq![','] + more);
            list_holds_no_quote(cs);
            a_quoted_attribute_is_read(codecs, list);
            assert(more[0] == codecs[0]);
            an_attribute_is_read(bandwidth, d, more);
            two_attributes((bandwidth, d), (codecs, list));
            codecs_are_read_as_written(cs);
        },
    }
}

proof fn attribute_names()
    ensures
        "BANDWIDTH="@ == "BANDWIDTH"@ + seq!['='],
        "BANDWIDTH"@ != "CODECS"@,
        is_key_name("BANDWIDTH"@),
        is_key_name("CODECS"@),
{
    reveal_strlit("BANDWIDTH=");
    reveal_strlit("BANDWIDTH");
    reveal_strlit("CODECS");
    assert("BANDWIDTH="@ =~= "BANDWIDTH"@ + seq!['=']);
    assert("BANDWIDTH"@.len() == 9 && "CODECS"@.len() == 6);
    assert("BANDWIDTH"@[8] == 'H' && "CODECS"@[5] == 'S');
}

/// A name that an attribute may have.
pub open spec fn is_key_name(key: Seq<char>) -> bool {
    &&& key.len() > 0 && !white(key[0]) && !white(key.last())
    &&& forall|i: int| 0 <= i < key.len() ==> #[trigger] key[i] != '='
}

proof fn value_is_trimmed(v: WrittenVariant)
    ensures
        trimmed(variant_value(v)) == variant_value(v),
{
    reveal_strlit("BANDWIDTH=");
    let none = Seq::<char>::empty();
    let value = variant_value(v);
    let d = digits(v.bandwidth as nat);
    digits_are_trimmed(v.bandwidth as nat);
    assert(value[0] == 'B');
    assert(value.last() == (if v.codecs is Some {
        '"'
    } else {
        d.last()
    }));
    text::trimming_takes_the_white_off(none, value, none);
    assert(none + value + none =~= value);
}

/// The key of the first attribute, and what stands behind its `=`.
proof fn a_key_is_read(key: Seq<char>, after: Seq<char>)
    requires
        is_key_name(key),
    ensures
        ({
            let s = key + seq!['='] + after;
            &&& first_at(s, '=') == key.len()
            &&& trimmed(s.take(key.len() as int)) == key
            &&& s.skip(key.len() as int + 1) == after
            &&& pairs(s) == seq![(key, value_and_rest(after).0)] + pairs(value_and_rest(after).1)
        }),
{
    let none = Seq::<char>::empty();
    let s = key + seq!['='] + after;
    let n = key.len() as int;
    assert forall|i: int| 0 <= i < n implies s[i] != '=' by {
        assert(s[i] == key[i]);
    }
    assert(s[n] == '=');
    text::first_at_unique(s, '=', n);
    assert(s.take(n) =~= key);
    assert(s.skip(n + 1) =~= after);
    text::trimming_takes_the_white_off(none, key, none);
    assert(none + key + none =~= key);
}

/// A value without quotes runs to the next comma; what follows is read on.
pub proof fn an_attribute_is_read(key: Seq<char>, d: Seq<char>, more: Seq<char>)
    requires
        is_key_name(key),
        d.len() > 0 && !white(d[0]) && !white(d.last()) && d[0] != '"',
        forall|i: int| 0 <= i < d.len() ==> #[trigger] d[i] != ',',
        more.len() > 0 && !white(more[0]),
    ensures
        pairs(key + seq!['='] + d + seq![','] + more) == seq![(key, d)] + pairs(more),
{
    let none = Seq::<char>::empty();
    let after = d + seq![','] + more;
    let n = d.len() as int;
    assert forall|i: int| 0 <= i < n implies after[i] != ',' by {
        assert(after[i] == d[i]);
    }
    assert(after[0] == d[0] && after[n] == ',');
    text::first_at_unique(after, ',', n);
    assert(after.take(n) =~= d);
    assert(after.skip(n + 1) =~= more);
    text::trimming_takes_the_white_off(none, d, none);
    assert(none + d + none =~= d);
    assert(text::trimmed_start(more) == more);
    assert(value_and_rest(after) == (d, more));
    a_key_is_read(key, after);
    assert(key + seq!['='] + after =~= key + seq!['='] + d + seq![','] + more);
}

proof fn no_pairs_in_nothing()
    ensures
        pairs(Seq::empty()) == Seq::<(Seq<char>, Seq<char>)>::empty(),
{
    text::first_at_unique(Seq::empty(), '=', 0);
}

/// The last value runs to the end.
pub proof fn a_last_attribute_is_read(key: Seq<char>, d: Seq<char>)
    requires
        is_key_name(key),
        d.len() > 0 && !white(d[0]) && !white(d.last()) && d[0] != '"',
        forall|i: int| 0 <= i < d.len() ==> #[trigger] d[i] != ',',
    ensures
        pairs(key + seq!['='] + d) == seq![(key, d)],
{
    let none = Seq::<char>::empty();
    text::first_at_unique(d, ',', d.len() as int);
    text::trimming_takes_the_white_off(none, d, none);
    assert(none + d + none =~= d);
    assert(value_and_rest(d) == (d, none));
    a_key_is_read(key, d);
    no_pairs_in_nothing();
    assert(seq![(key, d)] + pairs(none) =~= seq![(key, d)]);
}

/// A value in quotes runs to the closing quote, commas in it included, and loses its quotes.
pub proof fn a_quoted_attribute_is_read(key: Seq<char>, list: Seq<char>)
    requires
        is_key_name(key),
        forall|i: int| 0 <= i < list.len() ==> #[trigger] list[i] != '"',
    ensures
        pairs(key + seq!['='] + (seq!['"'] + list + seq!['"'])) == seq![(key, list)],
{
    let none = Seq::<char>::empty();
    let after = seq!['"'] + list + seq!['"'];
    let q = after.skip(1);
    let m = list.len() as int;
    assert(q =~= list + seq!['"']);
    assert forall|i: int| 0 <= i < m implies q[i] != '"' by {
        assert(q[i] == list[i]);
    }
    assert(q[m] == '"');
    text::first_at_unique(q, '"', m);
    assert(q.take(m) =~= list);
    assert(q.skip(m + 1) =~= none);
    assert(value_and_rest(after) == (list, none));
    a_key_is_read(key, after);
    no_pairs_in_nothing();
    assert(seq![(key, list)] + pairs(none) =~= seq![(key, list)]);
}

proof fn one_attribute(key: Seq<char>, value: Seq<char>, other: Seq<char>)
    requires
        key != other,
    ensures
        attribute(seq![(key, value)], key) == Some(value),
        attribute(seq![(key, value)], other) is None,
{
    let all = seq![(key, value)];
    assert(all.skip(1) =~= Seq::<(Seq<char>, Seq<char>)>::empty());
    assert(attribute(all.skip(1), other) is None);
}

proof fn two_attributes(a: (Seq<char>, Seq<char>), b: (Seq<char>, Seq<char>))
    requires
        a.0 != b.0,
    ensures
        attribute(seq![a] + seq![b], a.0) == Some(a.1),
        attribute(seq![a] + seq![b], b.0) == Some(b.1),
{
    let all = seq![a] + seq![b];
    assert(all.skip(1) =~= seq![b]);
    one_attribute(b.0, b.1, a.0);
}

proof fn list_holds_no_quote(cs: Seq<Seq<char>>)
    requires
        forall|i: int| 0 <= i < cs.len() ==> is_codec_name(#[trigger] cs[i]),
    ensures
        forall|i: int|
            0 <= i < put_together(cs, ',').len() ==> #[trigger] put_together(cs, ',')[i] != '"',
        forall|i: int|
            0 <= i < put_together(cs, ',').len() ==> #[trigger] put_together(cs, ',')[i] != '\n',
    decreases cs.len(),
{
    let list = put_together(cs, ',');
    if cs.len() > 0 {
        assert(is_codec_name(cs[0]));
        if cs.len() > 1 {
            let rest = cs.skip(1);
            assert forall|i: int| 0 <= i < rest.len() implies is_codec_name(#[trigger] rest[i]) by {
                assert(rest[i] == cs[i + 1]);
            }
            list_holds_no_quote(rest);
            let n = cs[0].len() as int;
            assert forall|i: int| 0 <= i < list.len() implies #[trigger] list[i] != '"' && list[i]
                != '\n' by {
                if i < n {
                    assert(list[i] == cs[0][i]);
                } else if i > n {
                    assert(list[i] == put_together(rest, ',')[i - n - 1]);
                }
            }
        }
    }
}

proof fn codecs_are_read_as_written(cs: Seq<Seq<char>>)
    requires
        cs.len() > 0,
        forall|i: int| 0 <= i < cs.len() ==> is_codec_name(#[trigger] cs[i]),
    ensures
        codec_list(put_together(cs, ',')) == Some(cs),
{
    assert forall|i: int, k: int| 0 <= i < cs.len() && 0 <= k < cs[i].len() implies #[trigger] cs[i][k]
        != ',' by {
        assert(is_codec_name(cs[i]));
    }
    text::together_splits_again(cs, ',');
    let none = Seq::<char>::empty();
    assert forall|i: int| 0 <= i < cs.len() implies trimmed(#[trigger] cs[i]) == cs[i] by {
        assert(is_codec_name(cs[i]));
        text::trimming_takes_the_white_off(none, cs[i], none);
        assert(none + cs[i] + none =~= cs[i]);
    }
    let named = pieces(put_together(cs, ','), ',').map_values(|c: Seq<char>| trimmed(c));
    assert(named =~= cs);
    assert forall|i: int| 0 <= i < cs.len() implies (#[trigger] cs[i]).len() > 0 by {
        assert(is_codec_name(cs[i]));
    }
    all_are_kept(cs);
}

proof fn all_are_kept(cs: Seq<Seq<char>>)
    requires
        forall|i: int| 0 <= i < cs.len() ==> (#[trigger] cs[i]).len() > 0,
    ensures
        cs.filter(|c: Seq<char>| c.len() > 0) == cs,
    decreases cs.len(),
{
    reveal(Seq::filter);
    if cs.len() > 0 {
        let d = cs.drop_last();
        assert forall|i: int| 0 <= i < d.len() implies (#[trigger] d[i]).len() > 0 by {
            assert(d[i] == cs[i]);
        }
        all_are_kept(d);
        assert(cs[cs.len() - 1].len() > 0);
        assert(d.push(cs.last()) =~= cs);
    } else {
        assert(cs.filter(|c: Seq<char>| c.len() > 0) =~= cs);
    }
}

proof fn variants_lines_are_lines(variants: Seq<WrittenVariant>, base: Seq<char>)
    requires
        forall|i: int| 0 <= i < variants.len() ==> is_written_variant(#[trigger] variants[i], base),
    ensures
        forall|i: int|
            0 <= i < variants_lines(variants).len() ==> is_line(
                #[trigger] variants_lines(variants)[i],
            ),
    decreases variants.len(),
{
    if variants.len() > 0 {
        let before = variants.drop_last();
        let v = variants.last();
        let all = variants_lines(variants);
        let some = variants_lines(before);
        assert forall|i: int| 0 <= i < before.len() implies is_written_variant(
            #[trigger] before[i],
            base,
        ) by {
            assert(before[i] == variants[i]);
        }
        variants_lines_are_lines(before, base);
        assert(is_written_variant(variants[variants.len() - 1], base));
        literals_are_lines();
        reveal_strlit("BANDWIDTH=");
        reveal_strlit(",CODECS=\"");
        digits_are_trimmed(v.bandwidth as nat);
        let d = digits(v.bandwidth as nat);
        let value = variant_value(v);
        let tail = match v.codecs {
            Some(cs) => ",CODECS=\""@ + put_together(cs, ',') + seq!['"'],
            None => Seq::empty(),
        };
        if let Some(cs) = v.codecs {
            list_holds_no_quote(cs);
            let list = put_together(cs, ',');
            assert forall|i: int| 0 <= i < tail.len() implies #[trigger] tail[i] != '\n' by {
                if i < 9 {
                    assert(tail[i] == ",CODECS=\""@[i]);
                } else if i < 9 + list.len() {
                    assert(tail[i] == list[i - 9]);
                }
            }
            assert(value.last() == '"');
        } else {
            assert(value.last() == d.last());
        }
        assert forall|i: int| 0 <= i < value.len() implies #[trigger] value[i] != '\n' by {
            if i < 10 {
                assert(value[i] == "BANDWIDTH="@[i]);
            } else if i < 10 + d.len() {
                assert(value[i] == d[i - 10]);
            } else {
                assert(value[i] == tail[i - 10 - d.len()]);
            }
        }
        a_tag_line_is_a_line("EXT-X-STREAM-INF"@, value);
        assert forall|i: int| 0 <= i < all.len() implies is_line(#[trigger] all[i]) by {
            if i < some.len() {
                assert(all[i] == some[i]);
            } else if i == some.len() {
                assert(all[i] == tag_line("EXT-X-STREAM-INF"@, value));
            } else {
                assert(all[i] == v.uri);
            }
        }
    }
}

} // verus!
