//! radio-browser's rows made into [`Country`] and [`Station`].

use vstd::prelude::*;

use super::model::{
    country_views, station_views, Codec, Country, CountryView, Station, StationView,
};
use crate::text;
use crate::text::{first_at_is_first, first_at_unique, pieces, trimmed, uppered, views};

verus! {

// ---------------------------------------------------------------------------------------------
// Countries

/// A row of the countries list as served.
#[derive(Debug, Clone, PartialEq, Eq)]
pub struct RawCountry {
    pub name: String,
    pub iso_3166_1: String,
    pub stationcount: u32,
}

/// The code of a row: trimmed, in capitals.
pub open spec fn code_of(r: RawCountry) -> Seq<char> {
    uppered(trimmed(r.iso_3166_1@))
}

/// Two capital letters, and not the `XX` of rows without a country.
pub open spec fn is_code(c: Seq<char>) -> bool {
    &&& c.len() == 2
    &&& 'A' <= c[0] && c[0] <= 'Z'
    &&& 'A' <= c[1] && c[1] <= 'Z'
    &&& c != "XX"@
}

/// Where a code stands in a list; its length when it stands nowhere.
pub open spec fn position(out: Seq<CountryView>, code: Seq<char>) -> int
    decreases out.len(),
{
    if out.len() == 0 || out[0].code == code {
        0
    } else {
        1 + position(out.skip(1), code)
    }
}

/// The sum of two counts, or the greatest count.
pub open spec fn capped_sum(a: u32, b: u32) -> u32 {
    if a + b <= u32::MAX {
        (a + b) as u32
    } else {
        u32::MAX
    }
}

/// A list with one more row: dropped when its code is none, merged when the code is listed.
pub open spec fn with_row(out: Seq<CountryView>, r: RawCountry) -> Seq<CountryView> {
    let code = code_of(r);
    let i = position(out, code);
    if !is_code(code) {
        out
    } else if i < out.len() {
        out.update(
            i,
            CountryView { station_count: capped_sum(out[i].station_count, r.stationcount), ..out[i] },
        )
    } else {
        out.push(CountryView { code, name: trimmed(r.name@), station_count: r.stationcount })
    }
}

/// The countries of the rows.
pub open spec fn merged(rows: Seq<RawCountry>) -> Seq<CountryView>
    decreases rows.len(),
{
    if rows.len() == 0 {
        Seq::empty()
    } else {
        with_row(merged(rows.drop_last()), rows.last())
    }
}

proof fn position_is_first(out: Seq<CountryView>, code: Seq<char>)
    ensures
        0 <= position(out, code) <= out.len(),
        position(out, code) < out.len() ==> out[position(out, code)].code == code,
        forall|i: int| 0 <= i < position(out, code) ==> (#[trigger] out[i]).code != code,
    decreases out.len(),
{
    if out.len() > 0 && out[0].code != code {
        position_is_first(out.skip(1), code);
        assert forall|i: int| 0 <= i < position(out, code) implies (#[trigger] out[i]).code
            != code by {
            if i > 0 {
                assert(out[i] == out.skip(1)[i - 1]);
            }
        }
    }
}

proof fn position_is(out: Seq<CountryView>, code: Seq<char>, n: int)
    requires
        0 <= n <= out.len(),
        n < out.len() ==> out[n].code == code,
        forall|i: int| 0 <= i < n ==> (#[trigger] out[i]).code != code,
    ensures
        position(out, code) == n,
{
    position_is_first(out, code);
    let p = position(out, code);
    if p < n {
        assert(out[p].code != code);
    }
    if n < p {
        assert(out[n].code != code);
    }
}

/// How many stations the rows give for a code.
pub open spec fn stations_for(rows: Seq<RawCountry>, code: Seq<char>) -> nat
    decreases rows.len(),
{
    if rows.len() == 0 {
        0
    } else {
        stations_for(rows.drop_last(), code) + (if code_of(rows.last()) == code {
            rows.last().stationcount as nat
        } else {
            0nat
        })
    }
}

/// Every country stands once, under a proper code, with the stations of all the rows of that code.
pub proof fn countries_are_distinct(rows: Seq<RawCountry>)
    ensures
        forall|i: int|
            0 <= i < merged(rows).len() ==> is_code(#[trigger] merged(rows)[i].code) && merged(
                rows,
            )[i].station_count == (if stations_for(rows, merged(rows)[i].code) <= u32::MAX {
                stations_for(rows, merged(rows)[i].code) as u32
            } else {
                u32::MAX
            }),
        forall|i: int, j: int|
            0 <= i < j < merged(rows).len() ==> (#[trigger] merged(rows)[i]).code != (
            #[trigger] merged(rows)[j]).code,
        forall|i: int|
            0 <= i < rows.len() && is_code(code_of(#[trigger] rows[i])) ==> exists|j: int|
                0 <= j < merged(rows).len() && (#[trigger] merged(rows)[j]).code == code_of(rows[i]),
        forall|code: Seq<char>|
            (forall|j: int| 0 <= j < merged(rows).len() ==> (#[trigger] merged(rows)[j]).code != code)
                && is_code(code) ==> #[trigger] stations_for(rows, code) == 0,
    decreases rows.len(),
{
    if rows.len() > 0 {
        let before = rows.drop_last();
        let r = rows.last();
        let out = merged(before);
        let now = merged(rows);
        let code = code_of(r);
        countries_are_distinct(before);
        position_is_first(out, code);
        let p = position(out, code);
        assert forall|i: int| 0 <= i < now.len() implies is_code(#[trigger] now[i].code)
            && now[i].station_count == (if stations_for(rows, now[i].code) <= u32::MAX {
            stations_for(rows, now[i].code) as u32
        } else {
            u32::MAX
        }) by {
            if i < out.len() {
                assert(now[i].code == out[i].code);
                assert(is_code(out[i].code));
                if i != p && is_code(code) {
                    if p < out.len() {
                        if i < p {
                            assert(out[i].code != out[p].code);
                        } else {
                            assert(out[p].code != out[i].code);
                        }
                    } else {
                        assert(out[i].code != code);
                    }
                }
            } else {
                assert(stations_for(before, code) == 0);
            }
        }
        assert forall|i: int, j: int| 0 <= i < j < now.len() implies (#[trigger] now[i]).code != (
        #[trigger] now[j]).code by {
            if j < out.len() {
                assert(now[i].code == out[i].code && now[j].code == out[j].code);
                assert(out[i].code != out[j].code);
            } else {
                assert(out[i].code != code);
            }
        }
        assert forall|i: int| 0 <= i < rows.len() && is_code(code_of(#[trigger] rows[i])) implies exists|
            j: int,
        | 0 <= j < now.len() && (#[trigger] now[j]).code == code_of(rows[i]) by {
            if i < before.len() {
                assert(rows[i] == before[i]);
                let j = choose|j: int|
                    0 <= j < out.len() && (#[trigger] out[j]).code == code_of(before[i]);
                assert(now[j].code == out[j].code);
            } else if p < out.len() {
                assert(now[p].code == code);
            } else {
                assert(now[out.len() as int].code == code);
            }
        }
        assert forall|c: Seq<char>|
            (forall|j: int| 0 <= j < now.len() ==> (#[trigger] now[j]).code != c) && is_code(
                c,
            ) implies #[trigger] stations_for(rows, c) == 0 by {
            assert forall|j: int| 0 <= j < out.len() implies (#[trigger] out[j]).code != c by {
                assert(now[j].code == out[j].code);
            }
            assert(stations_for(before, c) == 0);
            if code == c {
                if p < out.len() {
                    assert(now[p].code == c);
                } else {
                    assert(now[out.len() as int].code == c);
                }
            }
        }
    }
}

fn is_country_code(c: &[char]) -> (r: bool)
    ensures
        r == is_code(c@),
{
    c.len() == 2 && 'A' <= c[0] && c[0] <= 'Z' && 'A' <= c[1] && c[1] <= 'Z' && !text::is(c, "XX")
}

/// The served rows made into countries:
///
/// - lowercase codes, duplicates of their uppercase rows, are **merged into the uppercase row**
///   (counts added);
/// - **`XX`** and any code that is not two letters are **dropped**: no list could be asked for
///   by them;
/// - order: as served.
pub fn countries(raw: Vec<RawCountry>) -> (out: Vec<Country>)
    ensures
        country_views(out@) == merged(raw@),
{
    let mut out: Vec<Country> = Vec::new();
    let mut k: usize = 0;
    assert(country_views(out@) =~= merged(raw@.take(0)));
    while k < raw.len()
        invariant
            k <= raw.len(),
            country_views(out@) == merged(raw@.take(k as int)),
        decreases raw.len() - k,
    {
        let ghost listed = country_views(out@);
        let r = &raw[k];
        proof {
            assert(raw@.take(k + 1).drop_last() =~= raw@.take(k as int));
            assert(raw@.take(k + 1).last() == *r);
        }
        let iso = text::chars_of(r.iso_3166_1.as_str());
        let code = text::to_uppered(text::trim(&iso));
        if is_country_code(&code) {
            let code = text::string_of(&code);
            let mut i: usize = 0;
            while i < out.len() && out[i].code != code
                invariant
                    i <= out.len(),
                    listed == country_views(out@),
                    forall|j: int| 0 <= j < i ==> (#[trigger] listed[j]).code != code@,
                decreases out.len() - i,
            {
                assert(listed[i as int] == out@[i as int]@);
                i = i + 1;
            }
            proof {
                assert(listed.len() == out@.len());
                if i < out@.len() {
                    assert(listed[i as int] == out@[i as int]@);
                }
                position_is(listed, code@, i as int);
            }
            let ghost before = out@;
            if i < out.len() {
                let sum: u32 = out[i].station_count.saturating_add(r.stationcount);
                out[i].station_count = sum;
                assert(country_views(out@) =~= with_row(listed, *r));
            } else {
                let name = text::chars_of(r.name.as_str());
                let c = Country {
                    code,
                    name: text::string_of(text::trim(&name)),
                    station_count: r.stationcount,
                };
                out.push(c);
                assert(country_views(out@) =~= with_row(listed, *r));
            }
        }
        k = k + 1;
    }
    assert(raw@.take(raw@.len() as int) =~= raw@);
    out
}

// ---------------------------------------------------------------------------------------------
// Stations

/// A row of a station list as served. The coordinates are the 64 bits of their numbers.
#[derive(Debug, Clone, PartialEq, Eq)]
pub struct RawStation {
    pub stationuuid: String,
    pub name: String,
    pub url_resolved: String,
    pub homepage: String,
    pub favicon: String,
    pub countrycode: String,
    pub codec: String,
    pub bitrate: u32,
    pub hls: u8,
    pub lastcheckok: u8,
    pub votes: i64,
    pub clickcount: i64,
    pub clicktrend: i64,
    pub geo_lat: Option<u64>,
    pub geo_long: Option<u64>,
}

/// The audio codec that one part of a codec string names.
pub open spec fn audio_named(p: Seq<char>) -> Option<Codec> {
    if p == "MP3"@ {
        Some(Codec::Mp3)
    } else if p == "AAC"@ || p == "MP4"@ || p == "AAC-LC"@ {
        Some(Codec::Aac)
    } else if p == "AAC+"@ || p == "AACP"@ || p == "HE-AAC"@ {
        Some(Codec::AacPlus)
    } else if p == "OGG"@ || p == "VORBIS"@ || p == "OPUS"@ {
        Some(Codec::Ogg)
    } else if p == "FLAC"@ {
        Some(Codec::Flac)
    } else {
        None
    }
}

/// One part of a codec string names a video codec.
pub open spec fn names_video(p: Seq<char>) -> bool {
    ||| p == "H.264"@
    ||| p == "H264"@
    ||| p == "H.265"@
    ||| p == "HEVC"@
    ||| p == "AVC"@
    ||| p == "VP8"@
    ||| p == "VP9"@
    ||| p == "MPEG2"@
}

/// The parts of a codec string, trimmed and in capitals.
pub open spec fn codec_parts(raw: Seq<char>) -> Seq<Seq<char>> {
    pieces(raw, ',').map_values(|p: Seq<char>| uppered(trimmed(p)))
}

/// The first audio codec that the parts name.
pub open spec fn first_audio(parts: Seq<Seq<char>>) -> Codec
    decreases parts.len(),
{
    if parts.len() == 0 {
        Codec::Unknown
    } else {
        match audio_named(parts[0]) {
            Some(c) => c,
            None => first_audio(parts.skip(1)),
        }
    }
}

/// The codec of a codec string, and whether it names video.
pub open spec fn codec_of(raw: Seq<char>) -> (Codec, bool) {
    let parts = codec_parts(raw);
    (
        first_audio(parts),
        exists|i: int| 0 <= i < parts.len() && names_video(#[trigger] parts[i]),
    )
}

fn audio_codec(p: &[char]) -> (r: Option<Codec>)
    ensures
        r == audio_named(p@),
{
    if text::is(p, "MP3") {
        Some(Codec::Mp3)
    } else if text::is(p, "AAC") || text::is(p, "MP4") || text::is(p, "AAC-LC") {
        Some(Codec::Aac)
    } else if text::is(p, "AAC+") || text::is(p, "AACP") || text::is(p, "HE-AAC") {
        Some(Codec::AacPlus)
    } else if text::is(p, "OGG") || text::is(p, "VORBIS") || text::is(p, "OPUS") {
        Some(Codec::Ogg)
    } else if text::is(p, "FLAC") {
        Some(Codec::Flac)
    } else {
        None
    }
}

fn is_video(p: &[char]) -> (r: bool)
    ensures
        r == names_video(p@),
{
    text::is(p, "H.264") || text::is(p, "H264") || text::is(p, "H.265") || text::is(p, "HEVC")
        || text::is(p, "AVC") || text::is(p, "VP8") || text::is(p, "VP9") || text::is(p, "MPEG2")
}

/// Reads a codec string. Comma-separated lists name every stream in a container; a video codec
/// anywhere in it flags video.
pub fn codec(raw: &str) -> (r: (Codec, bool))
    ensures
        r == codec_of(raw@),
{
    let chars = text::chars_of(raw);
    let split = text::split(&chars, ',');
    let ghost parts = codec_parts(raw@);
    let mut audio: Option<Codec> = None;
    let mut video = false;
    let mut i: usize = 0;
    assert(views(split@).len() == split@.len());
    assert(parts.skip(0) =~= parts);
    while i < split.len()
        invariant
            i <= split.len(),
            views(split@) == pieces(raw@, ','),
            parts == codec_parts(raw@),
            parts.len() == split.len(),
            video == exists|j: int| 0 <= j < i && names_video(#[trigger] parts[j]),
            first_audio(parts) == (match audio {
                Some(c) => c,
                None => first_audio(parts.skip(i as int)),
            }),
        decreases split.len() - i,
    {
        let p = text::to_uppered(text::trim(split[i]));
        assert(p@ == parts[i as int]) by {
            assert(views(split@)[i as int] == split@[i as int]@);
        }
        assert(parts.skip(i as int).skip(1) =~= parts.skip(i + 1));
        if is_video(&p) {
            video = true;
        }
        if audio.is_none() {
            audio = audio_codec(&p);
        }
        i = i + 1;
    }
    match audio {
        Some(c) => (c, video),
        None => (Codec::Unknown, video),
    }
}

/// The bits of a number that is zero, of either sign.
pub open spec fn is_zero(bits: u64) -> bool {
    bits == 0 || bits == 0x8000_0000_0000_0000
}

/// A position: both coordinates, and not both zero.
pub open spec fn geo_of(lat: Option<u64>, lng: Option<u64>) -> Option<(u64, u64)> {
    match (lat, lng) {
        (Some(a), Some(b)) => if is_zero(a) && is_zero(b) {
            None
        } else {
            Some((a, b))
        },
        _ => None,
    }
}

/// The station of a row.
pub open spec fn station_of(r: RawStation) -> StationView {
    StationView {
        uuid: r.stationuuid@,
        name: trimmed(r.name@),
        url: trimmed(r.url_resolved@),
        homepage: r.homepage@,
        favicon: r.favicon@,
        country_code: uppered(r.countrycode@),
        codec: codec_of(r.codec@).0,
        codec_raw: r.codec@,
        bitrate_kbps: if r.bitrate > 0 {
            Some(r.bitrate)
        } else {
            None
        },
        hls: r.hls == 1,
        video: codec_of(r.codec@).1,
        votes: r.votes,
        click_count: r.clickcount,
        click_trend: r.clicktrend,
        geo: geo_of(r.geo_lat, r.geo_long),
        last_check_ok: r.lastcheckok == 1,
    }
}

/// Makes a station of a row.
pub fn station(r: RawStation) -> (s: Station)
    ensures
        s@ == station_of(r),
{
    let (codec, video) = codec(r.codec.as_str());
    let name = text::chars_of(r.name.as_str());
    let url = text::chars_of(r.url_resolved.as_str());
    let country = text::chars_of(r.countrycode.as_str());
    let geo = match (r.geo_lat, r.geo_long) {
        (Some(a), Some(b)) => if (a == 0 || a == 0x8000_0000_0000_0000) && (b == 0 || b
            == 0x8000_0000_0000_0000) {
            None
        } else {
            Some((a, b))
        },
        _ => None,
    };
    Station {
        uuid: r.stationuuid,
        name: text::string_of(text::trim(&name)),
        url: text::string_of(text::trim(&url)),
        homepage: r.homepage,
        favicon: r.favicon,
        country_code: text::string_of(&text::to_uppered(&country)),
        codec,
        codec_raw: r.codec,
        bitrate_kbps: if r.bitrate > 0 {
            Some(r.bitrate)
        } else {
            None
        },
        hls: r.hls == 1,
        video,
        votes: r.votes,
        click_count: r.clickcount,
        click_trend: r.clicktrend,
        geo,
        last_check_ok: r.lastcheckok == 1,
    }
}

/// Makes stations of the rows. This maps and flags; it drops nothing: dropping (broken, no URL,
/// duplicates) is the ranking's job, so every rule has one home.
pub fn stations(raw: Vec<RawStation>) -> (out: Vec<Station>)
    ensures
        station_views(out@) == raw@.map_values(|r: RawStation| station_of(r)),
{
    let mut out: Vec<Station> = Vec::new();
    let ghost all = raw@.map_values(|r: RawStation| station_of(r));
    assert(station_views(out@) =~= all.take(0));
    for r in it: raw
        invariant
            it.seq() == raw@,
            all == raw@.map_values(|r: RawStation| station_of(r)),
            station_views(out@) == all.take(it.index() as int),
    {
        let ghost before = out@;
        let s = station(r);
        out.push(s);
        assert(station_views(out@) =~= station_views(before).push(s@));
        assert(all.take(it.index() + 1) =~= all.take(it.index() as int).push(
            all[it.index() as int],
        ));
    }
    assert(all.take(all.len() as int) =~= all);
    out
}

// ---------------------------------------------------------------------------------------------
// What a row says

/// A row counts for the country of its two letters, in whatever case and with white space around
/// them, unless they are `XX`; a row with anything else counts for none.
pub proof fn a_row_counts_for_its_two_letters(
    r: RawCountry,
    pre: Seq<char>,
    a: char,
    b: char,
    post: Seq<char>,
)
    requires
        forall|i: int| 0 <= i < pre.len() ==> text::white(#[trigger] pre[i]),
        forall|i: int| 0 <= i < post.len() ==> text::white(#[trigger] post[i]),
        r.iso_3166_1@ == pre + seq![a, b] + post,
        !text::white(a) && !text::white(b),
    ensures
        ({
            let (x, y) = (text::upper(a), text::upper(b));
            let letters = 65 <= x as u32 <= 90 && 65 <= y as u32 <= 90;
            &&& code_of(r) == seq![x, y]
            &&& is_code(code_of(r)) <==> letters && !(x == 'X' && y == 'X')
        }),
{
    reveal_strlit("XX");
    text::trimming_takes_the_white_off(pre, seq![a, b], post);
    let (x, y) = (text::upper(a), text::upper(b));
    assert(code_of(r) =~= seq![x, y]);
    if x == 'X' && y == 'X' {
        assert(seq![x, y] =~= "XX"@);
    } else if seq![x, y] == "XX"@ {
        assert(seq![x, y][0] == "XX"@[0] && seq![x, y][1] == "XX"@[1]);
    }
}

/// A country stands where its first row stood, under the name that row gave it: more rows add to the
/// counts and at the end, and change neither the order nor the names.
pub proof fn countries_stand_as_they_were_served(rows: Seq<RawCountry>, r: RawCountry)
    ensures
        ({
            let (before, after) = (merged(rows), merged(rows.push(r)));
            let new = is_code(code_of(r)) && forall|i: int|
                0 <= i < before.len() ==> (#[trigger] before[i]).code != code_of(r);
            &&& after.len() == before.len() + (if new {
                1int
            } else {
                0int
            })
            &&& forall|i: int|
                0 <= i < before.len() ==> (#[trigger] after[i]).code == before[i].code
                    && after[i].name == before[i].name
            &&& new ==> after.last() == (CountryView {
                code: code_of(r),
                name: trimmed(r.name@),
                station_count: r.stationcount,
            })
            &&& !is_code(code_of(r)) ==> after == before
        }),
        merged(Seq::empty()).len() == 0,
{
    let before = merged(rows);
    assert(rows.push(r).drop_last() =~= rows);
    position_is_first(before, code_of(r));
    let p = position(before, code_of(r));
    if p < before.len() {
        assert(before[p].code == code_of(r));
    }
}

/// A codec string with one more part names video when the part does or the rest did, and is of the
/// codec that it was of, or of the part's where it was of none.
pub proof fn a_codec_string_is_read_part_by_part(head: Seq<char>, rest: Seq<char>)
    requires
        forall|i: int| 0 <= i < head.len() ==> #[trigger] head[i] != ',',
    ensures
        codec_of(head.push(',') + rest).1 == (codec_of(head).1 || codec_of(rest).1),
        codec_of(head.push(',') + rest).0 == (if codec_of(head).0 != Codec::Unknown {
            codec_of(head).0
        } else {
            codec_of(rest).0
        }),
{
    let both = head.push(',') + rest;
    let n = head.len() as int;
    assert forall|i: int| 0 <= i < n implies both[i] != ',' by {
        assert(both[i] == head[i]);
    }
    assert(both[n] == ',');
    first_at_unique(both, ',', n);
    first_at_unique(head, ',', n);
    assert(both.take(n) =~= head);
    assert(both.skip(n + 1) =~= rest);
    let part = uppered(trimmed(head));
    let (all, one, more) = (codec_parts(both), codec_parts(head), codec_parts(rest));
    assert(one =~= seq![part]);
    assert(all =~= seq![part] + more);
    assert(all.skip(1) =~= more);
    assert(one.skip(1) =~= Seq::<Seq<char>>::empty());
    assert(first_audio(one.skip(1)) == Codec::Unknown);
    assert(all[0] == part && one[0] == part);
    if codec_of(rest).1 {
        let i = choose|i: int| 0 <= i < more.len() && names_video(#[trigger] more[i]);
        assert(names_video(all[i + 1]));
    }
    if codec_of(both).1 {
        let i = choose|i: int| 0 <= i < all.len() && names_video(#[trigger] all[i]);
        if i == 0 {
            assert(names_video(one[0]));
        } else {
            assert(names_video(more[i - 1]));
        }
    }
    if codec_of(head).1 {
        assert(names_video(one[0]));
        assert(names_video(all[0]));
    }
    assert(audio_named(part) != Some(Codec::Unknown));
}

/// A single part is read without the white space around it and whatever the case of its letters.
pub proof fn one_part_is_read_in_capitals(pre: Seq<char>, p: Seq<char>, post: Seq<char>)
    requires
        forall|i: int| 0 <= i < pre.len() ==> text::white(#[trigger] pre[i]),
        forall|i: int| 0 <= i < post.len() ==> text::white(#[trigger] post[i]),
        p.len() > 0 ==> !text::white(p[0]) && !text::white(p.last()),
        forall|i: int| 0 <= i < p.len() ==> #[trigger] p[i] != ',',
    ensures
        ({
            let c = codec_of(pre + p + post);
            let u = uppered(p);
            &&& u == "MP3"@ ==> c == (Codec::Mp3, false)
            &&& u == "AAC"@ ==> c == (Codec::Aac, false)
            &&& u == "MP4"@ ==> c == (Codec::Aac, false)
            &&& u == "AAC-LC"@ ==> c == (Codec::Aac, false)
            &&& u == "AAC+"@ ==> c == (Codec::AacPlus, false)
            &&& u == "AACP"@ ==> c == (Codec::AacPlus, false)
            &&& u == "HE-AAC"@ ==> c == (Codec::AacPlus, false)
            &&& u == "OGG"@ ==> c == (Codec::Ogg, false)
            &&& u == "VORBIS"@ ==> c == (Codec::Ogg, false)
            &&& u == "OPUS"@ ==> c == (Codec::Ogg, false)
            &&& u == "FLAC"@ ==> c == (Codec::Flac, false)
            &&& u == "H.264"@ || u == "H264"@ || u == "H.265"@ || u == "HEVC"@ || u == "AVC"@ || u
                == "VP8"@ || u == "VP9"@ || u == "MPEG2"@ <==> c.1
            &&& c.1 ==> c.0 == Codec::Unknown
            &&& u == "UNKNOWN"@ || u.len() == 0 ==> c == (Codec::Unknown, false)
        }),
{
    let s = pre + p + post;
    let n = s.len() as int;
    assert forall|i: int| 0 <= i < n implies s[i] != ',' by {
        if i < pre.len() {
            assert(text::white(pre[i]));
        } else if i < pre.len() + p.len() {
            assert(s[i] == p[i - pre.len()]);
        } else {
            assert(s[i] == post[i - pre.len() - p.len()]);
            assert(text::white(post[i - pre.len() - p.len()]));
        }
    }
    text::trimming_takes_the_white_off(pre, p, post);
    first_at_unique(s, ',', n);
    let u = uppered(p);
    let parts = codec_parts(s);
    assert(parts =~= seq![u]);
    assert(parts[0] == u);
    assert(parts.skip(1) =~= Seq::<Seq<char>>::empty());
    assert(first_audio(parts.skip(1)) == Codec::Unknown);
    assert(names_video(u) ==> names_video(parts[0]));
    codec_names_differ();
}

/// No two of the names that are told apart are the same.
proof fn codec_names_differ()
    ensures
        !names_video("MP3"@) && !names_video("AAC"@) && !names_video("MP4"@) && !names_video(
            "AAC-LC"@,
        ) && !names_video("AAC+"@) && !names_video("AACP"@) && !names_video("HE-AAC"@)
            && !names_video("OGG"@) && !names_video("VORBIS"@) && !names_video("OPUS"@)
            && !names_video("FLAC"@) && !names_video("UNKNOWN"@),
        audio_named("AAC"@) == Some(Codec::Aac) && audio_named("MP4"@) == Some(Codec::Aac)
            && audio_named("AAC-LC"@) == Some(Codec::Aac),
        audio_named("AAC+"@) == Some(Codec::AacPlus) && audio_named("AACP"@) == Some(
            Codec::AacPlus,
        ) && audio_named("HE-AAC"@) == Some(Codec::AacPlus),
        audio_named("OGG"@) == Some(Codec::Ogg) && audio_named("VORBIS"@) == Some(Codec::Ogg)
            && audio_named("OPUS"@) == Some(Codec::Ogg),
        audio_named("FLAC"@) == Some(Codec::Flac),
        audio_named("UNKNOWN"@) is None,
        forall|u: Seq<char>| #[trigger] names_video(u) ==> audio_named(u) is None,
        forall|u: Seq<char>| u.len() == 0 ==> #[trigger] audio_named(u) is None && !names_video(u),
{
    reveal_strlit("MP3");
    reveal_strlit("AAC");
    reveal_strlit("MP4");
    reveal_strlit("AAC-LC");
    reveal_strlit("AAC+");
    reveal_strlit("AACP");
    reveal_strlit("HE-AAC");
    reveal_strlit("OGG");
    reveal_strlit("VORBIS");
    reveal_strlit("OPUS");
    reveal_strlit("FLAC");
    reveal_strlit("UNKNOWN");
    reveal_strlit("H.264");
    reveal_strlit("H264");
    reveal_strlit("H.265");
    reveal_strlit("HEVC");
    reveal_strlit("AVC");
    reveal_strlit("VP8");
    reveal_strlit("VP9");
    reveal_strlit("MPEG2");
    // Told apart by length, or else by one character.
    assert("MP3"@.len() == 3 && "MP4"@.len() == 3 && "AAC"@.len() == 3 && "AVC"@.len() == 3
        && "OGG"@.len() == 3 && "VP8"@.len() == 3 && "VP9"@.len() == 3);
    assert("AAC+"@.len() == 4 && "AACP"@.len() == 4 && "OPUS"@.len() == 4 && "FLAC"@.len() == 4
        && "H264"@.len() == 4 && "HEVC"@.len() == 4);
    assert("H.264"@.len() == 5 && "H.265"@.len() == 5 && "MPEG2"@.len() == 5);
    assert("AAC-LC"@.len() == 6 && "HE-AAC"@.len() == 6 && "VORBIS"@.len() == 6);
    assert("UNKNOWN"@.len() == 7);
    assert("MP3"@[0] == 'M' && "MP3"@[2] == '3');
    assert("MP4"@[0] == 'M' && "MP4"@[2] == '4');
    assert("AAC"@[0] == 'A' && "AAC"@[1] == 'A');
    assert("AVC"@[0] == 'A' && "AVC"@[1] == 'V');
    assert("OGG"@[0] == 'O');
    assert("VP8"@[0] == 'V' && "VP8"@[2] == '8');
    assert("VP9"@[0] == 'V' && "VP9"@[2] == '9');
    assert("AAC+"@[0] == 'A' && "AAC+"@[3] == '+');
    assert("AACP"@[0] == 'A' && "AACP"@[3] == 'P');
    assert("OPUS"@[0] == 'O');
    assert("FLAC"@[0] == 'F');
    assert("H264"@[0] == 'H' && "H264"@[1] == '2');
    assert("HEVC"@[0] == 'H' && "HEVC"@[1] == 'E');
    assert("H.264"@[0] == 'H' && "H.264"@[4] == '4');
    assert("H.265"@[0] == 'H' && "H.265"@[4] == '5');
    assert("MPEG2"@[0] == 'M');
    assert("AAC-LC"@[0] == 'A');
    assert("HE-AAC"@[0] == 'H');
    assert("VORBIS"@[0] == 'V');
}

/// A station keeps what its row says: its identifier, the codec string, its links and its numbers as
/// they are; a bitrate of nothing is not known; two coordinates that are both zero are no place.
pub proof fn a_station_is_what_its_row_says(r: RawStation)
    ensures
        ({
            let s = station_of(r);
            &&& s.uuid == r.stationuuid@
            &&& s.homepage == r.homepage@ && s.favicon == r.favicon@ && s.codec_raw == r.codec@
            &&& s.votes == r.votes && s.click_count == r.clickcount && s.click_trend == r.clicktrend
            &&& s.name == trimmed(r.name@) && s.url == trimmed(r.url_resolved@)
            &&& s.country_code.len() == r.countrycode@.len() && forall|i: int|
                0 <= i < r.countrycode@.len() ==> #[trigger] s.country_code[i] == text::upper(
                    r.countrycode@[i],
                )
            &&& (s.codec, s.video) == codec_of(r.codec@)
            &&& r.bitrate == 0 ==> s.bitrate_kbps is None
            &&& r.bitrate > 0 ==> s.bitrate_kbps == Some(r.bitrate)
            &&& s.hls <==> r.hls == 1
            &&& s.last_check_ok <==> r.lastcheckok == 1
            &&& r.geo_lat is None || r.geo_long is None ==> s.geo is None
            &&& r.geo_lat is Some && r.geo_long is Some ==> {
                let (a, b) = (r.geo_lat->0, r.geo_long->0);
                let nowhere = (a == 0 || a == 0x8000_0000_0000_0000) && (b == 0 || b
                    == 0x8000_0000_0000_0000);
                &&& nowhere ==> s.geo is None
                &&& !nowhere ==> s.geo == Some((a, b))
            }
        }),
{
}

} // verus!
