//! The directory's types.

use vstd::prelude::*;

verus! {

/// A country, after [`crate::stations::normalise::countries`].
#[derive(Debug, PartialEq, Eq)]
pub struct Country {
    /// ISO 3166-1 alpha-2, upper case: the key a station list is asked for by.
    pub code: String,
    pub name: String,
    /// radio-browser's own count for the code (with `hidebroken=true`, the checked-OK count).
    pub station_count: u32,
}

pub struct CountryView {
    pub code: Seq<char>,
    pub name: Seq<char>,
    pub station_count: u32,
}

impl View for Country {
    type V = CountryView;

    open spec fn view(&self) -> CountryView {
        CountryView { code: self.code@, name: self.name@, station_count: self.station_count }
    }
}

impl Clone for Country {
    fn clone(&self) -> (c: Country)
        ensures
            c@ == self@,
    {
        Country {
            code: self.code.clone(),
            name: self.name.clone(),
            station_count: self.station_count,
        }
    }
}

/// A copy of the list.
pub fn copy_countries(v: &Vec<Country>) -> (out: Vec<Country>)
    ensures
        country_views(out@) == country_views(v@),
{
    let mut out: Vec<Country> = Vec::new();
    let mut i: usize = 0;
    assert(country_views(out@) =~= country_views(v@).take(0));
    while i < v.len()
        invariant
            i <= v.len(),
            country_views(out@) == country_views(v@).take(i as int),
        decreases v.len() - i,
    {
        let ghost before = out@;
        let c = v[i].clone();
        out.push(c);
        assert(country_views(out@) =~= country_views(before).push(c@));
        assert(country_views(v@).take(i + 1) =~= country_views(v@).take(i as int).push(
            country_views(v@)[i as int],
        ));
        i = i + 1;
    }
    assert(country_views(v@).take(v@.len() as int) =~= country_views(v@));
    out
}

pub open spec fn country_views(v: Seq<Country>) -> Seq<CountryView> {
    v.map_values(|c: Country| c@)
}

/// How a background refresh ended, so that the page can tell "re-request, the list changed" from
/// "the expired list stays; stop saying refreshing".
#[derive(Debug, Clone, Copy, PartialEq, Eq, Structural)]
pub enum RefreshOutcome {
    /// The fetch landed and the stored list was replaced.
    Landed,
    /// Every attempt failed; whatever was stored stays as it was.
    Failed,
}

/// The audio codec radio-browser reports, normalised from its free-text `codec` field.
#[derive(Debug, Clone, Copy, PartialEq, Eq, Structural)]
pub enum Codec {
    Mp3,
    Aac,
    /// `AAC+` (HE-AAC).
    AacPlus,
    Ogg,
    Flac,
    /// `UNKNOWN`, empty, or anything not listed above.
    Unknown,
}

/// A station, after [`crate::stations::normalise::stations`].
#[derive(Debug, PartialEq, Eq)]
pub struct Station {
    pub uuid: String,
    /// Trimmed.
    pub name: String,
    /// The playable URL, redirects already followed.
    pub url: String,
    pub homepage: String,
    pub favicon: String,
    pub country_code: String,
    pub codec: Codec,
    /// The `codec` string as served (`MP3`, `AAC+`, `AAC,H.264`, `UNKNOWN`, or nothing).
    pub codec_raw: String,
    /// `None` when radio-browser reports 0: unknown, not broken.
    pub bitrate_kbps: Option<u32>,
    /// radio-browser's `hls == 1`.
    pub hls: bool,
    /// The codec string names a video codec: a TV feed listed as radio.
    pub video: bool,
    pub votes: i64,
    pub click_count: i64,
    pub click_trend: i64,
    /// Latitude and longitude, each as the 64 bits of its number; `None` when either is missing
    /// **or both are 0** (a known default, not a position).
    pub geo: Option<(u64, u64)>,
    /// The last check found the stream playing.
    pub last_check_ok: bool,
}

pub struct StationView {
    pub uuid: Seq<char>,
    pub name: Seq<char>,
    pub url: Seq<char>,
    pub homepage: Seq<char>,
    pub favicon: Seq<char>,
    pub country_code: Seq<char>,
    pub codec: Codec,
    pub codec_raw: Seq<char>,
    pub bitrate_kbps: Option<u32>,
    pub hls: bool,
    pub video: bool,
    pub votes: i64,
    pub click_count: i64,
    pub click_trend: i64,
    pub geo: Option<(u64, u64)>,
    pub last_check_ok: bool,
}

impl View for Station {
    type V = StationView;

    open spec fn view(&self) -> StationView {
        StationView {
            uuid: self.uuid@,
            name: self.name@,
            url: self.url@,
            homepage: self.homepage@,
            favicon: self.favicon@,
            country_code: self.country_code@,
            codec: self.codec,
            codec_raw: self.codec_raw@,
            bitrate_kbps: self.bitrate_kbps,
            hls: self.hls,
            video: self.video,
            votes: self.votes,
            click_count: self.click_count,
            click_trend: self.click_trend,
            geo: self.geo,
            last_check_ok: self.last_check_ok,
        }
    }
}

impl Clone for Station {
    fn clone(&self) -> (s: Station)
        ensures
            s@ == self@,
    {
        Station {
            uuid: self.uuid.clone(),
            name: self.name.clone(),
            url: self.url.clone(),
            homepage: self.homepage.clone(),
            favicon: self.favicon.clone(),
            country_code: self.country_code.clone(),
            codec: self.codec,
            codec_raw: self.codec_raw.clone(),
            bitrate_kbps: self.bitrate_kbps,
            hls: self.hls,
            video: self.video,
            votes: self.votes,
            click_count: self.click_count,
            click_trend: self.click_trend,
            geo: self.geo,
            last_check_ok: self.last_check_ok,
        }
    }
}

pub open spec fn station_views(v: Seq<Station>) -> Seq<StationView> {
    v.map_values(|s: Station| s@)
}

/// Where a listed result came from.
#[derive(Debug, Clone, Copy, PartialEq, Eq, Structural)]
pub enum CacheSource {
    /// Fetched from the network for this request.
    Fresh,
    /// Served from the store: fresh within its time to live, or expired and being refreshed. A
    /// refresh that failed leaves the list `Cached` with its age.
    Cached,
}

/// The countries list with its provenance.
#[derive(Debug, Clone, PartialEq, Eq)]
pub struct ListedCountries {
    pub items: Vec<Country>,
    /// Unix seconds when the network answered.
    pub fetched_at: i64,
    pub age_secs: u64,
    pub source: CacheSource,
    /// A background refresh is in flight for this list; an event follows when it ends.
    pub refreshing: bool,
}

/// One country's station list with its provenance.
#[derive(Debug, Clone, PartialEq, Eq)]
pub struct ListedStations {
    pub country_code: String,
    pub items: Vec<Station>,
    pub fetched_at: i64,
    pub age_secs: u64,
    pub source: CacheSource,
    pub refreshing: bool,
}

/// A station, and a country, is seen as it is: every field as it stands.
pub proof fn what_is_listed_is_seen_as_it_is(s: Station, c: Country)
    ensures
        s@.uuid == s.uuid@ && s@.name == s.name@ && s@.url == s.url@ && s@.homepage == s.homepage@
            && s@.favicon == s.favicon@ && s@.country_code == s.country_code@ && s@.codec_raw
            == s.codec_raw@,
        s@.codec == s.codec && s@.bitrate_kbps == s.bitrate_kbps && s@.hls == s.hls && s@.video
            == s.video && s@.votes == s.votes && s@.click_count == s.click_count && s@.click_trend
            == s.click_trend && s@.geo == s.geo && s@.last_check_ok == s.last_check_ok,
        c@.code == c.code@ && c@.name == c.name@ && c@.station_count == c.station_count,
{
}

} // verus!
