//! What one request for a playlist or a segment comes to. The caller sends the request and
//! reads the body; everything that is decided on the way is decided here.

use vstd::prelude::*;
use vstd::utf8::{decode_utf8, valid_utf8};
use vstd::slice::slice_subrange;

use super::segment;
use super::segment::{
    capped, container_of, gunzip_text, inflate_limit, is_tag, tag_len, tags_len, Container,
    GunzipError, GunzipErrorView, SNIFF_LEN,
};
use super::{
    answer_error, network, network_error, request_error, status_error, unsupported,
    unsupported_error, Kind, PLAYLIST_MAX_BYTES, SEGMENT_MAX_BYTES,
};
use crate::outside::{inflated, lossy_text, text_of_bytes};
use crate::stream::{messages, str_view, ErrorLink, StreamError, StreamErrorView};
use crate::text;
use crate::text::{digits, lowered, trimmed};
use crate::types::{text_view, ErrorCode};

verus! {

/// A request or a read that failed: the error and its causes, outermost first, and the status it
/// carries, if any.
#[derive(Debug, Clone, PartialEq, Eq)]
pub struct ClientError {
    pub chain: Vec<ErrorLink>,
    pub status: Option<u16>,
}

/// The outermost message.
pub open spec fn top_message(e: ClientError) -> Seq<char> {
    if e.chain@.len() > 0 {
        e.chain@[0].message@
    } else {
        Seq::empty()
    }
}

/// The head of an answer.
#[derive(Debug, Clone, PartialEq, Eq)]
pub struct Head {
    /// The URL that answered, after redirects.
    pub url: String,
    pub status: u16,
    /// The status in words.
    pub status_text: String,
    pub retry_after: Option<String>,
    pub content_type: Option<String>,
    pub content_encoding: Option<String>,
}

pub open spec fn is_success(status: u16) -> bool {
    200 <= status < 300
}

/// A `Content-Encoding` header says that the body is a gzip file.
pub open spec fn says_gzip(header: Option<Seq<char>>) -> bool {
    header matches Some(h) && lowered(trimmed(h)) == lowered("gzip"@)
}

pub fn is_gzip(header: &Option<String>) -> (r: bool)
    ensures
        r == says_gzip(text_view(*header)),
{
    match header {
        Some(h) => {
            let chars = text::chars_of(h.as_str());
            text::is_ignoring_case(text::trim(&chars), "gzip")
        },
        None => false,
    }
}

fn as_text(s: &Option<String>) -> (r: Option<&str>)
    ensures
        str_view(r) == text_view(*s),
{
    match s {
        Some(t) => Some(t.as_str()),
        None => None,
    }
}

/// "`what` `url``rest`"
fn said_of(what: &str, url: &str, rest: &str) -> (m: String)
    ensures
        m@ == what@ + url@ + rest@,
{
    what.to_owned().concat(url).concat(rest)
}

/// "`what` `url` is over `max` bytes`rest`"
fn over_text(what: &str, url: &str, max: usize, rest: &str) -> (m: String)
    ensures
        m@ == what@ + url@ + " is over "@ + digits(max as nat) + rest@,
{
    let mut out = text::chars_of(what);
    text::push_str(&mut out, url);
    text::push_str(&mut out, " is over ");
    text::push_digits(&mut out, max as u64);
    text::push_str(&mut out, rest);
    text::string_of(&out)
}

// ---------------------------------------------------------------------------------------------
// A playlist

/// The playlist that a request brought.
#[derive(Debug, Clone, PartialEq, Eq)]
pub struct FetchedPlaylist {
    /// The final URL, after redirects: the base for the playlist's relative URIs.
    pub url: String,
    pub text: String,
}

/// The body of a playlist while it is read.
#[derive(Debug, Clone, PartialEq, Eq)]
pub struct PlaylistBody {
    pub url: String,
    pub gzipped: bool,
    pub body: Vec<u8>,
}

/// What the head of the answer to a playlist request says: the error, or nothing, and the body
/// is read.
pub open spec fn playlist_head_error(kind: Kind, url: Seq<char>, reply: Result<Head, ClientError>)
    -> Option<StreamErrorView> {
    match reply {
        Err(e) => Some(request_error(kind, url, messages(e.chain@), e.status)),
        Ok(h) => if is_success(h.status) {
            None
        } else {
            Some(
                answer_error(kind, h.url@, h.status, h.status_text@, text_view(h.retry_after)),
            )
        },
    }
}

/// Takes the head of the answer to a playlist request sent to `url`.
pub fn playlist_head(kind: Kind, url: &str, reply: Result<Head, ClientError>) -> (r: Result<
    PlaylistBody,
    StreamError,
>)
    ensures
        match r {
            Ok(b) => {
                &&& playlist_head_error(kind, url@, reply) is None
                &&& b.url@ == reply->Ok_0.url@
                &&& b.gzipped == says_gzip(text_view(reply->Ok_0.content_encoding))
                &&& b.body@ == Seq::<u8>::empty()
            },
            Err(e) => playlist_head_error(kind, url@, reply) == Some(e@),
        },
{
    match reply {
        Err(e) => Err(super::classify(kind, url, &e.chain, e.status)),
        Ok(h) => if 200 <= h.status && h.status < 300 {
            let gzipped = is_gzip(&h.content_encoding);
            Ok(PlaylistBody { url: h.url, gzipped, body: Vec::new() })
        } else {
            Err(
                status_error(
                    kind,
                    h.url.as_str(),
                    h.status,
                    h.status_text.as_str(),
                    as_text(&h.retry_after),
                ),
            )
        },
    }
}

/// The error for a playlist that is too long.
pub open spec fn playlist_over(url: Seq<char>) -> StreamErrorView {
    unsupported_error(
        "HLS playlist "@ + url + " is over "@ + digits(PLAYLIST_MAX_BYTES as nat) + " bytes"@,
    )
}

/// What a playlist body inflates to, or why it does not.
pub open spec fn playlist_inflated(url: Seq<char>, r: Result<Seq<u8>, GunzipErrorView>) -> Result<
    Seq<char>,
    StreamErrorView,
> {
    match r {
        Ok(bytes) => Ok(lossy_text(bytes)),
        Err(GunzipErrorView::TooLarge(_)) => Err(
            unsupported_error(
                "HLS playlist "@ + url + " is over "@ + digits(PLAYLIST_MAX_BYTES as nat)
                    + " bytes inflated"@,
            ),
        ),
        Err(GunzipErrorView::Invalid(e)) => Err(
            unsupported_error("HLS playlist "@ + url + ": content-encoding gzip but "@ + e),
        ),
    }
}

/// The bytes of a playlist whose body was read to its end, inflated where the answer said gzip.
pub open spec fn playlist_bytes(b: PlaylistBody) -> Result<Seq<u8>, GunzipErrorView> {
    if b.gzipped {
        capped(inflated(b.body@, inflate_limit(PLAYLIST_MAX_BYTES)), PLAYLIST_MAX_BYTES)
    } else {
        Ok(b.body@)
    }
}

/// The text of a playlist whose body was read to its end.
pub open spec fn playlist_text(b: PlaylistBody) -> Result<Seq<char>, StreamErrorView> {
    playlist_inflated(b.url@, playlist_bytes(b))
}

/// Appends `chunk` to `body` if the two are no longer than `max`.
fn append_within(body: &mut Vec<u8>, chunk: &[u8], max: usize) -> (fits: bool)
    requires
        old(body)@.len() <= max,
    ensures
        fits == (old(body)@.len() + chunk@.len() <= max),
        fits ==> final(body)@ == old(body)@ + chunk@,
        !fits ==> final(body)@ == old(body)@,
{
    if chunk.len() > max - body.len() {
        return false;
    }
    let ghost before = body@;
    body.extend_from_slice(chunk);
    assert(body@ =~= before + chunk@);
    true
}

impl PlaylistBody {
    /// The body is within its cap.
    pub open spec fn wf(&self) -> bool {
        self.body@.len() <= PLAYLIST_MAX_BYTES
    }

    /// Takes one more chunk of the body, or refuses a body that is too long.
    pub fn chunk(&mut self, chunk: &[u8]) -> (r: Result<(), StreamError>)
        requires
            old(self).wf(),
        ensures
            final(self).wf(),
            final(self).url == old(self).url,
            final(self).gzipped == old(self).gzipped,
            match r {
                Ok(_) => final(self).body@ == old(self).body@ + chunk@,
                Err(e) => {
                    &&& old(self).body@.len() + chunk@.len() > PLAYLIST_MAX_BYTES
                    &&& e@ == playlist_over(old(self).url@)
                    &&& final(self).body@ == old(self).body@
                },
            },
    {
        if append_within(&mut self.body, chunk, PLAYLIST_MAX_BYTES) {
            Ok(())
        } else {
            Err(
                unsupported(
                    over_text("HLS playlist ", self.url.as_str(), PLAYLIST_MAX_BYTES, " bytes"),
                ),
            )
        }
    }

    /// The read of the body failed.
    pub fn broke(&self, e: &ClientError) -> (r: StreamError)
        ensures
            r@ == network_error("HLS playlist "@ + self.url@ + ": "@ + top_message(*e)),
    {
        let m = said_of("HLS playlist ", self.url.as_str(), ": ");
        if e.chain.len() > 0 {
            network(m.concat(e.chain[0].message.as_str()))
        } else {
            assert(m@ + Seq::<char>::empty() =~= m@);
            network(m)
        }
    }

    /// The body was read to its end: inflates it where the answer said gzip, and makes text
    /// of it.
    pub fn finish(self) -> (r: Result<FetchedPlaylist, StreamError>)
        ensures
            match r {
                Ok(p) => p.url == self.url && playlist_text(self) == Ok::<
                    Seq<char>,
                    StreamErrorView,
                >(p.text@),
                Err(e) => playlist_text(self) == Err::<Seq<char>, StreamErrorView>(e@),
            },
            playlist_bytes(self) matches Ok(b) ==> (valid_utf8(b) ==> (r matches Ok(p) && p.text@
                == decode_utf8(b))),
    {
        let inflated_body = if self.gzipped {
            segment::gunzip(&self.body, PLAYLIST_MAX_BYTES)
        } else {
            Ok(self.body)
        };
        match playlist_of(self.url.as_str(), inflated_body) {
            Ok(text) => Ok(FetchedPlaylist { url: self.url, text }),
            Err(e) => Err(e),
        }
    }
}

/// Makes text of a playlist body, or says why it did not inflate.
pub fn playlist_of(url: &str, body: Result<Vec<u8>, GunzipError>) -> (r: Result<
    String,
    StreamError,
>)
    ensures
        playlist_inflated(url@, segment::gunzip_view(body)) == (match r {
            Ok(t) => Ok(t@),
            Err(e) => Err(e@),
        }),
        body matches Ok(b) ==> (valid_utf8(b@) ==> (r matches Ok(t) && t@ == decode_utf8(b@))),
{
    match body {
        Ok(bytes) => Ok(text_of_bytes(&bytes)),
        Err(GunzipError::TooLarge(_)) => Err(
            unsupported(
                over_text("HLS playlist ", url, PLAYLIST_MAX_BYTES, " bytes inflated"),
            ),
        ),
        Err(GunzipError::Invalid(e)) => Err(
            unsupported(
                said_of("HLS playlist ", url, ": content-encoding gzip but ").concat(e.as_str()),
            ),
        ),
    }
}

// ---------------------------------------------------------------------------------------------
// A segment

/// The outcome of a segment fetch.
#[derive(Debug, Clone, PartialEq, Eq)]
pub enum SegmentFetch {
    /// The whole body, plus its `Content-Type` as served.
    Body { bytes: Vec<u8>, content_type: Option<String> },
    /// Sniffed on its first bytes and dropped: not ADTS.
    Refused(Container),
    /// 404 or 410: the origin no longer has this segment (the window moved on, or, for a 404,
    /// the edge does not have it yet). Not an error of the station. 401/403 are not this:
    /// access denial is an error, terminal at open, as for a playlist.
    Evicted(u16),
}

/// The body of a segment while it is read.
#[derive(Debug, Clone, PartialEq, Eq)]
pub struct SegmentBody {
    pub uri: String,
    /// Name the container before the whole body is read, and drop what is not ADTS.
    pub sniff_first: bool,
    pub gzipped: bool,
    pub content_type: Option<String>,
    /// A plain body is sniffed as it arrives, so a refused segment is dropped at its head; a
    /// gzipped body can only be sniffed after inflating.
    pub sniffed_early: bool,
    pub body: Vec<u8>,
}

/// What the head of the answer to a segment request comes to.
#[derive(Debug, Clone, PartialEq, Eq)]
pub enum SegmentHead {
    Read(SegmentBody),
    /// 404 or 410.
    Evicted(u16),
}

/// What the bytes of a segment hold after their tags.
pub open spec fn after_tags(b: Seq<u8>) -> Seq<u8> {
    b.skip(tags_len(b) as int)
}

/// The tags have ended within `b` and enough follows to name the container.
pub open spec fn can_sniff(b: Seq<u8>) -> bool {
    tags_len(b) + SNIFF_LEN <= b.len()
}

/// Takes the head of the answer to a request for the segment at `uri`.
pub fn segment_head(uri: &str, sniff_first: bool, reply: Result<Head, ClientError>) -> (r: Result<
    SegmentHead,
    StreamError,
>)
    ensures
        match reply {
            Err(c) => r matches Err(e) && e@ == request_error(
                Kind::Segment,
                uri@,
                messages(c.chain@),
                c.status,
            ),
            Ok(h) => if is_success(h.status) {
                &&& r matches Ok(SegmentHead::Read(b))
                &&& b.uri@ == uri@
                &&& b.sniff_first == sniff_first
                &&& b.gzipped == says_gzip(text_view(h.content_encoding))
                &&& text_view(b.content_type) == (match h.content_type {
                    Some(t) => Some(trimmed(t@)),
                    None => None,
                })
                &&& !b.sniffed_early
                &&& b.body@ == Seq::<u8>::empty()
                &&& b.wf()
            } else if h.status == 404 || h.status == 410 {
                r matches Ok(SegmentHead::Evicted(s)) && s == h.status
            } else {
                r matches Err(e) && e@ == answer_error(
                    Kind::Segment,
                    h.url@,
                    h.status,
                    h.status_text@,
                    text_view(h.retry_after),
                )
            },
        },
{
    match reply {
        Err(c) => Err(super::classify(Kind::Segment, uri, &c.chain, c.status)),
        Ok(h) => if 200 <= h.status && h.status < 300 {
            let gzipped = is_gzip(&h.content_encoding);
            let content_type = match &h.content_type {
                Some(t) => {
                    let chars = text::chars_of(t.as_str());
                    Some(text::string_of(text::trim(&chars)))
                },
                None => None,
            };
            Ok(
                SegmentHead::Read(
                    SegmentBody {
                        uri: uri.to_owned(),
                        sniff_first,
                        gzipped,
                        content_type,
                        sniffed_early: false,
                        body: Vec::new(),
                    },
                ),
            )
        } else if h.status == 404 || h.status == 410 {
            Ok(SegmentHead::Evicted(h.status))
        } else {
            Err(
                status_error(
                    Kind::Segment,
                    h.url.as_str(),
                    h.status,
                    h.status_text.as_str(),
                    as_text(&h.retry_after),
                ),
            )
        },
    }
}

/// The error for a segment that is too long.
pub open spec fn segment_over(uri: Seq<char>) -> StreamErrorView {
    network_error(
        "HLS segment "@ + uri + " is over "@ + digits(SEGMENT_MAX_BYTES as nat) + " bytes"@,
    )
}

/// What a segment body that was read to its end holds, or why it does not inflate.
pub open spec fn segment_bytes(b: SegmentBody) -> Result<Seq<u8>, GunzipErrorView> {
    if b.gzipped {
        capped(inflated(b.body@, inflate_limit(SEGMENT_MAX_BYTES)), SEGMENT_MAX_BYTES)
    } else {
        Ok(b.body@)
    }
}

/// `r` is what becomes of the segment `b` whose body holds `bytes`.
pub open spec fn is_segment_outcome(
    b: SegmentBody,
    bytes: Result<Seq<u8>, GunzipErrorView>,
    r: Result<SegmentFetch, StreamError>,
) -> bool {
    match bytes {
        Err(g) => r matches Err(e) && e@ == network_error(
            "HLS segment "@ + b.uri@ + ": gzip: "@ + gunzip_text(g),
        ),
        Ok(bytes) => {
            let c = container_of(after_tags(bytes));
            if b.sniff_first && !b.sniffed_early && c != Container::Adts {
                r matches Ok(SegmentFetch::Refused(k)) && k == c
            } else {
                &&& r matches Ok(SegmentFetch::Body { bytes: whole, content_type })
                &&& whole@ == bytes
                &&& content_type == b.content_type
            }
        },
    }
}

impl SegmentBody {
    /// The body is within its cap, and a container named early was ADTS.
    pub open spec fn wf(&self) -> bool {
        &&& self.body@.len() <= SEGMENT_MAX_BYTES
        &&& self.sniffed_early ==> {
            &&& self.sniff_first
            &&& !self.gzipped
            &&& can_sniff(self.body@)
            &&& container_of(after_tags(self.body@)) == Container::Adts
        }
    }

    /// A plain body that is to be sniffed, and was not yet.
    pub open spec fn awaits_sniff(&self) -> bool {
        self.sniff_first && !self.gzipped && !self.sniffed_early
    }

    /// Takes one more chunk of the body. `Some` is the container of a segment that is refused:
    /// the rest of it is not read.
    pub fn chunk(&mut self, chunk: &[u8]) -> (r: Result<Option<Container>, StreamError>)
        requires
            old(self).wf(),
        ensures
            final(self).uri == old(self).uri,
            final(self).sniff_first == old(self).sniff_first,
            final(self).gzipped == old(self).gzipped,
            final(self).content_type == old(self).content_type,
            ({
                let grown = old(self).body@ + chunk@;
                let sniffs = old(self).awaits_sniff() && can_sniff(grown);
                let c = container_of(after_tags(grown));
                if grown.len() > SEGMENT_MAX_BYTES {
                    &&& r matches Err(e)
                    &&& e@ == segment_over(old(self).uri@)
                    &&& final(self).body@ == old(self).body@
                } else if sniffs && c != Container::Adts {
                    &&& r matches Ok(Some(k))
                    &&& k == c
                    &&& final(self).body@ == grown
                } else {
                    &&& r matches Ok(None)
                    &&& final(self).body@ == grown
                    &&& final(self).sniffed_early == (old(self).sniffed_early || sniffs)
                    &&& final(self).wf()
                }
            }),
    {
        let ghost before = self.body@;
        if !append_within(&mut self.body, chunk, SEGMENT_MAX_BYTES) {
            return Err(
                network(over_text("HLS segment ", self.uri.as_str(), SEGMENT_MAX_BYTES, " bytes")),
            );
        }
        if self.sniffed_early {
            proof {
                sniff_is_stable(before, chunk@);
            }
            return Ok(None);
        }
        if self.sniff_first && !self.gzipped {
            let tags: usize = segment::id3_end(&self.body);
            // The tags are complete once `id3_end` lands inside the buffer, and the sniff needs
            // `SNIFF_LEN` bytes after them.
            if self.body.len() - tags >= SNIFF_LEN {
                self.sniffed_early = true;
                let rest: &[u8] = slice_subrange(&self.body, tags, self.body.len());
                assert(rest@ =~= after_tags(self.body@));
                let container = segment::sniff(rest);
                if container != Container::Adts {
                    return Ok(Some(container));
                }
            }
        }
        Ok(None)
    }

    /// The read of the body failed.
    pub fn broke(&self, e: &ClientError) -> (r: StreamError)
        ensures
            r@ == request_error(Kind::Segment, self.uri@, messages(e.chain@), e.status),
    {
        super::classify(Kind::Segment, self.uri.as_str(), &e.chain, e.status)
    }

    /// The body was read to its end: inflates it where the answer said gzip, and names the
    /// container where that is still to do.
    pub fn finish(self) -> (r: Result<SegmentFetch, StreamError>)
        requires
            self.wf(),
        ensures
            is_segment_outcome(self, segment_bytes(self), r),
            r matches Ok(SegmentFetch::Body { bytes, .. }) ==> bytes@.len() <= SEGMENT_MAX_BYTES
                && (self.sniff_first ==> container_of(after_tags(bytes@)) == Container::Adts),
    {
        let gzipped = self.gzipped;
        let SegmentBody { uri, sniff_first, gzipped: _, content_type, sniffed_early, body } = self;
        let bytes = if gzipped {
            segment::gunzip(&body, SEGMENT_MAX_BYTES)
        } else {
            Ok(body)
        };
        finish_segment(uri.as_str(), sniff_first && !sniffed_early, content_type, bytes)
    }
}

/// Names the container of a whole segment where `sniff` asks for it, and refuses what is not
/// ADTS.
pub fn finish_segment(
    uri: &str,
    sniff: bool,
    content_type: Option<String>,
    bytes: Result<Vec<u8>, GunzipError>,
) -> (r: Result<SegmentFetch, StreamError>)
    ensures
        match bytes {
            Err(g) => r matches Err(e) && e@ == network_error(
                "HLS segment "@ + uri@ + ": gzip: "@ + gunzip_text(g@),
            ),
            Ok(bytes) => if sniff && container_of(after_tags(bytes@)) != Container::Adts {
                r matches Ok(SegmentFetch::Refused(k)) && k == container_of(after_tags(bytes@))
            } else {
                r matches Ok(SegmentFetch::Body { bytes: whole, content_type: t }) && whole == bytes
                    && t == content_type
            },
        },
{
    match bytes {
        Err(g) => Err(
            network(said_of("HLS segment ", uri, ": gzip: ").concat(g.message().as_str())),
        ),
        Ok(bytes) => {
            if sniff {
                // The body ended before the sniff had its bytes (a short segment), or it was
                // gzipped and is only now inflated: sniff whatever there is.
                let tags: usize = segment::id3_end(&bytes);
                let rest: &[u8] = slice_subrange(&bytes, tags, bytes.len());
                assert(rest@ =~= after_tags(bytes@));
                let container = segment::sniff(rest);
                if container != Container::Adts {
                    return Ok(SegmentFetch::Refused(container));
                }
            }
            Ok(SegmentFetch::Body { bytes, content_type })
        },
    }
}

/// Once the tags have ended and ten bytes follow them, more bytes do not lengthen the tags.
proof fn tags_are_stable(b: Seq<u8>, more: Seq<u8>)
    requires
        tags_len(b) + 10 <= b.len(),
    ensures
        tags_len(b + more) == tags_len(b),
    decreases b.len(),
{
    let all = b + more;
    assert(forall|i: int| 0 <= i < 10 ==> all[i] == b[i]);
    if is_tag(b) {
        let n = tag_len(b) as int;
        assert(tag_len(all) == n);
        tags_are_stable(b.skip(n), more);
        assert(all.skip(n) =~= b.skip(n) + more);
    }
}

/// What the first bytes after the tags say of the container holds of the whole segment, however
/// it goes on.
pub proof fn sniff_is_stable(b: Seq<u8>, more: Seq<u8>)
    requires
        can_sniff(b),
    ensures
        can_sniff(b + more),
        container_of(after_tags(b + more)) == container_of(after_tags(b)),
{
    tags_are_stable(b, more);
    let head = after_tags(b);
    let all = after_tags(b + more);
    assert(all =~= head + more);
    assert(all.subrange(4, 8) =~= head.subrange(4, 8));
}

// ---------------------------------------------------------------------------------------------
// What an answer comes to

/// The body of a playlist is read exactly when the server answered with a status of the two
/// hundreds. Any other status is an error of HTTP, final for 401, 403, 404 and 410; a request that
/// failed without one is tried again.
pub proof fn a_playlist_is_read_where_it_is_served(
    kind: Kind,
    url: Seq<char>,
    reply: Result<Head, ClientError>,
)
    ensures
        ({
            let e = playlist_head_error(kind, url, reply);
            &&& e is None <==> reply is Ok && reply->Ok_0.status as int / 100 == 2
            &&& reply is Ok && e is Some ==> e->0.code == ErrorCode::Http && (e->0.terminal <==> (
            reply->Ok_0.status == 401 || reply->Ok_0.status == 403 || reply->Ok_0.status == 404
                || reply->Ok_0.status == 410))
            &&& reply is Err && reply->Err_0.status is None ==> e->0.code == ErrorCode::Network
                && !e->0.terminal
        }),
{
}

/// A body is taken for a gzip file when the header says so and nothing else, whatever white space
/// is around it and whatever the case of its letters.
pub proof fn gzip_is_said_in_one_word(pre: Seq<char>, word: Seq<char>, post: Seq<char>)
    requires
        forall|i: int| 0 <= i < pre.len() ==> text::white(#[trigger] pre[i]),
        forall|i: int| 0 <= i < post.len() ==> text::white(#[trigger] post[i]),
        word.len() > 0 ==> !text::white(word[0]) && !text::white(word.last()),
    ensures
        says_gzip(Some(pre + word + post)) <==> word.len() == 4 && text::same_letter(word[0], 'g')
            && text::same_letter(word[1], 'z') && text::same_letter(word[2], 'i')
            && text::same_letter(word[3], 'p'),
        !says_gzip(None),
{
    reveal_strlit("gzip");
    text::trimming_takes_the_white_off(pre, word, post);
    text::lowered_alike(word, "gzip"@);
}

/// A segment that came whole is handed on byte for byte, with its content type. While its container
/// is still to be named, it is handed on exactly when what follows its tags is ADTS, and refused by
/// the name of its container otherwise.
pub proof fn what_becomes_of_a_plain_segment(
    b: SegmentBody,
    r: Result<SegmentFetch, StreamError>,
)
    requires
        b.wf(),
        !b.gzipped,
        is_segment_outcome(b, segment_bytes(b), r),
    ensures
        r is Ok,
        !(r->Ok_0 is Evicted),
        r->Ok_0 is Refused <==> b.sniff_first && container_of(b.body@.skip(tags_len(b.body@) as int))
            != Container::Adts,
        r->Ok_0 matches SegmentFetch::Refused(c) ==> c == container_of(
            b.body@.skip(tags_len(b.body@) as int),
        ),
        r->Ok_0 matches SegmentFetch::Body { bytes, content_type } ==> bytes@ == b.body@
            && content_type == b.content_type,
{
}

/// A segment is sniffed as it comes once two packets' worth stands after its tags, 376 bytes.
pub proof fn two_packets_are_enough_to_sniff(b: Seq<u8>)
    ensures
        can_sniff(b) <==> b.len() - tags_len(b) >= 376,
        after_tags(b).len() == b.len() - tags_len(b) || tags_len(b) > b.len(),
{
}

/// The text of a playlist is that of its bytes; one that is too long, or does not inflate, is never
/// played; a segment that is too long is passed over, and its session goes on.
pub proof fn a_playlist_is_its_text(
    url: Seq<char>,
    r: Result<Seq<u8>, GunzipErrorView>,
    b: PlaylistBody,
)
    ensures
        r matches Ok(bytes) ==> playlist_inflated(url, r) == Ok::<Seq<char>, StreamErrorView>(
            lossy_text(bytes),
        ),
        r is Err ==> playlist_inflated(url, r) is Err && playlist_inflated(url, r)->Err_0.terminal,
        playlist_over(url).terminal,
        !segment_over(url).terminal && segment_over(url).code == ErrorCode::Network,
        !b.gzipped ==> playlist_bytes(b) == Ok::<Seq<u8>, GunzipErrorView>(b.body@),
        !b.gzipped ==> playlist_text(b) == Ok::<Seq<char>, StreamErrorView>(lossy_text(b.body@)),
{
}

/// A body is sniffed as it comes when that was asked for, it is not a gzip file, and it was not
/// sniffed yet; and a failed read is told by its outermost message.
pub proof fn which_bodies_are_sniffed_as_they_come(b: SegmentBody, e: ClientError)
    ensures
        b.awaits_sniff() <==> b.sniff_first && !b.gzipped && !b.sniffed_early,
        e.chain@.len() > 0 ==> top_message(e) == e.chain@[0].message@,
        e.chain@.len() == 0 ==> top_message(e).len() == 0,
{
}

} // verus!
