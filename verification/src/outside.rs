//! What the library takes from outside without proof: calls into other crates, and the few
//! functions of std that nothing here specifies.

use std::io::Read;

use flate2::read::GzDecoder;
use url::Url;
use vstd::prelude::*;

use crate::text::number;
use crate::time::NANOS_PER_SEC;

verus! {

/// What resolving a reference against a base URL gives: the text of the resolved URL, or the
/// text of the error.
pub uninterp spec fn joined(base: Seq<char>, reference: Seq<char>) -> Result<
    Seq<char>,
    Seq<char>,
>;

/// `url::Url::join`, on the URL that `base` writes; the error of reading `base` where it writes
/// none. The result is a function of the two texts alone; what it is for given texts is left
/// unsaid.
#[verifier::external_body]
pub(crate) fn url_join(base: &str, reference: &str) -> (r: Result<String, String>)
    ensures
        joined(base@, reference@) == (match r {
            Ok(u) => Ok(u@),
            Err(e) => Err(e@),
        }),
{
    let resolved = match Url::parse(base) {
        Ok(b) => b.join(reference),
        Err(e) => Err(e),
    };
    match resolved {
        Ok(u) => Ok(u.to_string()),
        Err(e) => Err(e.to_string()),
    }
}

/// What parsing an absolute URL gives: its text in normal form, or the text of the error.
pub uninterp spec fn parsed_url(text: Seq<char>) -> Result<Seq<char>, Seq<char>>;

/// `url::Url::parse`. The result is a function of the text alone; what it is for a given text
/// is left unsaid.
#[verifier::external_body]
pub(crate) fn url_parse(text: &str) -> (r: Result<String, String>)
    ensures
        parsed_url(text@) == (match r {
            Ok(u) => Ok(u@),
            Err(e) => Err(e@),
        }),
{
    match Url::parse(text) {
        Ok(u) => Ok(u.to_string()),
        Err(e) => Err(e.to_string()),
    }
}

/// The span that a text writes as a decimal number of seconds, in nanoseconds; `None` when the
/// text is no number, or the number is negative, not finite, or longer than a
/// `core::time::Duration` holds.
pub uninterp spec fn written_seconds(text: Seq<char>) -> Option<u128>;

/// `core::time::Duration::try_from_secs_f64`, on the number that `text` writes. The result is
/// a function of the text alone, and exact where the text is a whole number of 32 bits; how
/// anything else rounds is left unsaid.
#[verifier::external_body]
pub(crate) fn seconds_written(text: &str) -> (r: Option<u128>)
    ensures
        r == written_seconds(text@),
        number(text@, u32::MAX as nat) matches Some(n) ==> r == Some(
            (n * NANOS_PER_SEC) as u128,
        ),
{
    match text.parse() {
        Ok(s) => match core::time::Duration::try_from_secs_f64(s) {
            Ok(d) => Some(d.as_nanos()),
            Err(_) => None,
        },
        Err(_) => None,
    }
}

/// A text in quotes, with what a listing escapes escaped.
pub uninterp spec fn quoted(text: Seq<char>) -> Seq<char>;

/// The `Debug` form of a `str`. The result is a function of the text alone; the escapes are
/// left unsaid.
#[verifier::external_body]
pub(crate) fn quote(text: &str) -> (r: String)
    ensures
        r@ == quoted(text@),
{
    format!("{text:?}")
}

/// What a gzip body inflates to, up to `limit` bytes of it, or the text of the error met on the
/// way.
pub uninterp spec fn inflated(body: Seq<u8>, limit: u64) -> Result<Seq<u8>, Seq<char>>;

/// `flate2::read::GzDecoder`, read to its end or to `limit` inflated bytes, whichever comes first. The
/// result is a function of the body and the limit alone, and never longer than the limit; what
/// it is for a given body is left unsaid.
#[verifier::external_body]
pub(crate) fn inflate(body: &[u8], limit: u64) -> (r: Result<Vec<u8>, String>)
    ensures
        inflated(body@, limit) == (match r {
            Ok(v) => Ok(v@),
            Err(e) => Err(e@),
        }),
        r matches Ok(v) ==> v@.len() <= limit,
{
    let mut out = Vec::new();
    match GzDecoder::new(body).take(limit).read_to_end(&mut out) {
        Ok(_) => Ok(out),
        Err(e) => Err(e.to_string()),
    }
}

/// The text of some bytes, with what is not UTF-8 replaced.
pub uninterp spec fn lossy_text(bytes: Seq<u8>) -> Seq<char>;

/// `String::from_utf8_lossy`. The result is a function of the bytes alone, and the text itself
/// where they are UTF-8; what stands for bytes that are not is left unsaid.
#[verifier::external_body]
pub(crate) fn text_of_bytes(bytes: &[u8]) -> (r: String)
    ensures
        r@ == lossy_text(bytes@),
        vstd::utf8::valid_utf8(bytes@) ==> r@ == vstd::utf8::decode_utf8(bytes@),
{
    String::from_utf8_lossy(bytes).into_owned()
}

/// A text in Unicode lower case.
pub uninterp spec fn unicode_lower(text: Seq<char>) -> Seq<char>;

/// `str::to_lowercase`. The result is a function of the text alone; the tables of Unicode are
/// left unsaid.
#[verifier::external_body]
pub(crate) fn to_unicode_lower(text: &str) -> (r: String)
    ensures
        r@ == unicode_lower(text@),
{
    text.to_lowercase()
}

/// A span of time in words, as a listing writes it.
pub uninterp spec fn span_text(nanos: u128) -> Seq<char>;

/// The `Debug` form of a `core::time::Duration`. The result is a function of the span alone; the
/// unit it picks is left unsaid.
#[verifier::external_body]
pub(crate) fn span_debug(nanos: u128) -> (r: String)
    requires
        nanos / 1_000_000_000 <= u64::MAX,
    ensures
        r@ == span_text(nanos),
{
    format!("{:?}", core::time::Duration::from_nanos_u128(nanos))
}

} // verus!
