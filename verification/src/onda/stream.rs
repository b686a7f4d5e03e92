//! Opening a radio stream over HTTP, for the small player: what a failed open means.

use vstd::prelude::*;

use crate::outside::{parsed_url, url_parse};
use crate::stream::{setting, str_view, PREFETCH_BYTES};
use crate::text;
use crate::text::{holds, lowered};
use crate::types::ErrorCode;

verus! {

/// The head start for a setting.
pub open spec fn head_start(var: Option<Seq<char>>) -> u64 {
    match setting(var) {
        Some(n) => n,
        None => PREFETCH_BYTES,
    }
}

/// How many bytes to buffer before the decoder starts, from the value of the setting.
pub fn prefetch_bytes(var: Option<&str>) -> (n: u64)
    ensures
        n == head_start(str_view(var)),
{
    crate::stream::prefetch_bytes(var, None)
}

#[derive(Debug, Clone, PartialEq, Eq)]
pub struct StreamError {
    pub code: ErrorCode,
    pub message: String,
}

/// What an error of which only the text is known means.
pub open spec fn code_of(message: Seq<char>) -> ErrorCode {
    let lower = lowered(message);
    if holds(lower, "status"@) || holds(lower, "invalid http"@) || holds(lower, "parse"@) || holds(
        lower,
        "version"@,
    ) {
        ErrorCode::Http
    } else {
        ErrorCode::Network
    }
}

/// Best-effort mapping from an error text to a user-facing code. A legacy `ICY 200 OK` status
/// line surfaces as an "invalid HTTP version" style parse error, which is reported as `Http`, not
/// `Network`.
pub fn classify_http_error(message: String) -> (e: StreamError)
    ensures
        e.code == code_of(message@),
        e.message == message,
{
    let chars = text::chars_of(message.as_str());
    let lower = text::to_lowered(&chars);
    let code = if text::contains_str(&lower, "status") || text::contains_str(
        &lower,
        "invalid http",
    ) || text::contains_str(&lower, "parse") || text::contains_str(&lower, "version") {
        ErrorCode::Http
    } else {
        ErrorCode::Network
    };
    StreamError { code, message }
}

/// What a parsed URL means to the one who asked for it: the URL, or the error's code and message.
pub open spec fn checked_url(parsed: Result<Seq<char>, Seq<char>>) -> Result<
    Seq<char>,
    (ErrorCode, Seq<char>),
> {
    match parsed {
        Ok(u) => Ok(u),
        Err(e) => Err((ErrorCode::InvalidUrl, "invalid stream URL: "@ + e)),
    }
}

pub open spec fn url_view(r: Result<String, StreamError>) -> Result<
    Seq<char>,
    (ErrorCode, Seq<char>),
> {
    match r {
        Ok(u) => Ok(u@),
        Err(e) => Err((e.code, e.message@)),
    }
}

/// The URL of a station, in normal form.
pub fn parse_url(url: &str) -> (r: Result<String, StreamError>)
    ensures
        url_view(r) == checked_url(parsed_url(url@)),
{
    check_url(url_parse(url))
}

/// Makes an error of a text that is no URL.
pub fn check_url(parsed: Result<String, String>) -> (r: Result<String, StreamError>)
    ensures
        url_view(r) == checked_url(
            match parsed {
                Ok(u) => Ok(u@),
                Err(e) => Err(e@),
            },
        ),
{
    match parsed {
        Ok(u) => Ok(u),
        Err(e) => Err(
            StreamError {
                code: ErrorCode::InvalidUrl,
                message: "invalid stream URL: ".to_owned().concat(e.as_str()),
            },
        ),
    }
}

/// A text that holds one of four wordings, whatever the case of its letters, is an error of HTTP; any
/// other is one of the network.
pub proof fn four_wordings_are_of_http(message: Seq<char>)
    ensures
        code_of(message) == ErrorCode::Http <==> text::holds_alike(message, "status"@)
            || text::holds_alike(message, "invalid http"@) || text::holds_alike(message, "parse"@)
            || text::holds_alike(message, "version"@),
        code_of(message) == ErrorCode::Http || code_of(message) == ErrorCode::Network,
{
    reveal_strlit("status");
    reveal_strlit("invalid http");
    reveal_strlit("parse");
    reveal_strlit("version");
    assert(lowered("status"@) =~= "status"@);
    assert(lowered("invalid http"@) =~= "invalid http"@);
    assert(lowered("parse"@) =~= "parse"@);
    assert(lowered("version"@) =~= "version"@);
    text::lowered_holds_alike(message, "status"@);
    text::lowered_holds_alike(message, "invalid http"@);
    text::lowered_holds_alike(message, "parse"@);
    text::lowered_holds_alike(message, "version"@);
}

/// The head start is 32768 bytes, or what is set; and a URL that parsed is taken as it is.
pub proof fn settings_and_urls_are_taken(n: u64, parsed: Result<Seq<char>, Seq<char>>)
    ensures
        head_start(None) == 32_768,
        head_start(Some(text::digits(n as nat))) == n,
        parsed matches Ok(u) ==> checked_url(parsed) == Ok::<Seq<char>, (ErrorCode, Seq<char>)>(u),
        parsed is Err ==> checked_url(parsed) is Err && checked_url(parsed)->Err_0.0
            == ErrorCode::InvalidUrl,
{
    text::digits_read_back(n as nat, u64::MAX as nat);
}

} // verus!
