//! What the engine tells the outside world.

use vstd::prelude::*;

verus! {

/// Machine-readable reason for a playback failure.
#[derive(Debug, Clone, Copy, PartialEq, Eq, Structural)]
pub enum ErrorCode {
    /// DNS / TCP / TLS failure, or the connection dropped and reconnects were exhausted.
    Network,
    /// The server answered, but not with a usable stream (4xx/5xx, or a non-HTTP status line
    /// such as legacy Shoutcast v1 `ICY 200 OK`).
    Http,
    /// The container or codec could not be identified.
    UnsupportedFormat,
    /// Decoding failed mid-stream.
    Decode,
    /// No output device, or the device rejected every configuration.
    Device,
    /// The URL could not be parsed.
    InvalidUrl,
}

/// The single source of truth for what is shown in the transport area.
#[derive(Debug, PartialEq, Eq)]
pub enum PlaybackState {
    Idle,
    Connecting,
    /// Connected and decoding, but the output ring buffer has not reached its fill target
    /// (initial fill or an underrun after a stall).
    Buffering,
    Playing,
    Paused,
    Reconnecting { attempt: u32 },
    Error { code: ErrorCode, message: String },
}

pub enum StateView {
    Idle,
    Connecting,
    Buffering,
    Playing,
    Paused,
    Reconnecting(u32),
    Error(ErrorCode, Seq<char>),
}

impl View for PlaybackState {
    type V = StateView;

    open spec fn view(&self) -> StateView {
        match self {
            PlaybackState::Idle => StateView::Idle,
            PlaybackState::Connecting => StateView::Connecting,
            PlaybackState::Buffering => StateView::Buffering,
            PlaybackState::Playing => StateView::Playing,
            PlaybackState::Paused => StateView::Paused,
            PlaybackState::Reconnecting { attempt } => StateView::Reconnecting(*attempt),
            PlaybackState::Error { code, message } => StateView::Error(*code, message@),
        }
    }
}

impl Clone for PlaybackState {
    fn clone(&self) -> (s: PlaybackState)
        ensures
            s@ == self@,
    {
        match self {
            PlaybackState::Idle => PlaybackState::Idle,
            PlaybackState::Connecting => PlaybackState::Connecting,
            PlaybackState::Buffering => PlaybackState::Buffering,
            PlaybackState::Playing => PlaybackState::Playing,
            PlaybackState::Paused => PlaybackState::Paused,
            PlaybackState::Reconnecting { attempt } => PlaybackState::Reconnecting {
                attempt: *attempt,
            },
            PlaybackState::Error { code, message } => PlaybackState::Error {
                code: *code,
                message: message.clone(),
            },
        }
    }
}

impl PlaybackState {
    /// Whether two states are the same.
    pub fn same(&self, other: &PlaybackState) -> (r: bool)
        ensures
            r == (self@ == other@),
    {
        match (self, other) {
            (PlaybackState::Idle, PlaybackState::Idle) => true,
            (PlaybackState::Connecting, PlaybackState::Connecting) => true,
            (PlaybackState::Buffering, PlaybackState::Buffering) => true,
            (PlaybackState::Playing, PlaybackState::Playing) => true,
            (PlaybackState::Paused, PlaybackState::Paused) => true,
            (
                PlaybackState::Reconnecting { attempt: a },
                PlaybackState::Reconnecting { attempt: b },
            ) => *a == *b,
            (
                PlaybackState::Error { code: a, message: m },
                PlaybackState::Error { code: b, message: n },
            ) => *a == *b && *m == *n,
            _ => false,
        }
    }
}

/// Facts about the open stream, emitted once the decoder has probed it.
#[derive(Debug, Clone, PartialEq, Eq)]
pub struct StreamInfo {
    /// Container/codec description from the HTTP `Content-Type` (e.g. `audio/mpeg`).
    pub content_type: Option<String>,
    /// From the `icy-br` header, if the server sends it.
    pub bitrate_kbps: Option<u32>,
    /// From the `icy-name` header, if the server sends it.
    pub station_name: Option<String>,
    pub sample_rate: u32,
    pub channels: u16,
}

/// In-band ICY metadata (`StreamTitle`), emitted every time it changes.
#[derive(Debug, Clone, PartialEq, Eq)]
pub struct IcyMetadata {
    pub title: Option<String>,
}

/// How often the download layer reconnected on its own. Cumulative for the current session;
/// emitted whenever it advances.
#[derive(Debug, Clone, Copy, PartialEq, Eq, Structural)]
pub struct ReconnectInfo {
    pub count: u64,
}

/// Everything the engine tells the outside world.
#[derive(Debug, Clone, PartialEq, Eq)]
pub enum EngineEvent {
    State(PlaybackState),
    /// A session plays for the first time.
    Started { station_id: String },
    StreamInfo(StreamInfo),
    Metadata(IcyMetadata),
    Reconnect(ReconnectInfo),
}

pub open spec fn text_view(s: Option<String>) -> Option<Seq<char>> {
    match s {
        Some(t) => Some(t@),
        None => None,
    }
}

} // verus!
