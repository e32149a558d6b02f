//! The error taxonomy of the pipeline. Every failure a caller can see is one
//! of these kinds, and each carries enough context (the video identifier, the
//! requested languages, the upstream reason text) to be actionable.

use vstd::prelude::*;

verus! {

/// A terminal failure of one pipeline call. No kind is retried internally.
#[derive(Debug, Clone, PartialEq, Eq)]
pub enum TranscriptError {
    /// The input could not be normalized into an 11-character identifier.
    InvalidVideoId(String),
    /// A transport failure or a non-2xx response not otherwise classified.
    HttpError(String),
    /// HTTP 429, or a bot-detection marker on the fetched page.
    IpBlocked(String),
    /// The consent wall persisted after the one acknowledged retry.
    FailedToCreateConsentCookie(String),
    /// The page held no API key and no bot-detection marker.
    YouTubeDataUnparsable(String),
    /// A response body that should have been JSON was not.
    JsonParseError(String),
    /// A caption payload that should have been timed text was malformed.
    XmlParseError(String),
    /// Playability said sign-in is required to prove the caller is not a bot.
    RequestBlocked(String),
    /// Playability said the video is age-restricted.
    AgeRestricted(String),
    /// Playability said the video is unavailable.
    VideoUnavailable(String),
    /// Any other playability failure; carries the raw upstream reason.
    VideoUnplayable(String, String),
    /// No captions section, or an empty catalog.
    TranscriptsDisabled(String),
    /// No preferred language code matched; carries the video identifier and
    /// the full requested list.
    NoTranscriptFound(String, Vec<String>),
    /// The selected source track cannot be translated at all.
    NotTranslatable(String),
    /// The requested translation target is not offered by the source track.
    TranslationLanguageNotAvailable(String),
    /// The caption stream demands a proof-of-origin token, which is not
    /// supported.
    PoTokenRequired(String),
}

} // verus!
