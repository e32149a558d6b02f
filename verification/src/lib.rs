//! Retrieval of closed-caption transcripts for hosted videos.
//!
//! The crate contains the verified core of the pipeline: identifier
//! normalization, page scanning, the playability gate, catalog extraction,
//! catalog lookups, and the timed-text decoder. Network transport lives
//! outside the library and hands plain values in and out.

use vstd::prelude::*;

mod catalog;
mod decoder;
mod error;
mod extract;
mod fetch;
mod page;
mod playability;
mod resolver;
mod text;

pub use catalog::TranscriptInfo;
pub use catalog::TranscriptList;
pub use catalog::TranslationLanguage;
pub use decoder::parse_captions;
pub use decoder::TranscriptItem;
pub use error::TranscriptError;
pub use extract::extract_catalog;
pub use extract::PlayerResponse;
pub use extract::RawCaptionTrack;
pub use extract::RawCaptions;
pub use extract::RawTranslationLanguage;
pub use fetch::assemble_transcript_response;
pub use fetch::classify_http_status;
pub use fetch::innertube_body;
pub use fetch::innertube_url;
pub use fetch::prepare_transcript_url;
pub use fetch::watch_url;
pub use fetch::TranscriptResponse;
pub use page::consent_required;
pub use page::create_consent_cookie;
pub use page::extract_innertube_api_key;
pub use playability::assert_playability;
pub use playability::RawPlayabilityStatus;
pub use resolver::extract_video_id;
pub use resolver::video_id_from_parts;
pub use resolver::UrlParts;
pub use text::u64_to_string;

verus! {

/// A valid video identifier character: ASCII alphanumeric, `-` or `_`.
pub open spec fn is_id_char(c: char) -> bool {
    ('a' <= c && c <= 'z') || ('A' <= c && c <= 'Z') || ('0' <= c && c <= '9') || c == '-'
        || c == '_'
}

/// An acceptable bare video identifier: exactly 11 identifier characters.
pub open spec fn is_valid_video_id(s: Seq<char>) -> bool {
    s.len() == 11 && forall|i: int| 0 <= i < s.len() ==> is_id_char(#[trigger] s[i])
}

/// Checks whether `s` is an 11-character video identifier.
pub fn check_video_id(s: &str) -> (r: bool)
    ensures
        r == is_valid_video_id(s@),
{
    let n = s.unicode_len();
    if n != 11 {
        return false;
    }
    let mut i: usize = 0;
    while i < 11
        invariant
            s@.len() == 11,
            0 <= i <= 11,
            forall|j: int| 0 <= j < i ==> is_id_char(#[trigger] s@[j]),
        decreases 11 - i,
    {
        let c = s.get_char(i);
        let ok = ('a' <= c && c <= 'z') || ('A' <= c && c <= 'Z') || ('0' <= c && c <= '9') || c
            == '-' || c == '_';
        if !ok {
            return false;
        }
        i = i + 1;
    }
    true
}

} // verus!
