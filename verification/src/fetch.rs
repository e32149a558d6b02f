//! The pure halves of the two fetch pipelines: the URLs and the request body
//! the transport sends, the classification of HTTP statuses, the
//! proof-of-origin guard, and the assembly of the returned transcript. The
//! transport itself stays outside the library and hands back plain values.

use vstd::prelude::*;

use crate::catalog::TranscriptInfo;
use crate::catalog::TranslationLanguage;
use crate::decoder::TranscriptItem;
use crate::error::TranscriptError;
use crate::text::contains_seq;
use crate::text::dec_rep;
use crate::text::str_contains;
use crate::text::str_eq;
use crate::text::u64_to_string;

verus! {

/// The externally returned transcript: the video, the resolved language,
/// the flags, and the ordered caption items.
pub struct TranscriptResponse {
    pub video_id: String,
    pub language: String,
    pub language_code: String,
    pub is_generated: bool,
    pub is_translatable: bool,
    pub transcript: Vec<TranscriptItem>,
}

/// The canonical watch-page URL for a video.
pub fn watch_url(video_id: &str) -> (r: String)
    ensures
        r@ == "https://www.youtube.com/watch?v="@ + video_id@,
{
    String::from_str("https://www.youtube.com/watch?v=").concat(video_id)
}

/// The internal player endpoint keyed by the extracted API key.
pub fn innertube_url(api_key: &str) -> (r: String)
    ensures
        r@ == "https://www.youtube.com/youtubei/v1/player?key="@ + api_key@,
{
    String::from_str("https://www.youtube.com/youtubei/v1/player?key=").concat(api_key)
}

/// The fixed JSON body of the internal API request: an Android client
/// identity plus the video identifier.
pub fn innertube_body(video_id: &str) -> (r: String)
    ensures
        r@
            == "{\"context\":{\"client\":{\"clientName\":\"ANDROID\",\"clientVersion\":\"20.10.38\"}},\"videoId\":\""@
            + video_id@ + "\"}"@,
{
    let mut r = String::from_str(
        "{\"context\":{\"client\":{\"clientName\":\"ANDROID\",\"clientVersion\":\"20.10.38\"}},\"videoId\":\"",
    );
    r.append(video_id);
    r.append("\"}");
    r
}

/// Classifies an HTTP response status: 429 is the distinct blocked kind,
/// any other non-2xx status is a plain HTTP error carrying the status and
/// the reason text, and a 2xx status passes.
pub fn classify_http_status(status: u16, reason: &str, video_id: &str) -> (r: Result<
    (),
    TranscriptError,
>)
    ensures
        status == 429 ==> (r matches Err(e) && e matches TranscriptError::IpBlocked(id) && id@
            == video_id@),
        status != 429 && 200 <= status < 300 ==> r is Ok,
        status != 429 && !(200 <= status < 300) ==> (r matches Err(e) && e matches
            TranscriptError::HttpError(m) && m@ == "HTTP "@ + dec_rep(status as int) + ": "@
            + reason@),
{
    if status == 429 {
        return Err(TranscriptError::IpBlocked(video_id.to_owned()));
    }
    if 200 <= status && status < 300 {
        return Ok(());
    }
    let mut m = String::from_str("HTTP ");
    let digits = u64_to_string(status as u64);
    m.append(digits.as_str());
    m.append(": ");
    m.append(reason);
    Err(TranscriptError::HttpError(m))
}

/// The URL a transcript is fetched from: the track's source URL, with the
/// translation-target parameter appended when translating.
pub open spec fn fetch_url_spec(base_url: Seq<char>, translate_to: Option<&str>) -> Seq<char> {
    match translate_to {
        Some(t) => base_url + "&tlang="@ + t@,
        None => base_url,
    }
}

/// Builds the transcript request URL and refuses a protected stream: a URL
/// carrying the proof-of-origin marker fails with `PoTokenRequired` before
/// any network call.
pub fn prepare_transcript_url(
    video_id: &str,
    track: &TranscriptInfo,
    translate_to: Option<&str>,
) -> (r: Result<String, TranscriptError>)
    ensures
        ({
            let u = fetch_url_spec(track.base_url@, translate_to);
            match r {
                Ok(url) => url@ == u && !contains_seq(u, "&exp=xpe"@),
                Err(e) => contains_seq(u, "&exp=xpe"@) && (e matches
                    TranscriptError::PoTokenRequired(id) && id@ == video_id@),
            }
        }),
{
    let url: String = match translate_to {
        Some(t) => {
            let mut u = track.base_url.clone();
            u.append("&tlang=");
            u.append(t);
            u
        },
        None => track.base_url.clone(),
    };
    if str_contains(url.as_str(), "&exp=xpe") {
        return Err(TranscriptError::PoTokenRequired(video_id.to_owned()));
    }
    Ok(url)
}

/// The display name of the first translation target with code `code`.
pub open spec fn first_translation_name(
    langs: Seq<TranslationLanguage>,
    code: Seq<char>,
) -> Option<Seq<char>>
    decreases langs.len(),
{
    if langs.len() == 0 {
        None
    } else if langs[0].language_code@ == code {
        Some(langs[0].language@)
    } else {
        first_translation_name(langs.drop_first(), code)
    }
}

proof fn lemma_first_translation_at(langs: Seq<TranslationLanguage>, code: Seq<char>, i: int)
    requires
        0 <= i < langs.len(),
        langs[i].language_code@ == code,
        forall|j: int| 0 <= j < i ==> (#[trigger] langs[j]).language_code@ != code,
    ensures
        first_translation_name(langs, code) == Some(langs[i].language@),
    decreases i,
{
    if i > 0 {
        lemma_first_translation_at(langs.drop_first(), code, i - 1);
    }
}

proof fn lemma_first_translation_none(langs: Seq<TranslationLanguage>, code: Seq<char>)
    requires
        forall|j: int| 0 <= j < langs.len() ==> (#[trigger] langs[j]).language_code@ != code,
    ensures
        first_translation_name(langs, code) is None,
    decreases langs.len(),
{
    if langs.len() > 0 {
        lemma_first_translation_none(langs.drop_first(), code);
    }
}

/// The language the returned transcript reports: when translating, the
/// display name of the target among the track's translation list, falling
/// back to the track's own name; otherwise the track's own name.
pub open spec fn reported_language(track: &TranscriptInfo, translate_to: Option<&str>) -> Seq<
    char,
> {
    match translate_to {
        Some(t) => match first_translation_name(track.translation_languages@, t@) {
            Some(n) => n,
            None => track.language@,
        },
        None => track.language@,
    }
}

/// Assembles the returned transcript from the decoded items.
///
/// The reported code is the translation target when one was requested, else
/// the track's own code; the reported language name resolves the target
/// among the track's translation list; and a translated transcript is
/// always reported as generated.
pub fn assemble_transcript_response(
    video_id: &str,
    track: &TranscriptInfo,
    translate_to: Option<&str>,
    transcript: Vec<TranscriptItem>,
) -> (r: TranscriptResponse)
    ensures
        r.video_id@ == video_id@,
        r.language@ == reported_language(track, translate_to),
        r.language_code@ == match translate_to {
            Some(t) => t@,
            None => track.language_code@,
        },
        r.is_generated == (track.is_generated || translate_to is Some),
        r.is_translatable == track.is_translatable,
        r.transcript == transcript,
{
    let language: String = match translate_to {
        Some(t) => {
            let langs = &track.translation_languages;
            let mut i: usize = 0;
            let mut result: String = track.language.clone();
            let mut hit: bool = false;
            while i < langs.len()
                invariant
                    0 <= i <= langs@.len(),
                    langs@ == track.translation_languages@,
                    !hit ==> forall|j: int|
                        0 <= j < i ==> (
                        #[trigger] track.translation_languages@[j]).language_code@ != t@,
                    hit ==> first_translation_name(track.translation_languages@, t@) == Some(
                        result@,
                    ),
                    !hit ==> result@ == track.language@,
                decreases langs@.len() - i,
            {
                if !hit && str_eq(langs[i].language_code.as_str(), t) {
                    proof {
                        lemma_first_translation_at(track.translation_languages@, t@, i as int);
                    }
                    result = langs[i].language.clone();
                    hit = true;
                }
                i = i + 1;
            }
            proof {
                if !hit {
                    lemma_first_translation_none(track.translation_languages@, t@);
                }
            }
            result
        },
        None => track.language.clone(),
    };
    let language_code: String = match translate_to {
        Some(t) => t.to_owned(),
        None => track.language_code.clone(),
    };
    TranscriptResponse {
        video_id: video_id.to_owned(),
        language,
        language_code,
        is_generated: track.is_generated || translate_to.is_some(),
        is_translatable: track.is_translatable,
        transcript,
    }
}

} // verus!
