//! Scans over the fetched watch page: the consent-wall marker, the hidden
//! consent form value, the bot-detection marker, and the embedded API key.
//! Each scan is a fixed pattern written out as a verified function over the
//! page's characters, with the pattern's grammar as its specification.

use vstd::prelude::*;

use crate::error::TranscriptError;
use crate::is_id_char;
use crate::text::chars_to_string;
use crate::text::contains_seq;
use crate::text::find_from;
use crate::text::first_occurrence_from;
use crate::text::occurs_at;
use crate::text::occurs_at_exec;
use crate::text::str_chars;
use crate::text::str_contains;

verus! {

/// Whether the fetched page shows the consent wall.
pub fn consent_required(html: &str) -> (r: bool)
    ensures
        r == contains_seq(html@, "action=\"https://consent.youtube.com/s\""@),
{
    str_contains(html, "action=\"https://consent.youtube.com/s\"")
}

/// The hidden consent form value: the text between the first occurrence of
/// the form-field prefix and the next quote, if both are present.
pub open spec fn consent_value_spec(h: Seq<char>) -> Option<Seq<char>> {
    let pat = "name=\"v\" value=\""@;
    match first_occurrence_from(h, pat, 0) {
        None => None,
        Some(i) => match first_occurrence_from(h, "\""@, i + pat.len()) {
            None => None,
            Some(j) => Some(h.subrange(i + pat.len(), j)),
        },
    }
}

/// Extracts the hidden consent form value and builds the acknowledgement
/// cookie value from it: `YES+` followed by the form value. Fails with
/// `FailedToCreateConsentCookie` when the form value is not on the page.
pub fn create_consent_cookie(html: &str, video_id: &str) -> (r: Result<String, TranscriptError>)
    ensures
        match r {
            Ok(cookie) => consent_value_spec(html@) matches Some(v) && cookie@ == "YES+"@ + v,
            Err(e) => consent_value_spec(html@) is None && (e matches
                TranscriptError::FailedToCreateConsentCookie(id) && id@ == video_id@),
        },
{
    let h = str_chars(html);
    let pat = str_chars("name=\"v\" value=\"");
    let quote = str_chars("\"");
    let hl: usize = h.len();
    let fail = TranscriptError::FailedToCreateConsentCookie(video_id.to_owned());
    match find_from(&h, &pat, 0) {
        None => Err(fail),
        Some(i) => {
            assert(i + pat@.len() <= hl);
            let after: usize = i + pat.len();
            match find_from(&h, &quote, after) {
                None => Err(fail),
                Some(j) => {
                    let mut value: Vec<char> = Vec::new();
                    let mut k: usize = after;
                    while k < j
                        invariant
                            after <= k <= j <= h@.len(),
                            value@ == h@.subrange(after as int, k as int),
                        decreases j - k,
                    {
                        value.push(h[k]);
                        k = k + 1;
                        proof {
                            assert(value@ =~= h@.subrange(after as int, k as int));
                        }
                    }
                    let mut cookie = String::from_str("YES+");
                    let value_str = chars_to_string(&value);
                    cookie.append(value_str.as_str());
                    Ok(cookie)
                },
            }
        },
    }
}

/// A whitespace character as the key pattern's gap allows it.
pub open spec fn is_gap_char(c: char) -> bool {
    c == ' ' || c == '\t' || c == '\n' || c == '\r' || c == '\u{0b}' || c == '\u{0c}'
}

/// The length of the whitespace run in `h` starting at `i`.
pub open spec fn gap_span(h: Seq<char>, i: int) -> int
    decreases h.len() - i,
{
    if 0 <= i < h.len() && is_gap_char(h[i]) {
        1 + gap_span(h, i + 1)
    } else {
        0
    }
}

/// The length of the identifier-character run in `h` starting at `i`.
pub open spec fn key_span(h: Seq<char>, i: int) -> int
    decreases h.len() - i,
{
    if 0 <= i < h.len() && is_id_char(h[i]) {
        1 + key_span(h, i + 1)
    } else {
        0
    }
}

/// The key captured by the pattern when it matches at position `i`: the
/// labelled field, optional whitespace, then a non-empty quoted run of
/// identifier characters.
pub open spec fn key_at(h: Seq<char>, i: int) -> Option<Seq<char>> {
    let pat = "\"INNERTUBE_API_KEY\":"@;
    if !occurs_at(h, pat, i) {
        None
    } else {
        let a = i + pat.len() + gap_span(h, i + pat.len());
        if a < h.len() && h[a] == '"' {
            let k = key_span(h, a + 1);
            if k > 0 && a + 1 + k < h.len() && h[a + 1 + k] == '"' {
                Some(h.subrange(a + 1, a + 1 + k))
            } else {
                None
            }
        } else {
            None
        }
    }
}

/// The key captured at the first position where the pattern matches.
pub open spec fn scan_key(h: Seq<char>, i: int) -> Option<Seq<char>>
    decreases h.len() - i,
{
    if i < 0 || i >= h.len() {
        None
    } else if key_at(h, i) is Some {
        key_at(h, i)
    } else {
        scan_key(h, i + 1)
    }
}

/// Measures the whitespace run at `i`.
fn gap_span_exec(h: &Vec<char>, i: usize) -> (r: usize)
    requires
        i <= h@.len(),
    ensures
        r == gap_span(h@, i as int),
        i + r <= h@.len(),
{
    let mut j: usize = i;
    while j < h.len() && (h[j] == ' ' || h[j] == '\t' || h[j] == '\n' || h[j] == '\r' || h[j]
        == '\u{0b}' || h[j] == '\u{0c}')
        invariant
            i <= j <= h@.len(),
            gap_span(h@, i as int) == (j - i) + gap_span(h@, j as int),
        decreases h@.len() - j,
    {
        j = j + 1;
    }
    j - i
}

/// Measures the identifier-character run at `i`.
fn key_span_exec(h: &Vec<char>, i: usize) -> (r: usize)
    requires
        i <= h@.len(),
    ensures
        r == key_span(h@, i as int),
        i + r <= h@.len(),
{
    let mut j: usize = i;
    while j < h.len() && (('a' <= h[j] && h[j] <= 'z') || ('A' <= h[j] && h[j] <= 'Z') || ('0'
        <= h[j] && h[j] <= '9') || h[j] == '-' || h[j] == '_')
        invariant
            i <= j <= h@.len(),
            key_span(h@, i as int) == (j - i) + key_span(h@, j as int),
        decreases h@.len() - j,
    {
        j = j + 1;
    }
    j - i
}

/// Evaluates the pattern at position `i`.
fn key_at_exec(h: &Vec<char>, pat: &Vec<char>, i: usize) -> (r: Option<(usize, usize)>)
    requires
        pat@ == "\"INNERTUBE_API_KEY\":"@,
        i < h@.len(),
    ensures
        match r {
            Some(se) => key_at(h@, i as int) == Some(h@.subrange(se.0 as int, se.1 as int))
                && se.0 <= se.1 <= h@.len(),
            None => key_at(h@, i as int) is None,
        },
{
    if pat.len() > h.len() || i > h.len() - pat.len() {
        return None;
    }
    if !occurs_at_exec(h, pat, i) {
        return None;
    }
    let a: usize = i + pat.len() + gap_span_exec(h, i + pat.len());
    if a < h.len() && h[a] == '"' {
        let k = key_span_exec(h, a + 1);
        if k > 0 && a + 1 + k < h.len() && h[a + 1 + k] == '"' {
            return Some((a + 1, a + 1 + k));
        }
    }
    None
}

/// Scans the page for the embedded API key. The bot-detection marker takes
/// precedence: a page showing it fails with `IpBlocked` before any key
/// search. A page with neither the marker nor a key fails with
/// `YouTubeDataUnparsable`.
pub fn extract_innertube_api_key(html: &str, video_id: &str) -> (r: Result<
    String,
    TranscriptError,
>)
    ensures
        contains_seq(html@, "g-recaptcha"@) ==> (r matches Err(e) && e matches
            TranscriptError::IpBlocked(id) && id@ == video_id@),
        !contains_seq(html@, "g-recaptcha"@) ==> match r {
            Ok(key) => scan_key(html@, 0) == Some(key@),
            Err(e) => scan_key(html@, 0) is None && (e matches
                TranscriptError::YouTubeDataUnparsable(id) && id@ == video_id@),
        },
{
    if str_contains(html, "g-recaptcha") {
        return Err(TranscriptError::IpBlocked(video_id.to_owned()));
    }
    let h = str_chars(html);
    let pat = str_chars("\"INNERTUBE_API_KEY\":");
    let mut i: usize = 0;
    while i < h.len()
        invariant
            0 <= i <= h@.len(),
            pat@ == "\"INNERTUBE_API_KEY\":"@,
            h@ == html@,
            !contains_seq(html@, "g-recaptcha"@),
            scan_key(h@, 0) == scan_key(h@, i as int),
        decreases h@.len() - i,
    {
        match key_at_exec(&h, &pat, i) {
            Some((s, e)) => {
                let mut key: Vec<char> = Vec::new();
                let mut k: usize = s;
                while k < e
                    invariant
                        s <= k <= e <= h@.len(),
                        key@ == h@.subrange(s as int, k as int),
                    decreases e - k,
                {
                    key.push(h[k]);
                    k = k + 1;
                    proof {
                        assert(key@ =~= h@.subrange(s as int, k as int));
                    }
                }
                return Ok(chars_to_string(&key));
            },
            None => {
            },
        }
        i = i + 1;
    }
    Err(TranscriptError::YouTubeDataUnparsable(video_id.to_owned()))
}

} // verus!
