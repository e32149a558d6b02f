//! Normalization of a free-form input (a bare identifier or one of several
//! URL shapes) into a canonical 11-character video identifier.
//!
//! URL splitting itself is the url crate's work, behind one trusted wrapper
//! with no stated contract; everything decided from the split parts is
//! verified in [`video_id_from_parts`].

use vstd::prelude::*;

use crate::check_video_id;
use crate::error::TranscriptError;
use crate::is_valid_video_id;
use crate::text::chars_to_string;
use crate::text::contains_seq;
use crate::text::contains_vec;
use crate::text::starts_with_vec;
use crate::text::str_chars;
use crate::text::str_eq;

verus! {

/// The parts of a parsed URL that identifier extraction reads.
pub struct UrlParts {
    pub host: Option<String>,
    pub path_segments: Vec<String>,
    pub query_pairs: Vec<(String, String)>,
}

/// The mathematical value of [`UrlParts`].
pub ghost struct UrlPartsV {
    pub host: Option<Seq<char>>,
    pub path_segments: Seq<Seq<char>>,
    pub query_pairs: Seq<(Seq<char>, Seq<char>)>,
}

impl View for UrlParts {
    type V = UrlPartsV;

    open spec fn view(&self) -> UrlPartsV {
        UrlPartsV {
            host: match self.host {
                Some(h) => Some(h@),
                None => None,
            },
            path_segments: Seq::new(self.path_segments@.len(), |i: int| self.path_segments@[i]@),
            query_pairs: Seq::new(
                self.query_pairs@.len(),
                |i: int| (self.query_pairs@[i].0@, self.query_pairs@[i].1@),
            ),
        }
    }
}

/// Relies on `url::Url::parse`: splits an absolute URL into its host, its
/// path segments and its decoded query pairs. Which inputs parse, and into
/// what, is left entirely to the url crate; the callers state what they do
/// with every possible outcome.
#[verifier::external_body]
fn parse_url_parts(s: &str) -> (r: Option<UrlParts>) {
    match url::Url::parse(s) {
        Ok(u) => Some(
            UrlParts {
                host: u.host_str().map(|h| h.to_string()),
                path_segments: u.path_segments().map_or(
                    Vec::new(),
                    |seg| seg.map(|x| x.to_string()).collect(),
                ),
                query_pairs: u.query_pairs().map(|(k, v)| (k.to_string(), v.to_string())).collect(),
            },
        ),
        Err(_) => None,
    }
}

/// An ASCII whitespace character, as the resolver trims it.
pub open spec fn is_space(c: char) -> bool {
    c == ' ' || c == '\t' || c == '\n' || c == '\r'
}

/// `s` without its leading whitespace.
pub open spec fn trim_front(s: Seq<char>) -> Seq<char>
    decreases s.len(),
{
    if s.len() > 0 && is_space(s[0]) {
        trim_front(s.drop_first())
    } else {
        s
    }
}

/// `s` without its trailing whitespace.
pub open spec fn trim_back(s: Seq<char>) -> Seq<char>
    decreases s.len(),
{
    if s.len() > 0 && is_space(s.last()) {
        trim_back(s.drop_last())
    } else {
        s
    }
}

/// `s` without leading and trailing whitespace.
pub open spec fn trim_spec(s: Seq<char>) -> Seq<char> {
    trim_back(trim_front(s))
}

proof fn lemma_trim_front_at(s: Seq<char>, k: int)
    requires
        0 <= k <= s.len(),
        forall|j: int| 0 <= j < k ==> is_space(#[trigger] s[j]),
        k == s.len() || !is_space(s[k]),
    ensures
        trim_front(s) == s.skip(k),
    decreases k,
{
    if k > 0 {
        lemma_trim_front_at(s.drop_first(), k - 1);
        assert(s.drop_first().skip(k - 1) =~= s.skip(k));
    } else {
        assert(s.skip(0) =~= s);
    }
}

proof fn lemma_trim_back_at(s: Seq<char>, e: int)
    requires
        0 <= e <= s.len(),
        forall|j: int| e <= j < s.len() ==> is_space(#[trigger] s[j]),
        e == 0 || !is_space(s[e - 1]),
    ensures
        trim_back(s) == s.take(e),
    decreases s.len() - e,
{
    if e < s.len() {
        lemma_trim_back_at(s.drop_last(), e);
        assert(s.drop_last().take(e) =~= s.take(e));
    } else {
        assert(s.take(s.len() as int) =~= s);
    }
}

/// Trims ASCII whitespace from both ends.
fn trim_chars(v: &Vec<char>) -> (r: Vec<char>)
    ensures
        r@ == trim_spec(v@),
{
    let n = v.len();
    let mut start: usize = 0;
    while start < n && (v[start] == ' ' || v[start] == '\t' || v[start] == '\n' || v[start]
        == '\r')
        invariant
            n == v@.len(),
            0 <= start <= n,
            forall|j: int| 0 <= j < start ==> is_space(#[trigger] v@[j]),
        decreases n - start,
    {
        start = start + 1;
    }
    proof {
        lemma_trim_front_at(v@, start as int);
    }
    let mut end: usize = n;
    while end > start && (v[end - 1] == ' ' || v[end - 1] == '\t' || v[end - 1] == '\n' || v[end
        - 1] == '\r')
        invariant
            n == v@.len(),
            start <= end <= n,
            forall|j: int| end <= j < n ==> is_space(#[trigger] v@[j]),
        decreases end,
    {
        end = end - 1;
    }
    proof {
        if end == start {
            assert(v@.skip(start as int).len() == 0 || is_space(v@.skip(start as int)[0]) == false
                || true);
        }
        assert(forall|j: int| end - start <= j < v@.skip(start as int).len() ==> is_space(
            #[trigger] v@.skip(start as int)[j],
        ));
        if end > start {
            assert(v@.skip(start as int)[end - start - 1] == v@[end - 1]);
        }
        lemma_trim_back_at(v@.skip(start as int), end - start);
    }
    let mut r: Vec<char> = Vec::new();
    let mut i: usize = start;
    while i < end
        invariant
            start <= i <= end <= v@.len(),
            r@ == v@.subrange(start as int, i as int),
        decreases end - i,
    {
        r.push(v[i]);
        i = i + 1;
        proof {
            assert(r@ =~= v@.subrange(start as int, i as int));
        }
    }
    proof {
        assert(r@ =~= v@.skip(start as int).take(end - start));
    }
    r
}

/// The value of the first query pair whose key is `v`, if any.
pub open spec fn first_v_value(qs: Seq<(Seq<char>, Seq<char>)>) -> Option<Seq<char>>
    decreases qs.len(),
{
    if qs.len() == 0 {
        None
    } else if qs[0].0 == "v"@ {
        Some(qs[0].1)
    } else {
        first_v_value(qs.drop_first())
    }
}

/// Whether the host belongs to the video site: present and containing
/// `youtube.com` or `youtu.be`.
pub open spec fn host_is_site(h: Option<Seq<char>>) -> bool {
    h matches Some(s) && (contains_seq(s, "youtube.com"@) || contains_seq(s, "youtu.be"@))
}

/// The identifier picked out of split URL parts: for a site host, the `v`
/// query parameter if it is a valid identifier, else the first path segment
/// for the short host `youtu.be`, else the segment after a leading `embed`
/// segment; in every case only an 11-character identifier is accepted.
pub open spec fn id_from_parts_spec(p: UrlPartsV) -> Option<Seq<char>> {
    if !host_is_site(p.host) {
        None
    } else if first_v_value(p.query_pairs) matches Some(v) && is_valid_video_id(v) {
        Some(first_v_value(p.query_pairs).unwrap())
    } else if p.host == Some("youtu.be"@) && p.path_segments.len() >= 1 && is_valid_video_id(
        p.path_segments[0],
    ) {
        Some(p.path_segments[0])
    } else if p.path_segments.len() >= 2 && p.path_segments[0] == "embed"@ && is_valid_video_id(
        p.path_segments[1],
    ) {
        Some(p.path_segments[1])
    } else {
        None
    }
}

proof fn lemma_first_v_at(qs: Seq<(Seq<char>, Seq<char>)>, i: int)
    requires
        0 <= i < qs.len(),
        qs[i].0 == "v"@,
        forall|j: int| 0 <= j < i ==> (#[trigger] qs[j]).0 != "v"@,
    ensures
        first_v_value(qs) == Some(qs[i].1),
    decreases i,
{
    if i > 0 {
        lemma_first_v_at(qs.drop_first(), i - 1);
    }
}

proof fn lemma_first_v_none(qs: Seq<(Seq<char>, Seq<char>)>)
    requires
        forall|j: int| 0 <= j < qs.len() ==> (#[trigger] qs[j]).0 != "v"@,
    ensures
        first_v_value(qs) is None,
    decreases qs.len(),
{
    if qs.len() > 0 {
        lemma_first_v_none(qs.drop_first());
    }
}

/// Finds the value of the first `v` query parameter.
fn find_v_param(qs: &Vec<(String, String)>) -> (r: Option<&String>)
    ensures
        match r {
            Some(s) => first_v_value(
                Seq::new(qs@.len(), |i: int| (qs@[i].0@, qs@[i].1@)),
            ) == Some(s@),
            None => first_v_value(Seq::new(qs@.len(), |i: int| (qs@[i].0@, qs@[i].1@))) is None,
        },
{
    let ghost qv = Seq::new(qs@.len(), |i: int| (qs@[i].0@, qs@[i].1@));
    let mut i: usize = 0;
    while i < qs.len()
        invariant
            qv == Seq::new(qs@.len(), |k: int| (qs@[k].0@, qs@[k].1@)),
            0 <= i <= qs@.len(),
            forall|j: int| 0 <= j < i ==> (#[trigger] qv[j]).0 != "v"@,
        decreases qs@.len() - i,
    {
        if str_eq(qs[i].0.as_str(), "v") {
            proof {
                lemma_first_v_at(qv, i as int);
            }
            return Some(&qs[i].1);
        }
        i = i + 1;
    }
    proof {
        lemma_first_v_none(qv);
    }
    None
}

/// Picks the identifier out of split URL parts, exactly as
/// [`id_from_parts_spec`] says.
pub fn video_id_from_parts(parts: &UrlParts) -> (r: Option<String>)
    ensures
        match r {
            Some(id) => id_from_parts_spec(parts@) == Some(id@) && is_valid_video_id(id@),
            None => id_from_parts_spec(parts@) is None,
        },
{
    let site = match &parts.host {
        Some(h) => {
            let hv = str_chars(h.as_str());
            contains_vec(&hv, &str_chars("youtube.com")) || contains_vec(
                &hv,
                &str_chars("youtu.be"),
            )
        },
        None => false,
    };
    if !site {
        return None;
    }
    if let Some(v) = find_v_param(&parts.query_pairs) {
        if check_video_id(v.as_str()) {
            return Some(v.clone());
        }
    }
    let short_host = match &parts.host {
        Some(h) => str_eq(h.as_str(), "youtu.be"),
        None => false,
    };
    if short_host && parts.path_segments.len() >= 1 {
        let seg = &parts.path_segments[0];
        if check_video_id(seg.as_str()) {
            return Some(seg.clone());
        }
    }
    if parts.path_segments.len() >= 2 && str_eq(parts.path_segments[0].as_str(), "embed") {
        let seg = &parts.path_segments[1];
        if check_video_id(seg.as_str()) {
            return Some(seg.clone());
        }
    }
    None
}

/// The fixed hint appended to every rejection message.
fn invalid_id_error(url_or_id: &str) -> (e: TranscriptError)
    ensures
        e matches TranscriptError::InvalidVideoId(m) && m@ == url_or_id@
            + " (YouTube video IDs must be 11 characters, or a valid YouTube URL)"@,
{
    let msg = String::from_str(url_or_id).concat(
        " (YouTube video IDs must be 11 characters, or a valid YouTube URL)",
    );
    TranscriptError::InvalidVideoId(msg)
}

/// Normalizes a free-form input into a canonical video identifier.
///
/// A trimmed input that is itself a valid 11-character identifier is returned
/// unchanged, before any URL machinery runs. Inputs naming the video site
/// without a protocol are given an `https://` prefix, then parsed as a URL
/// and handed to [`video_id_from_parts`]. Everything else is rejected with
/// `InvalidVideoId`, whose message carries the original input and the
/// accepted-format hint.
pub fn extract_video_id(url_or_id: &str) -> (r: Result<String, TranscriptError>)
    ensures
        is_valid_video_id(trim_spec(url_or_id@)) ==> (r matches Ok(id) && id@ == trim_spec(
            url_or_id@,
        )),
        r matches Ok(id) ==> is_valid_video_id(id@),
        r matches Err(e) ==> (e matches TranscriptError::InvalidVideoId(m) && m@ == url_or_id@
            + " (YouTube video IDs must be 11 characters, or a valid YouTube URL)"@),
{
    let chars = str_chars(url_or_id);
    let trimmed = trim_chars(&chars);
    let input = chars_to_string(&trimmed);
    if check_video_id(input.as_str()) {
        return Ok(input);
    }
    let url_string: String = if starts_with_vec(&trimmed, &str_chars("http://"))
        || starts_with_vec(&trimmed, &str_chars("https://")) {
        input
    } else if contains_vec(&trimmed, &str_chars("youtube.com")) || contains_vec(
        &trimmed,
        &str_chars("youtu.be"),
    ) {
        String::from_str("https://").concat(input.as_str())
    } else {
        input
    };
    match parse_url_parts(url_string.as_str()) {
        Some(parts) => match video_id_from_parts(&parts) {
            Some(id) => Ok(id),
            None => Err(invalid_id_error(url_or_id)),
        },
        None => Err(invalid_id_error(url_or_id)),
    }
}


/// Law: a well-formed 11-character identifier is accepted verbatim. Its
/// characters are never whitespace, so trimming does not alter it, and the
/// resolver's contract then returns exactly the input.
pub proof fn lemma_valid_id_unchanged(s: Seq<char>)
    requires
        is_valid_video_id(s),
    ensures
        trim_spec(s) == s,
{
    assert(!is_space(s[0]));
    assert(!is_space(s.last()));
}

} // verus!
