//! The playability gate: classifies the playability block of the internal
//! API response and raises the matching failure kind, or passes. The mapping
//! is exact; callers rely on the specific kind per status and reason.

use vstd::prelude::*;

use crate::error::TranscriptError;
use crate::text::contains_seq;
use crate::text::str_contains;
use crate::text::str_eq;
use crate::text::starts_with_vec;
use crate::text::str_chars;

verus! {

/// The playability block as read off the response: a status word and a
/// human-readable reason, either of which the platform may omit.
pub struct RawPlayabilityStatus {
    pub status: Option<String>,
    pub reason: Option<String>,
}

/// The mathematical value of a [`RawPlayabilityStatus`].
pub ghost struct RawPlayabilityStatusV {
    pub status: Option<Seq<char>>,
    pub reason: Option<Seq<char>>,
}

impl View for RawPlayabilityStatus {
    type V = RawPlayabilityStatusV;

    open spec fn view(&self) -> RawPlayabilityStatusV {
        RawPlayabilityStatusV {
            status: match self.status {
                Some(s) => Some(s@),
                None => None,
            },
            reason: match self.reason {
                Some(s) => Some(s@),
                None => None,
            },
        }
    }
}

/// The status word, with a missing one read as empty.
pub open spec fn status_of(p: RawPlayabilityStatusV) -> Seq<char> {
    match p.status {
        Some(s) => s,
        None => Seq::empty(),
    }
}

/// The reason text, with a missing one read as empty.
pub open spec fn reason_of(p: RawPlayabilityStatusV) -> Seq<char> {
    match p.reason {
        Some(s) => s,
        None => Seq::empty(),
    }
}

/// Playback is allowed: no block at all, or status `OK`.
pub open spec fn verdict_pass(ps: Option<RawPlayabilityStatusV>) -> bool {
    ps matches None || status_of(ps.unwrap()) == "OK"@
}

/// Sign-in demanded to prove the caller is not a bot.
pub open spec fn verdict_blocked(ps: Option<RawPlayabilityStatusV>) -> bool {
    !verdict_pass(ps) && status_of(ps.unwrap()) == "LOGIN_REQUIRED"@ && contains_seq(
        reason_of(ps.unwrap()),
        "Sign in to confirm you're not a bot"@,
    )
}

/// Sign-in demanded because of an age restriction.
pub open spec fn verdict_age_restricted(ps: Option<RawPlayabilityStatusV>) -> bool {
    !verdict_pass(ps) && !verdict_blocked(ps) && status_of(ps.unwrap()) == "LOGIN_REQUIRED"@
        && contains_seq(reason_of(ps.unwrap()), "inappropriate for some users"@)
}

/// Status `ERROR` with an unavailability reason.
pub open spec fn verdict_unavailable(ps: Option<RawPlayabilityStatusV>) -> bool {
    !verdict_pass(ps) && status_of(ps.unwrap()) == "ERROR"@ && contains_seq(
        reason_of(ps.unwrap()),
        "unavailable"@,
    )
}

/// Whether the identifier the caller passed looks like a URL rather than a
/// bare identifier.
pub open spec fn looks_like_url(id: Seq<char>) -> bool {
    id.len() >= 7 && id.subrange(0, 7) == "http://"@ || id.len() >= 8 && id.subrange(0, 8)
        == "https://"@
}

/// The failure owed for a blocking status: the specific error kind per
/// status and reason, each carrying the video identifier.
pub open spec fn playability_error_matches(
    e: TranscriptError,
    video_id: Seq<char>,
    v: Option<RawPlayabilityStatusV>,
) -> bool {
    &&& verdict_blocked(v) ==> (e matches TranscriptError::RequestBlocked(id) && id@ == video_id)
    &&& verdict_age_restricted(v) ==> (e matches TranscriptError::AgeRestricted(id) && id@
        == video_id)
    &&& (verdict_unavailable(v) && looks_like_url(video_id)) ==> (e matches
        TranscriptError::InvalidVideoId(id) && id@ == video_id)
    &&& (verdict_unavailable(v) && !looks_like_url(video_id)) ==> (e matches
        TranscriptError::VideoUnavailable(id) && id@ == video_id)
    &&& (!verdict_blocked(v) && !verdict_age_restricted(v) && !verdict_unavailable(v)) ==> (
    e matches TranscriptError::VideoUnplayable(id, reason) && id@ == video_id && reason@
        == reason_of(v.unwrap()))
}

/// Classifies the playability block and raises the matching failure kind.
///
/// No block, or status `OK`, passes. `LOGIN_REQUIRED` splits into the
/// bot-challenge and age-restriction kinds by reason text. `ERROR` with an
/// unavailability reason becomes `InvalidVideoId` for a URL-shaped
/// identifier and `VideoUnavailable` otherwise. Everything else is
/// `VideoUnplayable`, carrying the raw reason for diagnostics.
pub fn assert_playability(video_id: &str, ps: &Option<RawPlayabilityStatus>) -> (r: Result<
    (),
    TranscriptError,
>)
    ensures
        ({
            let v = match *ps {
                Some(ref p) => Some(p@),
                None => None,
            };
            match r {
                Ok(_) => verdict_pass(v),
                Err(e) => !verdict_pass(v) && playability_error_matches(e, video_id@, v),
            }
        }),
{
    let p = match ps {
        None => {
            return Ok(());
        },
        Some(p) => p,
    };
    let status: &str = match &p.status {
        Some(s) => s.as_str(),
        None => "",
    };
    proof {
        reveal_strlit("");
        reveal_strlit("OK");
        reveal_strlit("LOGIN_REQUIRED");
        reveal_strlit("ERROR");
        reveal_strlit("http://");
        reveal_strlit("https://");
        assert(""@ =~= Seq::<char>::empty());
        assert("LOGIN_REQUIRED"@.len() != "ERROR"@.len());
    }
    if str_eq(status, "OK") {
        return Ok(());
    }
    let reason: &str = match &p.reason {
        Some(s) => s.as_str(),
        None => "",
    };
    if str_eq(status, "LOGIN_REQUIRED") {
        if str_contains(reason, "Sign in to confirm you're not a bot") {
            return Err(TranscriptError::RequestBlocked(video_id.to_owned()));
        }
        if str_contains(reason, "inappropriate for some users") {
            return Err(TranscriptError::AgeRestricted(video_id.to_owned()));
        }
    }
    if str_eq(status, "ERROR") && str_contains(reason, "unavailable") {
        let idv = str_chars(video_id);
        if starts_with_vec(&idv, &str_chars("http://")) || starts_with_vec(
            &idv,
            &str_chars("https://"),
        ) {
            return Err(TranscriptError::InvalidVideoId(video_id.to_owned()));
        }
        return Err(TranscriptError::VideoUnavailable(video_id.to_owned()));
    }
    Err(TranscriptError::VideoUnplayable(video_id.to_owned(), reason.to_owned()))
}

} // verus!
