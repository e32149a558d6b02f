//! Turns the caption section of the internal API response into a transcript
//! catalog. The response arrives as plain optional fields, read off the JSON
//! document at the boundary; everything decided from them — which entries
//! are skipped, how tracks split into the authored and generated groups, and
//! which catalog counts as empty — is verified here.

use vstd::prelude::*;

use crate::catalog::codes_distinct;
use crate::catalog::langs_view;
use crate::catalog::tracks_view;
use crate::catalog::TranscriptInfo;
use crate::catalog::TranscriptInfoV;
use crate::catalog::TranscriptList;
use crate::catalog::TranslationLanguage;
use crate::catalog::TranslationLanguageV;
use crate::error::TranscriptError;
use crate::playability::assert_playability;
use crate::playability::playability_error_matches;
use crate::playability::verdict_pass;
use crate::playability::RawPlayabilityStatus;
use crate::playability::RawPlayabilityStatusV;
use crate::text::chars_to_string;
use crate::text::str_chars;
use crate::text::str_eq;
use crate::text::strip_all;
use crate::text::strip_spec;

verus! {

/// One entry of the catalog-wide translation-language list, as read off the
/// response: either field may be missing.
pub struct RawTranslationLanguage {
    pub language_code: Option<String>,
    pub language: Option<String>,
}

/// The mathematical value of a [`RawTranslationLanguage`].
pub ghost struct RawTranslationLanguageV {
    pub language_code: Option<Seq<char>>,
    pub language: Option<Seq<char>>,
}

impl View for RawTranslationLanguage {
    type V = RawTranslationLanguageV;

    open spec fn view(&self) -> RawTranslationLanguageV {
        RawTranslationLanguageV {
            language_code: match self.language_code {
                Some(ref s) => Some(s@),
                None => None,
            },
            language: match self.language {
                Some(ref s) => Some(s@),
                None => None,
            },
        }
    }
}

/// One caption-track entry, as read off the response.
pub struct RawCaptionTrack {
    pub language_code: Option<String>,
    pub base_url: Option<String>,
    pub name: Option<String>,
    pub kind: Option<String>,
    pub is_translatable: Option<bool>,
}

/// The mathematical value of a [`RawCaptionTrack`].
pub ghost struct RawCaptionTrackV {
    pub language_code: Option<Seq<char>>,
    pub base_url: Option<Seq<char>>,
    pub name: Option<Seq<char>>,
    pub kind: Option<Seq<char>>,
    pub is_translatable: Option<bool>,
}

impl View for RawCaptionTrack {
    type V = RawCaptionTrackV;

    open spec fn view(&self) -> RawCaptionTrackV {
        RawCaptionTrackV {
            language_code: match self.language_code {
                Some(ref s) => Some(s@),
                None => None,
            },
            base_url: match self.base_url {
                Some(ref s) => Some(s@),
                None => None,
            },
            name: match self.name {
                Some(ref s) => Some(s@),
                None => None,
            },
            kind: match self.kind {
                Some(ref s) => Some(s@),
                None => None,
            },
            is_translatable: self.is_translatable,
        }
    }
}

/// The caption section of the response.
pub struct RawCaptions {
    pub translation_languages: Vec<RawTranslationLanguage>,
    pub caption_tracks: Vec<RawCaptionTrack>,
}

/// The parts of the internal API response that catalog extraction reads.
pub struct PlayerResponse {
    pub playability_status: Option<RawPlayabilityStatus>,
    pub captions: Option<RawCaptions>,
}

/// The values of a sequence of raw translation-language entries.
pub open spec fn raw_langs_view(s: Seq<RawTranslationLanguage>) -> Seq<RawTranslationLanguageV> {
    Seq::new(s.len(), |i: int| s[i]@)
}

/// The values of a sequence of raw track entries.
pub open spec fn raw_tracks_view(s: Seq<RawCaptionTrack>) -> Seq<RawCaptionTrackV> {
    Seq::new(s.len(), |i: int| s[i]@)
}

/// The value of the playability block of a response.
pub open spec fn ps_view(r: &PlayerResponse) -> Option<RawPlayabilityStatusV> {
    match r.playability_status {
        Some(ref p) => Some(p@),
        None => None,
    }
}

/// The translation-language list built from the raw entries, in order, with
/// entries missing either field skipped.
pub open spec fn built_langs(s: Seq<RawTranslationLanguageV>) -> Seq<TranslationLanguageV>
    decreases s.len(),
{
    if s.len() == 0 {
        Seq::empty()
    } else {
        let rest = built_langs(s.drop_last());
        let t = s.last();
        if t.language_code is Some && t.language is Some {
            rest.push(
                TranslationLanguageV {
                    language: t.language.unwrap(),
                    language_code: t.language_code.unwrap(),
                },
            )
        } else {
            rest
        }
    }
}

/// The index of the first track with language code `code`, if any.
pub open spec fn index_of_code(tracks: Seq<TranscriptInfoV>, code: Seq<char>) -> Option<int>
    decreases tracks.len(),
{
    if tracks.len() == 0 {
        None
    } else if tracks[0].language_code == code {
        Some(0)
    } else {
        match index_of_code(tracks.drop_first(), code) {
            Some(i) => Some(i + 1),
            None => None,
        }
    }
}

proof fn lemma_index_of_code_props(tracks: Seq<TranscriptInfoV>, code: Seq<char>)
    ensures
        match index_of_code(tracks, code) {
            Some(i) => 0 <= i < tracks.len() && tracks[i].language_code == code && forall|j: int|
                0 <= j < i ==> (#[trigger] tracks[j]).language_code != code,
            None => forall|j: int|
                0 <= j < tracks.len() ==> (#[trigger] tracks[j]).language_code != code,
        },
    decreases tracks.len(),
{
    if tracks.len() > 0 && tracks[0].language_code != code {
        let rest = tracks.drop_first();
        lemma_index_of_code_props(rest, code);
        assert(forall|j: int| 0 <= j < rest.len() ==> #[trigger] rest[j] == tracks[j + 1]);
        match index_of_code(rest, code) {
            Some(i) => {
                assert forall|j: int| 0 <= j < i + 1 implies (#[trigger] tracks[j]).language_code
                    != code by {
                    if j > 0 {
                        assert(tracks[j] == rest[j - 1]);
                    }
                }
            },
            None => {
                assert forall|j: int| 0 <= j < tracks.len() implies (
                #[trigger] tracks[j]).language_code != code by {
                    if j > 0 {
                        assert(tracks[j] == rest[j - 1]);
                    }
                }
            },
        }
    }
}

/// A track keyed by an already-present code replaces the old track in place;
/// a new code goes to the end, as a mapping insert behaves.
pub open spec fn insert_track(tracks: Seq<TranscriptInfoV>, t: TranscriptInfoV) -> Seq<
    TranscriptInfoV,
> {
    match index_of_code(tracks, t.language_code) {
        Some(i) => tracks.update(i, t),
        None => tracks.push(t),
    }
}

/// A mapping insert keeps the group's codes distinct.
proof fn lemma_insert_distinct(tracks: Seq<TranscriptInfoV>, t: TranscriptInfoV)
    requires
        codes_distinct(tracks),
    ensures
        codes_distinct(insert_track(tracks, t)),
{
    lemma_index_of_code_props(tracks, t.language_code);
    match index_of_code(tracks, t.language_code) {
        Some(i) => {
            let r = tracks.update(i, t);
            assert forall|a: int, b: int| 0 <= a < b < r.len() implies (
            #[trigger] r[a]).language_code != (#[trigger] r[b]).language_code by {
                if a != i && b != i {
                    assert(r[a] == tracks[a] && r[b] == tracks[b]);
                } else if a == i {
                    assert(r[b] == tracks[b] && tracks[b].language_code != tracks[i].language_code);
                } else {
                    assert(r[a] == tracks[a] && tracks[a].language_code != tracks[i].language_code);
                }
            }
        },
        None => {
            let r = tracks.push(t);
            assert forall|a: int, b: int| 0 <= a < b < r.len() implies (
            #[trigger] r[a]).language_code != (#[trigger] r[b]).language_code by {
                if b == tracks.len() {
                    assert(r[a] == tracks[a]);
                } else {
                    assert(r[a] == tracks[a] && r[b] == tracks[b]);
                }
            }
        },
    }
}

/// The catalog track a raw entry yields: nothing when the language code or
/// the source URL is missing; otherwise the track with any `&fmt=srv3`
/// marker stripped from the URL, the display name defaulted to the code, the
/// generated flag read off `kind == "asr"`, and the catalog-wide translation
/// list attached exactly when the track is translatable.
pub open spec fn track_value(t: RawCaptionTrackV, tl: Seq<TranslationLanguageV>) -> Option<
    TranscriptInfoV,
> {
    if t.language_code is None || t.base_url is None {
        None
    } else {
        Some(
            TranscriptInfoV {
                language_code: t.language_code.unwrap(),
                language: if t.name is Some {
                    t.name.unwrap()
                } else {
                    t.language_code.unwrap()
                },
                is_generated: t.kind == Some("asr"@),
                is_translatable: t.is_translatable == Some(true),
                base_url: strip_spec(t.base_url.unwrap(), "&fmt=srv3"@),
                translation_languages: if t.is_translatable == Some(true) {
                    tl
                } else {
                    Seq::empty()
                },
            },
        )
    }
}

/// The two track groups (authored, generated) built from the raw entries in
/// order.
pub open spec fn built_groups(
    tracks: Seq<RawCaptionTrackV>,
    tl: Seq<TranslationLanguageV>,
) -> (Seq<TranscriptInfoV>, Seq<TranscriptInfoV>)
    decreases tracks.len(),
{
    if tracks.len() == 0 {
        (Seq::empty(), Seq::empty())
    } else {
        let rest = built_groups(tracks.drop_last(), tl);
        match track_value(tracks.last(), tl) {
            None => rest,
            Some(tv) => if tv.is_generated {
                (rest.0, insert_track(rest.1, tv))
            } else {
                (insert_track(rest.0, tv), rest.1)
            },
        }
    }
}

/// Builds the translation-language list, skipping incomplete entries.
fn build_langs(raw: &Vec<RawTranslationLanguage>) -> (r: Vec<TranslationLanguage>)
    ensures
        langs_view(r@) == built_langs(raw_langs_view(raw@)),
{
    let mut r: Vec<TranslationLanguage> = Vec::new();
    let mut i: usize = 0;
    proof {
        assert(raw_langs_view(raw@).take(0) =~= Seq::<RawTranslationLanguageV>::empty());
    }
    while i < raw.len()
        invariant
            0 <= i <= raw@.len(),
            langs_view(r@) == built_langs(raw_langs_view(raw@).take(i as int)),
        decreases raw@.len() - i,
    {
        let ghost pre = raw_langs_view(raw@).take(i as int);
        let ghost cur = raw_langs_view(raw@).take(i + 1);
        proof {
            assert(cur.drop_last() =~= pre);
            assert(cur.last() == raw_langs_view(raw@)[i as int]);
        }
        let entry = &raw[i];
        match (&entry.language_code, &entry.language) {
            (Some(code), Some(name)) => {
                r.push(TranslationLanguage { language: name.clone(), language_code: code.clone() });
                proof {
                    assert(langs_view(r@) =~= built_langs(cur));
                }
            },
            _ => {
                proof {
                    assert(langs_view(r@) =~= built_langs(cur));
                }
            },
        }
        i = i + 1;
    }
    proof {
        assert(raw_langs_view(raw@).take(raw@.len() as int) =~= raw_langs_view(raw@));
    }
    r
}

/// Clones a translation-language list.
fn clone_langs(src: &Vec<TranslationLanguage>) -> (r: Vec<TranslationLanguage>)
    ensures
        langs_view(r@) == langs_view(src@),
{
    let mut r: Vec<TranslationLanguage> = Vec::new();
    let mut i: usize = 0;
    while i < src.len()
        invariant
            0 <= i <= src@.len(),
            r@.len() == i,
            forall|j: int| 0 <= j < i ==> (#[trigger] r@[j])@ == src@[j]@,
        decreases src@.len() - i,
    {
        let e = &src[i];
        r.push(
            TranslationLanguage {
                language: e.language.clone(),
                language_code: e.language_code.clone(),
            },
        );
        i = i + 1;
    }
    proof {
        assert(langs_view(r@) =~= langs_view(src@));
    }
    r
}

/// Inserts a track into a group with mapping semantics: an existing code is
/// replaced in place, a new one appended.
fn insert_track_exec(group: &mut Vec<TranscriptInfo>, t: TranscriptInfo)
    ensures
        tracks_view(final(group)@) == insert_track(tracks_view(old(group)@), t@),
{
    proof {
        lemma_index_of_code_props(tracks_view(old(group)@), t@.language_code);
    }
    let mut i: usize = 0;
    while i < group.len()
        invariant
            0 <= i <= group@.len(),
            group@ == old(group)@,
            forall|j: int| 0 <= j < i ==> (#[trigger] tracks_view(group@)[j]).language_code
                != t@.language_code,
        decreases group@.len() - i,
    {
        if str_eq(group[i].language_code.as_str(), t.language_code.as_str()) {
            proof {
                assert(tracks_view(group@)[i as int].language_code == t@.language_code);
                lemma_index_of_code_props(tracks_view(group@), t@.language_code);
            }
            group.remove(i);
            group.insert(i, t);
            proof {
                assert(tracks_view(group@) =~= insert_track(
                    tracks_view(old(group)@),
                    t@,
                ));
            }
            return ;
        }
        i = i + 1;
    }
    group.push(t);
    proof {
        assert(tracks_view(group@) =~= insert_track(tracks_view(old(group)@), t@));
    }
}

/// Extracts the transcript catalog from the internal API response.
///
/// The playability gate runs first and short-circuits the extraction. A
/// response without a caption section, and one whose entries yield no track
/// at all, both fail with `TranscriptsDisabled`. Otherwise the catalog holds
/// exactly the groups of [`built_groups`] and the translation list of
/// [`built_langs`], and its two groups key their tracks by distinct codes.
pub fn extract_catalog(video_id: &str, resp: &PlayerResponse) -> (r: Result<
    TranscriptList,
    TranscriptError,
>)
    ensures
        ({
            let psv = ps_view(resp);
            match r {
                Ok(list) => {
                    &&& verdict_pass(psv)
                    &&& resp.captions matches Some(c)
                    &&& list@.video_id == video_id@
                    &&& list@.translation_languages == built_langs(
                        raw_langs_view(resp.captions.unwrap().translation_languages@),
                    )
                    &&& (list@.manually_created, list@.generated) == built_groups(
                        raw_tracks_view(resp.captions.unwrap().caption_tracks@),
                        built_langs(raw_langs_view(resp.captions.unwrap().translation_languages@)),
                    )
                    &&& list@.manually_created.len() + list@.generated.len() > 0
                    &&& list@.wf()
                },
                Err(e) => {
                    &&& !verdict_pass(psv) ==> playability_error_matches(e, video_id@, psv)
                    &&& (verdict_pass(psv) && resp.captions is None) ==> (e matches
                        TranscriptError::TranscriptsDisabled(id) && id@ == video_id@)
                    &&& (verdict_pass(psv) && resp.captions is Some && ({
                        let c = resp.captions.unwrap();
                        let groups = built_groups(
                            raw_tracks_view(c.caption_tracks@),
                            built_langs(raw_langs_view(c.translation_languages@)),
                        );
                        groups.0.len() + groups.1.len() == 0
                    })) ==> (e matches TranscriptError::TranscriptsDisabled(id) && id@
                        == video_id@)
                    &&& (verdict_pass(psv) && resp.captions is Some && ({
                        let c = resp.captions.unwrap();
                        let groups = built_groups(
                            raw_tracks_view(c.caption_tracks@),
                            built_langs(raw_langs_view(c.translation_languages@)),
                        );
                        groups.0.len() + groups.1.len() > 0
                    })) ==> false
                },
            }
        }),
{
    assert_playability(video_id, &resp.playability_status)?;
    let captions = match &resp.captions {
        None => {
            return Err(TranscriptError::TranscriptsDisabled(video_id.to_owned()));
        },
        Some(c) => c,
    };
    let translation_languages = build_langs(&captions.translation_languages);
    let ghost tlv = built_langs(raw_langs_view(captions.translation_languages@));
    let mut manual: Vec<TranscriptInfo> = Vec::new();
    let mut generated: Vec<TranscriptInfo> = Vec::new();
    let tracks = &captions.caption_tracks;
    let fmt_marker = str_chars("&fmt=srv3");
    let mut i: usize = 0;
    proof {
        assert(raw_tracks_view(tracks@).take(0) =~= Seq::<RawCaptionTrackV>::empty());
    }
    while i < tracks.len()
        invariant
            0 <= i <= tracks@.len(),
            fmt_marker@ == "&fmt=srv3"@,
            tlv == built_langs(raw_langs_view(captions.translation_languages@)),
            langs_view(translation_languages@) == tlv,
            (tracks_view(manual@), tracks_view(generated@)) == built_groups(
                raw_tracks_view(tracks@).take(i as int),
                tlv,
            ),
            codes_distinct(tracks_view(manual@)),
            codes_distinct(tracks_view(generated@)),
        decreases tracks@.len() - i,
    {
        let ghost pre = raw_tracks_view(tracks@).take(i as int);
        let ghost cur = raw_tracks_view(tracks@).take(i + 1);
        proof {
            assert(cur.drop_last() =~= pre);
            assert(cur.last() == raw_tracks_view(tracks@)[i as int]);
            reveal_strlit("&fmt=srv3");
        }
        let t = &tracks[i];
        match (&t.language_code, &t.base_url) {
            (Some(code), Some(url)) => {
                let url_chars = str_chars(url.as_str());
                let stripped = strip_all(&url_chars, &fmt_marker);
                let base_url = chars_to_string(&stripped);
                let language: String = match &t.name {
                    Some(n) => n.clone(),
                    None => code.clone(),
                };
                let is_generated: bool = match &t.kind {
                    Some(k) => str_eq(k.as_str(), "asr"),
                    None => false,
                };
                let is_translatable: bool = match t.is_translatable {
                    Some(b) => b,
                    None => false,
                };
                let track_langs: Vec<TranslationLanguage> = if is_translatable {
                    clone_langs(&translation_languages)
                } else {
                    Vec::new()
                };
                let info = TranscriptInfo {
                    language_code: code.clone(),
                    language,
                    is_generated,
                    is_translatable,
                    base_url,
                    translation_languages: track_langs,
                };
                proof {
                    if !is_translatable {
                        assert(langs_view(info.translation_languages@) =~= Seq::<
                            TranslationLanguageV,
                        >::empty());
                    }
                    assert(info@ == track_value(cur.last(), tlv).unwrap());
                }
                if is_generated {
                    insert_track_exec(&mut generated, info);
                    proof {
                        lemma_insert_distinct(
                            built_groups(pre, tlv).1,
                            track_value(cur.last(), tlv).unwrap(),
                        );
                    }
                } else {
                    insert_track_exec(&mut manual, info);
                    proof {
                        lemma_insert_distinct(
                            built_groups(pre, tlv).0,
                            track_value(cur.last(), tlv).unwrap(),
                        );
                    }
                }
            },
            _ => {
                proof {
                    assert(track_value(cur.last(), tlv) is None);
                }
            },
        }
        i = i + 1;
    }
    proof {
        assert(raw_tracks_view(tracks@).take(tracks@.len() as int) =~= raw_tracks_view(tracks@));
    }
    if manual.len() == 0 && generated.len() == 0 {
        return Err(TranscriptError::TranscriptsDisabled(video_id.to_owned()));
    }
    Ok(
        TranscriptList {
            video_id: video_id.to_owned(),
            manually_created: manual,
            generated,
            translation_languages,
        },
    )
}

} // verus!
