//! The transcript catalog: the caption tracks known for one video, split into
//! authored and generated tracks, with the catalog-wide translation targets.
//! Lookup order is the heart of the component: an earlier preferred code beats
//! a later one, and for one code an authored track beats a generated one.

use vstd::prelude::*;

use crate::error::TranscriptError;
use crate::text::str_eq;

verus! {

/// A translation target: a language code with its display name.
#[derive(Debug, Clone)]
pub struct TranslationLanguage {
    pub language: String,
    pub language_code: String,
}

/// One caption track of a catalog.
#[derive(Debug, Clone)]
pub struct TranscriptInfo {
    pub language_code: String,
    pub language: String,
    pub is_generated: bool,
    pub is_translatable: bool,
    pub base_url: String,
    pub translation_languages: Vec<TranslationLanguage>,
}

/// The mathematical value of a [`TranslationLanguage`].
pub ghost struct TranslationLanguageV {
    pub language: Seq<char>,
    pub language_code: Seq<char>,
}

/// The mathematical value of a [`TranscriptInfo`].
pub ghost struct TranscriptInfoV {
    pub language_code: Seq<char>,
    pub language: Seq<char>,
    pub is_generated: bool,
    pub is_translatable: bool,
    pub base_url: Seq<char>,
    pub translation_languages: Seq<TranslationLanguageV>,
}

impl View for TranslationLanguage {
    type V = TranslationLanguageV;

    open spec fn view(&self) -> TranslationLanguageV {
        TranslationLanguageV { language: self.language@, language_code: self.language_code@ }
    }
}

/// The values of a sequence of translation languages.
pub open spec fn langs_view(s: Seq<TranslationLanguage>) -> Seq<TranslationLanguageV> {
    Seq::new(s.len(), |i: int| s[i]@)
}

impl View for TranscriptInfo {
    type V = TranscriptInfoV;

    open spec fn view(&self) -> TranscriptInfoV {
        TranscriptInfoV {
            language_code: self.language_code@,
            language: self.language@,
            is_generated: self.is_generated,
            is_translatable: self.is_translatable,
            base_url: self.base_url@,
            translation_languages: langs_view(self.translation_languages@),
        }
    }
}

/// The values of a sequence of tracks.
pub open spec fn tracks_view(s: Seq<TranscriptInfo>) -> Seq<TranscriptInfoV> {
    Seq::new(s.len(), |i: int| s[i]@)
}

/// The catalog of caption tracks for one video.
pub struct TranscriptList {
    pub video_id: String,
    pub manually_created: Vec<TranscriptInfo>,
    pub generated: Vec<TranscriptInfo>,
    pub translation_languages: Vec<TranslationLanguage>,
}

/// The mathematical value of a [`TranscriptList`].
pub ghost struct TranscriptListV {
    pub video_id: Seq<char>,
    pub manually_created: Seq<TranscriptInfoV>,
    pub generated: Seq<TranscriptInfoV>,
    pub translation_languages: Seq<TranslationLanguageV>,
}

impl View for TranscriptList {
    type V = TranscriptListV;

    open spec fn view(&self) -> TranscriptListV {
        TranscriptListV {
            video_id: self.video_id@,
            manually_created: tracks_view(self.manually_created@),
            generated: tracks_view(self.generated@),
            translation_languages: langs_view(self.translation_languages@),
        }
    }
}

/// No two tracks of the sequence share a language code.
pub open spec fn codes_distinct(tracks: Seq<TranscriptInfoV>) -> bool {
    forall|i: int, j: int|
        0 <= i < j < tracks.len() ==> (#[trigger] tracks[i]).language_code != (
        #[trigger] tracks[j]).language_code
}

impl TranscriptListV {
    /// A catalog is well formed when each of its two track groups keys its
    /// tracks by distinct language codes.
    pub open spec fn wf(self) -> bool {
        codes_distinct(self.manually_created) && codes_distinct(self.generated)
    }
}

/// The first track of `tracks` whose language code is `code`, if any.
pub open spec fn lookup(tracks: Seq<TranscriptInfoV>, code: Seq<char>) -> Option<TranscriptInfoV>
    decreases tracks.len(),
{
    if tracks.len() == 0 {
        None
    } else if tracks[0].language_code == code {
        Some(tracks[0])
    } else {
        lookup(tracks.drop_first(), code)
    }
}

/// The views of a list of candidate codes.
pub open spec fn views_of_strs(codes: Seq<&str>) -> Seq<Seq<char>> {
    Seq::new(codes.len(), |i: int| codes[i]@)
}

/// The views of a list of owned strings.
pub open spec fn views_of_strings(codes: Seq<String>) -> Seq<Seq<char>> {
    Seq::new(codes.len(), |i: int| codes[i]@)
}

/// What `find_transcript` returns: for each candidate code in order, the
/// authored track for that code, else the generated track for that code,
/// before any later candidate is considered.
pub open spec fn find_spec(v: TranscriptListV, codes: Seq<Seq<char>>) -> Option<TranscriptInfoV>
    decreases codes.len(),
{
    if codes.len() == 0 {
        None
    } else if lookup(v.manually_created, codes[0]) is Some {
        lookup(v.manually_created, codes[0])
    } else if lookup(v.generated, codes[0]) is Some {
        lookup(v.generated, codes[0])
    } else {
        find_spec(v, codes.drop_first())
    }
}

/// What the one-group finders return: the first candidate code with a track
/// in that group.
pub open spec fn find_in_group_spec(tracks: Seq<TranscriptInfoV>, codes: Seq<Seq<char>>) -> Option<
    TranscriptInfoV,
>
    decreases codes.len(),
{
    if codes.len() == 0 {
        None
    } else if lookup(tracks, codes[0]) is Some {
        lookup(tracks, codes[0])
    } else {
        find_in_group_spec(tracks, codes.drop_first())
    }
}

/// A `NoTranscriptFound` error carrying this catalog's video identifier and
/// exactly the requested candidate list.
pub open spec fn is_no_transcript_error(
    e: TranscriptError,
    video_id: Seq<char>,
    codes: Seq<Seq<char>>,
) -> bool {
    &&& e matches TranscriptError::NoTranscriptFound(vid, langs)
    &&& vid@ == video_id
    &&& views_of_strings(langs@) == codes
}

/// If the track at `i` matches `code` and no earlier track does, the lookup
/// returns it.
proof fn lemma_lookup_at(tracks: Seq<TranscriptInfoV>, code: Seq<char>, i: int)
    requires
        0 <= i < tracks.len(),
        tracks[i].language_code == code,
        forall|j: int| 0 <= j < i ==> (#[trigger] tracks[j]).language_code != code,
    ensures
        lookup(tracks, code) == Some(tracks[i]),
    decreases tracks.len(),
{
    if i > 0 {
        lemma_lookup_at(tracks.drop_first(), code, i - 1);
    }
}

/// If no track matches `code`, the lookup is empty.
proof fn lemma_lookup_none(tracks: Seq<TranscriptInfoV>, code: Seq<char>)
    requires
        forall|j: int| 0 <= j < tracks.len() ==> (#[trigger] tracks[j]).language_code != code,
    ensures
        lookup(tracks, code) is None,
    decreases tracks.len(),
{
    if tracks.len() > 0 {
        lemma_lookup_none(tracks.drop_first(), code);
    }
}

/// Finds the index of the first track with language code `code`.
fn lookup_idx(tracks: &Vec<TranscriptInfo>, code: &str) -> (r: Option<usize>)
    ensures
        match r {
            Some(i) => i < tracks@.len() && lookup(tracks_view(tracks@), code@) == Some(
                tracks@[i as int]@,
            ),
            None => lookup(tracks_view(tracks@), code@) is None,
        },
{
    let mut i: usize = 0;
    while i < tracks.len()
        invariant
            0 <= i <= tracks@.len(),
            forall|j: int| 0 <= j < i ==> (#[trigger] tracks_view(tracks@)[j]).language_code
                != code@,
        decreases tracks@.len() - i,
    {
        if str_eq(tracks[i].language_code.as_str(), code) {
            proof {
                lemma_lookup_at(tracks_view(tracks@), code@, i as int);
            }
            return Some(i);
        }
        i = i + 1;
    }
    proof {
        lemma_lookup_none(tracks_view(tracks@), code@);
    }
    None
}

impl TranscriptList {
    /// Builds the `NoTranscriptFound` error for this catalog and the
    /// requested candidate list.
    fn no_transcript_error(&self, language_codes: &[&str]) -> (e: TranscriptError)
        ensures
            is_no_transcript_error(e, self.video_id@, views_of_strs(language_codes@)),
    {
        let mut langs: Vec<String> = Vec::new();
        let mut i: usize = 0;
        while i < language_codes.len()
            invariant
                0 <= i <= language_codes@.len(),
                langs@.len() == i,
                forall|j: int| 0 <= j < i ==> (#[trigger] langs@[j])@ == language_codes@[j]@,
            decreases language_codes@.len() - i,
        {
            langs.push(language_codes[i].to_owned());
            i = i + 1;
        }
        proof {
            assert(views_of_strings(langs@) =~= views_of_strs(language_codes@));
        }
        TranscriptError::NoTranscriptFound(self.video_id.clone(), langs)
    }

    /// Returns the track for the first candidate code that has one, trying
    /// the authored group and then the generated group per candidate, or a
    /// `NoTranscriptFound` error carrying the full candidate list.
    pub fn find_transcript<'a>(&'a self, language_codes: &[&str]) -> (r: Result<
        &'a TranscriptInfo,
        TranscriptError,
    >)
        ensures
            match r {
                Ok(t) => find_spec(self@, views_of_strs(language_codes@)) == Some(t@),
                Err(e) => {
                    &&& find_spec(self@, views_of_strs(language_codes@)) is None
                    &&& is_no_transcript_error(e, self.video_id@, views_of_strs(language_codes@))
                },
            },
    {
        let ghost codes = views_of_strs(language_codes@);
        proof {
            assert(codes.skip(0) =~= codes);
        }
        let mut k: usize = 0;
        while k < language_codes.len()
            invariant
                0 <= k <= language_codes@.len(),
                codes == views_of_strs(language_codes@),
                find_spec(self@, codes) == find_spec(self@, codes.skip(k as int)),
            decreases language_codes@.len() - k,
        {
            proof {
                assert(codes.skip(k as int)[0] == codes[k as int]);
            }
            if let Some(i) = lookup_idx(&self.manually_created, language_codes[k]) {
                return Ok(&self.manually_created[i]);
            }
            if let Some(i) = lookup_idx(&self.generated, language_codes[k]) {
                return Ok(&self.generated[i]);
            }
            k = k + 1;
            proof {
                assert(codes.skip(k - 1).drop_first() =~= codes.skip(k as int));
            }
        }
        proof {
            assert(codes.skip(language_codes@.len() as int) =~= Seq::<Seq<char>>::empty());
        }
        Err(self.no_transcript_error(language_codes))
    }

    /// Returns the authored track for the first candidate code that has one,
    /// or a `NoTranscriptFound` error carrying the full candidate list.
    pub fn find_manually_created<'a>(&'a self, language_codes: &[&str]) -> (r: Result<
        &'a TranscriptInfo,
        TranscriptError,
    >)
        ensures
            match r {
                Ok(t) => find_in_group_spec(self@.manually_created, views_of_strs(language_codes@))
                    == Some(t@),
                Err(e) => {
                    &&& find_in_group_spec(
                        self@.manually_created,
                        views_of_strs(language_codes@),
                    ) is None
                    &&& is_no_transcript_error(e, self.video_id@, views_of_strs(language_codes@))
                },
            },
    {
        let ghost codes = views_of_strs(language_codes@);
        proof {
            assert(codes.skip(0) =~= codes);
        }
        let mut k: usize = 0;
        while k < language_codes.len()
            invariant
                0 <= k <= language_codes@.len(),
                codes == views_of_strs(language_codes@),
                find_in_group_spec(self@.manually_created, codes) == find_in_group_spec(
                    self@.manually_created,
                    codes.skip(k as int),
                ),
            decreases language_codes@.len() - k,
        {
            proof {
                assert(codes.skip(k as int)[0] == codes[k as int]);
            }
            if let Some(i) = lookup_idx(&self.manually_created, language_codes[k]) {
                return Ok(&self.manually_created[i]);
            }
            k = k + 1;
            proof {
                assert(codes.skip(k - 1).drop_first() =~= codes.skip(k as int));
            }
        }
        proof {
            assert(codes.skip(language_codes@.len() as int) =~= Seq::<Seq<char>>::empty());
        }
        Err(self.no_transcript_error(language_codes))
    }

    /// Returns the generated track for the first candidate code that has one,
    /// or a `NoTranscriptFound` error carrying the full candidate list.
    pub fn find_generated<'a>(&'a self, language_codes: &[&str]) -> (r: Result<
        &'a TranscriptInfo,
        TranscriptError,
    >)
        ensures
            match r {
                Ok(t) => find_in_group_spec(self@.generated, views_of_strs(language_codes@))
                    == Some(t@),
                Err(e) => {
                    &&& find_in_group_spec(
                        self@.generated,
                        views_of_strs(language_codes@),
                    ) is None
                    &&& is_no_transcript_error(e, self.video_id@, views_of_strs(language_codes@))
                },
            },
    {
        let ghost codes = views_of_strs(language_codes@);
        proof {
            assert(codes.skip(0) =~= codes);
        }
        let mut k: usize = 0;
        while k < language_codes.len()
            invariant
                0 <= k <= language_codes@.len(),
                codes == views_of_strs(language_codes@),
                find_in_group_spec(self@.generated, codes) == find_in_group_spec(
                    self@.generated,
                    codes.skip(k as int),
                ),
            decreases language_codes@.len() - k,
        {
            proof {
                assert(codes.skip(k as int)[0] == codes[k as int]);
            }
            if let Some(i) = lookup_idx(&self.generated, language_codes[k]) {
                return Ok(&self.generated[i]);
            }
            k = k + 1;
            proof {
                assert(codes.skip(k - 1).drop_first() =~= codes.skip(k as int));
            }
        }
        proof {
            assert(codes.skip(language_codes@.len() as int) =~= Seq::<Seq<char>>::empty());
        }
        Err(self.no_transcript_error(language_codes))
    }

    /// Every track of the catalog, authored tracks first, then generated
    /// ones, each in its stored order.
    pub fn all_transcripts<'a>(&'a self) -> (r: Vec<&'a TranscriptInfo>)
        ensures
            r@.len() == self@.manually_created.len() + self@.generated.len(),
            forall|i: int|
                0 <= i < self@.manually_created.len() ==> (#[trigger] r@[i])@
                    == self@.manually_created[i],
            forall|i: int|
                0 <= i < self@.generated.len() ==> (#[trigger] r@[self@.manually_created.len()
                    + i])@ == self@.generated[i],
    {
        let mut all: Vec<&'a TranscriptInfo> = Vec::new();
        let mut i: usize = 0;
        while i < self.manually_created.len()
            invariant
                0 <= i <= self.manually_created@.len(),
                all@.len() == i,
                forall|j: int| 0 <= j < i ==> (#[trigger] all@[j])@ == self@.manually_created[j],
            decreases self.manually_created@.len() - i,
        {
            all.push(&self.manually_created[i]);
            i = i + 1;
        }
        let ghost m = self.manually_created@.len();
        let mut g: usize = 0;
        while g < self.generated.len()
            invariant
                0 <= g <= self.generated@.len(),
                all@.len() == m + g,
                forall|j: int| 0 <= j < m ==> (#[trigger] all@[j])@ == self@.manually_created[j],
                forall|j: int| 0 <= j < g ==> (#[trigger] all@[m + j])@ == self@.generated[j],
            decreases self.generated@.len() - g,
        {
            all.push(&self.generated[g]);
            g = g + 1;
        }
        all
    }

    /// Whether `code` is among the translation targets of `t`.
    pub open spec fn has_translation(t: TranscriptInfoV, code: Seq<char>) -> bool {
        exists|i: int|
            0 <= i < t.translation_languages.len() && (
            #[trigger] t.translation_languages[i]).language_code == code
    }

    /// Resolves the source track for a translation request and checks the
    /// translation preconditions, touching no network: the track found for
    /// `source_languages` must be translatable and must offer
    /// `target_language`.
    pub fn validate_translation<'a>(
        &'a self,
        source_languages: &[&str],
        target_language: &str,
    ) -> (r: Result<&'a TranscriptInfo, TranscriptError>)
        ensures
            match r {
                Ok(t) => {
                    &&& find_spec(self@, views_of_strs(source_languages@)) == Some(t@)
                    &&& t@.is_translatable
                    &&& Self::has_translation(t@, target_language@)
                },
                Err(e) => match find_spec(self@, views_of_strs(source_languages@)) {
                    None => is_no_transcript_error(
                        e,
                        self.video_id@,
                        views_of_strs(source_languages@),
                    ),
                    Some(t) => {
                        &&& !t.is_translatable ==> (e matches TranscriptError::NotTranslatable(vid)
                            && vid@ == self.video_id@)
                        &&& (t.is_translatable && !Self::has_translation(t, target_language@)) ==> (
                        e matches TranscriptError::TranslationLanguageNotAvailable(lang) && lang@
                            == target_language@)
                        &&& (t.is_translatable && Self::has_translation(t, target_language@))
                            ==> false
                    },
                },
            },
    {
        let source = self.find_transcript(source_languages)?;
        if !source.is_translatable {
            return Err(TranscriptError::NotTranslatable(self.video_id.clone()));
        }
        let mut i: usize = 0;
        while i < source.translation_languages.len()
            invariant
                0 <= i <= source.translation_languages@.len(),
                find_spec(self@, views_of_strs(source_languages@)) == Some(source@),
                source@.is_translatable,
                forall|j: int| 0 <= j < i ==> (#[trigger] source@.translation_languages[j]).language_code
                    != target_language@,
            decreases source.translation_languages@.len() - i,
        {
            if str_eq(source.translation_languages[i].language_code.as_str(), target_language) {
                proof {
                    assert((source@.translation_languages[i as int]).language_code
                        == target_language@);
                }
                return Ok(source);
            }
            i = i + 1;
        }
        proof {
            assert(!Self::has_translation(source@, target_language@));
        }
        Err(TranscriptError::TranslationLanguageNotAvailable(target_language.to_owned()))
    }
}

/// Law: among the two groups holding the same candidate code, the authored
/// track is preferred. If the single candidate `code` has an authored track,
/// `find_transcript` returns it, whatever the generated group holds.
pub proof fn lemma_authored_preferred_for_same_code(v: TranscriptListV, code: Seq<char>)
    requires
        lookup(v.manually_created, code) is Some,
    ensures
        find_spec(v, seq![code]) == lookup(v.manually_created, code),
{
    assert(seq![code][0] == code);
}

/// Law: candidate order outranks authorship. If the first candidate code has
/// only a generated track, `find_transcript` returns that generated track,
/// even when a later candidate code has an authored track.
pub proof fn lemma_earlier_candidate_wins(v: TranscriptListV, codes: Seq<Seq<char>>)
    requires
        codes.len() >= 1,
        lookup(v.manually_created, codes[0]) is None,
        lookup(v.generated, codes[0]) is Some,
    ensures
        find_spec(v, codes) == lookup(v.generated, codes[0]),
{
}

} // verus!
