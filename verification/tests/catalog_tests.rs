//! Catalog lookups: the preference order, the one-group finders, and the
//! translation preconditions.

use youtube_transcript::TranscriptError;
use youtube_transcript::TranscriptInfo;
use youtube_transcript::TranscriptList;
use youtube_transcript::TranslationLanguage;

fn track(code: &str, name: &str, generated: bool, translatable: bool, url: &str) -> TranscriptInfo {
    TranscriptInfo {
        language_code: code.to_string(),
        language: name.to_string(),
        is_generated: generated,
        is_translatable: translatable,
        base_url: url.to_string(),
        translation_languages: vec![],
    }
}

fn sample_list() -> TranscriptList {
    TranscriptList {
        video_id: "test".to_string(),
        manually_created: vec![track("en", "English", false, true, "https://example.com/en")],
        generated: vec![track("es", "Spanish", true, false, "https://example.com/es")],
        translation_languages: vec![],
    }
}

#[test]
fn test_transcript_list_find_transcript() {
    let list = sample_list();
    // Should find manually created first
    assert_eq!(list.find_transcript(&["en"]).unwrap().language_code, "en");
    // Should find generated if manually created not available
    assert_eq!(list.find_transcript(&["es"]).unwrap().language_code, "es");
    // Should prefer manually created over generated
    assert_eq!(
        list.find_transcript(&["en", "es"]).unwrap().language_code,
        "en"
    );
    // Should error if not found
    assert!(list.find_transcript(&["fr"]).is_err());
}

#[test]
fn test_transcript_list_find_manually_created() {
    let list = TranscriptList {
        video_id: "test".to_string(),
        manually_created: vec![track("en", "English", false, true, "https://example.com/en")],
        generated: vec![],
        translation_languages: vec![],
    };
    assert_eq!(
        list.find_manually_created(&["en"]).unwrap().language_code,
        "en"
    );
    assert!(list.find_manually_created(&["es"]).is_err());
}

#[test]
fn test_transcript_list_find_generated() {
    let list = TranscriptList {
        video_id: "test".to_string(),
        manually_created: vec![],
        generated: vec![track("es", "Spanish", true, false, "https://example.com/es")],
        translation_languages: vec![],
    };
    assert_eq!(list.find_generated(&["es"]).unwrap().language_code, "es");
    assert!(list.find_generated(&["en"]).is_err());
}

#[test]
fn test_earlier_code_generated_beats_later_authored() {
    let list = TranscriptList {
        video_id: "test".to_string(),
        manually_created: vec![track("en", "English", false, false, "u1")],
        generated: vec![track("de", "German", true, false, "u2")],
        translation_languages: vec![],
    };
    // "de" comes first in the preference list, so its generated track wins
    // over the authored "en" track.
    let found = list.find_transcript(&["de", "en"]).unwrap();
    assert_eq!(found.language_code, "de");
    assert!(found.is_generated);
}

#[test]
fn test_authored_beats_generated_for_same_code() {
    let list = TranscriptList {
        video_id: "test".to_string(),
        manually_created: vec![track("en", "English", false, false, "u1")],
        generated: vec![track("en", "English (auto)", true, false, "u2")],
        translation_languages: vec![],
    };
    let found = list.find_transcript(&["en"]).unwrap();
    assert!(!found.is_generated);
}

#[test]
fn test_no_transcript_found_carries_request() {
    let list = sample_list();
    match list.find_transcript(&["fr", "it"]) {
        Err(TranscriptError::NoTranscriptFound(vid, langs)) => {
            assert_eq!(vid, "test");
            assert_eq!(langs, vec!["fr".to_string(), "it".to_string()]);
        }
        other => panic!("expected NoTranscriptFound, got {:?}", other),
    }
}

#[test]
fn test_no_transcript_found_on_empty_catalog() {
    let empty = TranscriptList {
        video_id: "empty".to_string(),
        manually_created: vec![],
        generated: vec![],
        translation_languages: vec![],
    };
    assert!(matches!(
        empty.find_transcript(&["en"]),
        Err(TranscriptError::NoTranscriptFound(_, _))
    ));
    assert!(matches!(
        empty.find_manually_created(&["en"]),
        Err(TranscriptError::NoTranscriptFound(_, _))
    ));
    assert!(matches!(
        empty.find_generated(&["en"]),
        Err(TranscriptError::NoTranscriptFound(_, _))
    ));
}

#[test]
fn test_all_transcripts_order() {
    let list = sample_list();
    let all = list.all_transcripts();
    assert_eq!(all.len(), 2);
    assert_eq!(all[0].language_code, "en");
    assert_eq!(all[1].language_code, "es");
}

#[test]
fn test_validate_translation_not_translatable() {
    let list = TranscriptList {
        video_id: "vid00000000".to_string(),
        manually_created: vec![track("en", "English", false, false, "u")],
        generated: vec![],
        translation_languages: vec![],
    };
    match list.validate_translation(&["en"], "de") {
        Err(TranscriptError::NotTranslatable(vid)) => assert_eq!(vid, "vid00000000"),
        other => panic!("expected NotTranslatable, got {:?}", other),
    }
}

#[test]
fn test_validate_translation_target_missing() {
    let mut t = track("en", "English", false, true, "u");
    t.translation_languages = vec![TranslationLanguage {
        language: "German".to_string(),
        language_code: "de".to_string(),
    }];
    let list = TranscriptList {
        video_id: "vid00000000".to_string(),
        manually_created: vec![t],
        generated: vec![],
        translation_languages: vec![],
    };
    match list.validate_translation(&["en"], "fr") {
        Err(TranscriptError::TranslationLanguageNotAvailable(lang)) => assert_eq!(lang, "fr"),
        other => panic!("expected TranslationLanguageNotAvailable, got {:?}", other),
    }
    let ok = list.validate_translation(&["en"], "de").unwrap();
    assert_eq!(ok.language_code, "en");
}
