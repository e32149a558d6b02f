//! The page scans, the playability gate, catalog extraction, HTTP status
//! classification, and response assembly.

use youtube_transcript::assemble_transcript_response;
use youtube_transcript::assert_playability;
use youtube_transcript::classify_http_status;
use youtube_transcript::consent_required;
use youtube_transcript::create_consent_cookie;
use youtube_transcript::extract_catalog;
use youtube_transcript::extract_innertube_api_key;
use youtube_transcript::innertube_body;
use youtube_transcript::innertube_url;
use youtube_transcript::parse_captions;
use youtube_transcript::prepare_transcript_url;
use youtube_transcript::u64_to_string;
use youtube_transcript::watch_url;
use youtube_transcript::PlayerResponse;
use youtube_transcript::RawCaptionTrack;
use youtube_transcript::RawCaptions;
use youtube_transcript::RawPlayabilityStatus;
use youtube_transcript::RawTranslationLanguage;
use youtube_transcript::TranscriptError;
use youtube_transcript::TranscriptInfo;
use youtube_transcript::TranslationLanguage;

fn ps(status: &str, reason: &str) -> Option<RawPlayabilityStatus> {
    Some(RawPlayabilityStatus {
        status: Some(status.to_string()),
        reason: Some(reason.to_string()),
    })
}

#[test]
fn test_playability_login_required_bot() {
    match assert_playability("vid", &ps("LOGIN_REQUIRED", "Sign in to confirm you're not a bot")) {
        Err(TranscriptError::RequestBlocked(id)) => assert_eq!(id, "vid"),
        other => panic!("expected RequestBlocked, got {:?}", other),
    }
}

#[test]
fn test_playability_age_restricted() {
    match assert_playability(
        "vid",
        &ps("LOGIN_REQUIRED", "This video may be inappropriate for some users."),
    ) {
        Err(TranscriptError::AgeRestricted(id)) => assert_eq!(id, "vid"),
        other => panic!("expected AgeRestricted, got {:?}", other),
    }
}

#[test]
fn test_playability_error_unavailable() {
    match assert_playability("dQw4w9WgXcQ", &ps("ERROR", "Video unavailable")) {
        Err(TranscriptError::VideoUnavailable(id)) => assert_eq!(id, "dQw4w9WgXcQ"),
        other => panic!("expected VideoUnavailable, got {:?}", other),
    }
}

#[test]
fn test_playability_error_unavailable_with_url_like_id() {
    match assert_playability("https://bad", &ps("ERROR", "Video unavailable")) {
        Err(TranscriptError::InvalidVideoId(id)) => assert_eq!(id, "https://bad"),
        other => panic!("expected InvalidVideoId, got {:?}", other),
    }
}

#[test]
fn test_playability_other_reason_is_unplayable() {
    match assert_playability("vid", &ps("UNPLAYABLE", "Uploader closed the account")) {
        Err(TranscriptError::VideoUnplayable(id, reason)) => {
            assert_eq!(id, "vid");
            assert_eq!(reason, "Uploader closed the account");
        }
        other => panic!("expected VideoUnplayable, got {:?}", other),
    }
}

#[test]
fn test_playability_ok_and_absent_pass() {
    assert!(assert_playability("vid", &ps("OK", "")).is_ok());
    assert!(assert_playability("vid", &None).is_ok());
}

#[test]
fn test_consent_detection_and_cookie() {
    let page = "<html><form action=\"https://consent.youtube.com/s\">\
        <input type=\"hidden\" name=\"v\" value=\"cb.20210328-17-p0.en+FX+030\"/></form></html>";
    assert!(consent_required(page));
    assert!(!consent_required("<html>plain page</html>"));
    assert_eq!(
        create_consent_cookie(page, "vid").unwrap(),
        "YES+cb.20210328-17-p0.en+FX+030"
    );
    match create_consent_cookie("<html>no form</html>", "vid") {
        Err(TranscriptError::FailedToCreateConsentCookie(id)) => assert_eq!(id, "vid"),
        other => panic!("expected FailedToCreateConsentCookie, got {:?}", other),
    }
}

#[test]
fn test_api_key_extraction() {
    let page = "<script>var cfg = {\"INNERTUBE_API_KEY\": \"AIzaSy-example_key-123\"};</script>";
    assert_eq!(
        extract_innertube_api_key(page, "vid").unwrap(),
        "AIzaSy-example_key-123"
    );
    let no_key = "<html>nothing here</html>";
    assert!(matches!(
        extract_innertube_api_key(no_key, "vid"),
        Err(TranscriptError::YouTubeDataUnparsable(_))
    ));
    let blocked = "<html><div class=\"g-recaptcha\"></div></html>";
    assert!(matches!(
        extract_innertube_api_key(blocked, "vid"),
        Err(TranscriptError::IpBlocked(_))
    ));
}

fn raw_track(code: Option<&str>, url: Option<&str>, name: Option<&str>, kind: Option<&str>, tr: Option<bool>) -> RawCaptionTrack {
    RawCaptionTrack {
        language_code: code.map(|s| s.to_string()),
        base_url: url.map(|s| s.to_string()),
        name: name.map(|s| s.to_string()),
        kind: kind.map(|s| s.to_string()),
        is_translatable: tr,
    }
}

#[test]
fn test_extract_catalog_builds_groups() {
    let resp = PlayerResponse {
        playability_status: ps("OK", ""),
        captions: Some(RawCaptions {
            translation_languages: vec![
                RawTranslationLanguage {
                    language_code: Some("de".to_string()),
                    language: Some("German".to_string()),
                },
                RawTranslationLanguage {
                    language_code: Some("xx".to_string()),
                    language: None,
                },
            ],
            caption_tracks: vec![
                raw_track(
                    Some("en"),
                    Some("https://example.com/en&fmt=srv3"),
                    Some("English"),
                    None,
                    Some(true),
                ),
                raw_track(Some("es"), Some("https://example.com/es"), None, Some("asr"), Some(false)),
                raw_track(None, Some("https://example.com/skip"), None, None, None),
                raw_track(Some("fr"), None, None, None, None),
            ],
        }),
    };
    let list = extract_catalog("vid", &resp).unwrap();
    assert_eq!(list.video_id, "vid");
    // The incomplete translation entry is skipped.
    assert_eq!(list.translation_languages.len(), 1);
    assert_eq!(list.translation_languages[0].language_code, "de");
    // Two of the four tracks survive, split by the generated flag.
    assert_eq!(list.manually_created.len(), 1);
    assert_eq!(list.generated.len(), 1);
    let en = &list.manually_created[0];
    assert_eq!(en.base_url, "https://example.com/en");
    assert_eq!(en.language, "English");
    assert!(en.is_translatable);
    assert_eq!(en.translation_languages.len(), 1);
    let es = &list.generated[0];
    assert!(es.is_generated);
    // The display name falls back to the code.
    assert_eq!(es.language, "es");
    assert!(es.translation_languages.is_empty());
}

#[test]
fn test_extract_catalog_disabled() {
    let no_captions = PlayerResponse {
        playability_status: ps("OK", ""),
        captions: None,
    };
    assert!(matches!(
        extract_catalog("vid", &no_captions),
        Err(TranscriptError::TranscriptsDisabled(_))
    ));
    let all_skipped = PlayerResponse {
        playability_status: None,
        captions: Some(RawCaptions {
            translation_languages: vec![],
            caption_tracks: vec![raw_track(None, None, None, None, None)],
        }),
    };
    assert!(matches!(
        extract_catalog("vid", &all_skipped),
        Err(TranscriptError::TranscriptsDisabled(_))
    ));
}

#[test]
fn test_extract_catalog_gate_short_circuits() {
    let resp = PlayerResponse {
        playability_status: ps("LOGIN_REQUIRED", "Sign in to confirm you're not a bot"),
        captions: None,
    };
    assert!(matches!(
        extract_catalog("vid", &resp),
        Err(TranscriptError::RequestBlocked(_))
    ));
}

#[test]
fn test_classify_http_status() {
    assert!(classify_http_status(200, "OK", "vid").is_ok());
    assert!(classify_http_status(204, "No Content", "vid").is_ok());
    match classify_http_status(429, "Too Many Requests", "vid") {
        Err(TranscriptError::IpBlocked(id)) => assert_eq!(id, "vid"),
        other => panic!("expected IpBlocked, got {:?}", other),
    }
    match classify_http_status(404, "Not Found", "vid") {
        Err(TranscriptError::HttpError(m)) => assert_eq!(m, "HTTP 404: Not Found"),
        other => panic!("expected HttpError, got {:?}", other),
    }
}

fn sample_track() -> TranscriptInfo {
    TranscriptInfo {
        language_code: "en".to_string(),
        language: "English".to_string(),
        is_generated: false,
        is_translatable: true,
        base_url: "https://example.com/captions?v=1".to_string(),
        translation_languages: vec![TranslationLanguage {
            language: "German".to_string(),
            language_code: "de".to_string(),
        }],
    }
}

#[test]
fn test_prepare_transcript_url() {
    let track = sample_track();
    assert_eq!(
        prepare_transcript_url("vid", &track, None).unwrap(),
        "https://example.com/captions?v=1"
    );
    assert_eq!(
        prepare_transcript_url("vid", &track, Some("de")).unwrap(),
        "https://example.com/captions?v=1&tlang=de"
    );
    let mut protected = sample_track();
    protected.base_url = "https://example.com/captions?v=1&exp=xpe".to_string();
    assert!(matches!(
        prepare_transcript_url("vid", &protected, None),
        Err(TranscriptError::PoTokenRequired(_))
    ));
}

#[test]
fn test_assemble_response_plain() {
    let track = sample_track();
    let items = parse_captions("<transcript><text start=\"1\" dur=\"2\">hi</text></transcript>")
        .unwrap();
    let r = assemble_transcript_response("vid", &track, None, items);
    assert_eq!(r.video_id, "vid");
    assert_eq!(r.language, "English");
    assert_eq!(r.language_code, "en");
    assert!(!r.is_generated);
    assert!(r.is_translatable);
    assert_eq!(r.transcript.len(), 1);
    assert_eq!(r.transcript[0].text, "hi");
}

#[test]
fn test_assemble_response_translated() {
    let track = sample_track();
    let r = assemble_transcript_response("vid", &track, Some("de"), vec![]);
    assert_eq!(r.language, "German");
    assert_eq!(r.language_code, "de");
    // A translated transcript is always reported as generated.
    assert!(r.is_generated);
    // A target missing from the list falls back to the track's own name.
    let r2 = assemble_transcript_response("vid", &track, Some("fr"), vec![]);
    assert_eq!(r2.language, "English");
    assert_eq!(r2.language_code, "fr");
}

#[test]
fn test_request_building() {
    assert_eq!(
        watch_url("dQw4w9WgXcQ"),
        "https://www.youtube.com/watch?v=dQw4w9WgXcQ"
    );
    assert_eq!(
        innertube_url("KEY123"),
        "https://www.youtube.com/youtubei/v1/player?key=KEY123"
    );
    assert_eq!(
        innertube_body("dQw4w9WgXcQ"),
        "{\"context\":{\"client\":{\"clientName\":\"ANDROID\",\"clientVersion\":\"20.10.38\"}},\"videoId\":\"dQw4w9WgXcQ\"}"
    );
}

#[test]
fn test_u64_to_string() {
    assert_eq!(u64_to_string(0), "0");
    assert_eq!(u64_to_string(429), "429");
    assert_eq!(u64_to_string(18446744073709551615), "18446744073709551615");
}
