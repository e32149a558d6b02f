//! Identifier normalization: bare identifiers, the URL shapes, and the
//! rejections.

use youtube_transcript::extract_video_id;
use youtube_transcript::TranscriptError;

#[test]
fn test_extract_video_id_direct() {
    assert_eq!(extract_video_id("dQw4w9WgXcQ").unwrap(), "dQw4w9WgXcQ");
}

#[test]
fn test_extract_video_id_watch_url() {
    assert_eq!(
        extract_video_id("https://www.youtube.com/watch?v=dQw4w9WgXcQ").unwrap(),
        "dQw4w9WgXcQ"
    );
}

#[test]
fn test_extract_video_id_short_url() {
    assert_eq!(
        extract_video_id("https://youtu.be/dQw4w9WgXcQ").unwrap(),
        "dQw4w9WgXcQ"
    );
}

#[test]
fn test_extract_video_id_short_url_with_query() {
    assert_eq!(
        extract_video_id("https://youtu.be/_NuH3D4SN-c?si=VSFea_rMwtaiR8Q7").unwrap(),
        "_NuH3D4SN-c"
    );
}

#[test]
fn test_extract_video_id_invalid() {
    assert!(extract_video_id("not-a-valid-id").is_err());
    assert!(extract_video_id("https://example.com").is_err());
}

#[test]
fn test_extract_video_id_embed_url() {
    assert_eq!(
        extract_video_id("https://www.youtube.com/embed/dQw4w9WgXcQ").unwrap(),
        "dQw4w9WgXcQ"
    );
}

#[test]
fn test_extract_video_id_protocol_relative() {
    assert_eq!(
        extract_video_id("www.youtube.com/watch?v=dQw4w9WgXcQ").unwrap(),
        "dQw4w9WgXcQ"
    );
}

#[test]
fn test_extract_video_id_trims_whitespace() {
    assert_eq!(extract_video_id("  dQw4w9WgXcQ\n").unwrap(), "dQw4w9WgXcQ");
}

#[test]
fn test_extract_video_id_error_message() {
    match extract_video_id("nope") {
        Err(TranscriptError::InvalidVideoId(msg)) => {
            assert_eq!(
                msg,
                "nope (YouTube video IDs must be 11 characters, or a valid YouTube URL)"
            );
        }
        other => panic!("expected InvalidVideoId, got {:?}", other),
    }
}
