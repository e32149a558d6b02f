//! The timed-text decoder: cue extraction, entity decoding, attribute
//! defaults, and malformed documents.

use youtube_transcript::parse_captions;
use youtube_transcript::TranscriptError;

#[test]
fn test_decode_three_cues_in_order() {
    let xml = "<?xml version=\"1.0\" encoding=\"utf-8\" ?><transcript>\
        <text start=\"0.0\" dur=\"1.54\">First line</text>\
        <text start=\"1.54\" dur=\"2.2\">Second line</text>\
        <text start=\"3.74\" dur=\"0.5\">Third line</text>\
        </transcript>";
    let items = parse_captions(xml).unwrap();
    assert_eq!(items.len(), 3);
    assert_eq!(items[0].text, "First line");
    assert_eq!(items[0].start, "0.0");
    assert_eq!(items[0].duration, "1.54");
    assert_eq!(items[1].text, "Second line");
    assert_eq!(items[1].start, "1.54");
    assert_eq!(items[1].duration, "2.2");
    assert_eq!(items[2].text, "Third line");
    assert_eq!(items[2].start, "3.74");
    assert_eq!(items[2].duration, "0.5");
}

#[test]
fn test_decode_empty_document() {
    let items = parse_captions("<transcript></transcript>").unwrap();
    assert!(items.is_empty());
    let items = parse_captions("").unwrap();
    assert!(items.is_empty());
}

#[test]
fn test_decode_entities() {
    let xml = "<transcript><text start=\"1\" dur=\"2\">Tom &amp; Jerry &lt;3 &quot;cats&quot; &#39;n&#39; mice&gt;</text></transcript>";
    let items = parse_captions(xml).unwrap();
    assert_eq!(items[0].text, "Tom & Jerry <3 \"cats\" 'n' mice>");
}

#[test]
fn test_decode_missing_duration_defaults_to_zero() {
    let xml = "<transcript><text start=\"4.25\">No duration</text></transcript>";
    let items = parse_captions(xml).unwrap();
    assert_eq!(items.len(), 1);
    assert_eq!(items[0].start, "4.25");
    assert_eq!(items[0].duration, "0");
}

#[test]
fn test_decode_self_closing_cue() {
    let xml = "<transcript><text start=\"1.0\" dur=\"2.0\"/><text start=\"3.0\" dur=\"1.0\">words</text></transcript>";
    let items = parse_captions(xml).unwrap();
    assert_eq!(items.len(), 2);
    assert_eq!(items[0].text, "");
    assert_eq!(items[0].start, "1.0");
    assert_eq!(items[1].text, "words");
}

#[test]
fn test_decode_malformed_fails() {
    let unterminated_open = "<transcript><text start=\"1\" dur=\"2\"";
    assert!(matches!(
        parse_captions(unterminated_open),
        Err(TranscriptError::XmlParseError(_))
    ));
    let unterminated_cue = "<transcript><text start=\"1\" dur=\"2\">hello";
    assert!(matches!(
        parse_captions(unterminated_cue),
        Err(TranscriptError::XmlParseError(_))
    ));
}
