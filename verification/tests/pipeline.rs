use translingo::decode::{parse_translation_json, truncate_for_error};
use translingo::extract::{extract_json_array, extract_json_object};
use translingo::fingerprint::{extract_doc_id, fingerprint, hash_source_text, sentence_fingerprint};

const HELLO_SHA256: &str = "2cf24dba5fb0a30e26e83b2ac5b9e29e1b161e5c1fa7425e73043362938b9824";

#[test]
fn hash_matches_known_digest() {
    assert_eq!(hash_source_text("hello"), HELLO_SHA256);
}

#[test]
fn hash_of_empty_text() {
    assert_eq!(
        hash_source_text(""),
        "e3b0c44298fc1c149afbf4c8996fb92427ae41e4649b934ca495991b7852b855"
    );
}

#[test]
fn fingerprint_layout_is_pipe_joined() {
    let key = fingerprint("doc42", "doc42:sent7", "hello", "model-a", "en");
    assert_eq!(key, format!("doc42|doc42:sent7|{}|model-a|en", HELLO_SHA256));
}

#[test]
fn fingerprint_is_deterministic() {
    let a = fingerprint("d", "d:1", "some text", "m", "fr");
    let b = fingerprint("d", "d:1", "some text", "m", "fr");
    assert_eq!(a, b);
}

#[test]
fn fingerprint_changes_with_each_component() {
    let base = fingerprint("d", "d:1", "text", "m", "fr");
    assert_ne!(fingerprint("e", "d:1", "text", "m", "fr"), base);
    assert_ne!(fingerprint("d", "d:2", "text", "m", "fr"), base);
    assert_ne!(fingerprint("d", "d:1", "text ", "m", "fr"), base);
    assert_ne!(fingerprint("d", "d:1", "text", "n", "fr"), base);
    assert_ne!(fingerprint("d", "d:1", "text", "m", "de"), base);
}

#[test]
fn sentence_fingerprint_derives_scope_from_id() {
    assert_eq!(
        sentence_fingerprint("doc42:sent7", "hello", "m", "en"),
        fingerprint("doc42", "doc42:sent7", "hello", "m", "en")
    );
}

#[test]
fn doc_id_is_prefix_up_to_colon() {
    assert_eq!(extract_doc_id("doc42:sent7"), "doc42");
    assert_eq!(extract_doc_id("plain"), "plain");
    assert_eq!(extract_doc_id(":leading"), "");
    assert_eq!(extract_doc_id("a:b:c"), "a");
}

#[test]
fn extractor_takes_verbatim_json_array() {
    assert_eq!(extract_json_array("  [1, 2, 3]  "), "[1, 2, 3]");
}

#[test]
fn extractor_reads_tagged_fence() {
    let input = "Sure! ```json\n[{\"sid\":\"a\",\"translation\":\"x\"}]\n```";
    assert_eq!(extract_json_array(input), "[{\"sid\":\"a\",\"translation\":\"x\"}]");
}

#[test]
fn extractor_scrapes_bracketed_span_from_prose() {
    let input = "Here is your answer: [1, 2] hope that helps";
    assert_eq!(extract_json_array(input), "[1, 2]");
}

#[test]
fn extractor_passes_through_when_no_json() {
    assert_eq!(extract_json_array("  no json at all  "), "no json at all");
}

#[test]
fn extractor_reads_generic_fence_with_language_tag() {
    let input = "```rust\n[7]\n```";
    assert_eq!(extract_json_array(input), "[7]");
}

#[test]
fn object_extractor_takes_verbatim_object() {
    assert_eq!(extract_json_object("  {\"a\": 1}  "), "{\"a\": 1}");
}

#[test]
fn object_extractor_reads_tagged_fence() {
    let input = "reply:\n```json\n{\"a\": 1}\n```\ndone";
    assert_eq!(extract_json_object(input), "{\"a\": 1}");
}

#[test]
fn object_extractor_scrapes_braced_span() {
    let input = "text {\"a\": 1} more";
    assert_eq!(extract_json_object(input), "{\"a\": 1}");
}

#[test]
fn decode_reports_parse_error_with_snippet() {
    let err = parse_translation_json("no json at all").unwrap_err();
    assert_eq!(err.snippet, "no json at all");
}

#[test]
fn decode_snippet_is_truncated() {
    let long: String = std::iter::repeat('x').take(250).collect();
    let err = parse_translation_json(&long).unwrap_err();
    assert_eq!(err.snippet.chars().count(), 203);
    assert!(err.snippet.ends_with("..."));
}

#[test]
fn truncate_keeps_short_text() {
    let s: String = std::iter::repeat('y').take(200).collect();
    assert_eq!(truncate_for_error(&s), s);
}

#[test]
fn truncate_cuts_long_text() {
    let s: String = std::iter::repeat('y').take(201).collect();
    let t = truncate_for_error(&s);
    assert_eq!(t.chars().count(), 203);
    assert!(t.ends_with("..."));
}

#[test]
fn decoder_accepts_every_alias_spelling() {
    let spellings = ["translation", "translated_text", "text", "translated"];
    for name in spellings {
        let raw = format!("[{{\"sid\":\"a\",\"{}\":\"x\"}}]", name);
        let out = parse_translation_json(&raw).unwrap();
        assert_eq!(out.len(), 1);
        assert_eq!(out[0].sid, "a");
        assert_eq!(out[0].translation, "x");
    }
}

#[test]
fn decoder_drops_record_without_text() {
    let raw = "[{\"sid\":\"a\",\"translation\":\"x\"},{\"sid\":\"b\"},{\"sid\":\"c\",\"translation\":null}]";
    let out = parse_translation_json(raw).unwrap();
    assert_eq!(out.len(), 1);
    assert_eq!(out[0].sid, "a");
}

#[test]
fn decoder_rejects_record_without_sid() {
    assert!(parse_translation_json("[{\"translation\":\"x\"}]").is_err());
}

#[test]
fn decoder_rejects_non_array() {
    assert!(parse_translation_json("{\"sid\":\"a\"}").is_err());
}

#[test]
fn decoder_rejects_numeric_translation() {
    assert!(parse_translation_json("[{\"sid\":\"a\",\"translation\":3}]").is_err());
}

#[test]
fn decoder_handles_fenced_reply_end_to_end() {
    let input = "Sure! ```json\n[{\"sid\":\"a\",\"translation\":\"x\"}]\n```";
    let out = parse_translation_json(input).unwrap();
    assert_eq!(out.len(), 1);
    assert_eq!(out[0].sid, "a");
    assert_eq!(out[0].translation, "x");
}
