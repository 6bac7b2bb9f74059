use nyquist_lib::tags::{
    is_encoder_tag_key, scan_for_lossy_encoder_traces, tag_value_as_string, RawTag, TagValue,
};

fn text(key: &str, value: &str) -> RawTag {
    RawTag { key: key.to_string(), value: TagValue::Text(value.to_string()) }
}

#[test]
fn encoder_keys_are_recognised_whatever_their_case() {
    assert!(is_encoder_tag_key("ENCODER"));
    assert!(is_encoder_tag_key("Encoded_By"));
    assert!(is_encoder_tag_key("©too"));
    assert!(is_encoder_tag_key("SOFTWARE"));
    assert!(!is_encoder_tag_key("COMMENT"));
    assert!(!is_encoder_tag_key("TITLE"));
}

#[test]
fn a_lame_encoder_tag_is_found() {
    let found = scan_for_lossy_encoder_traces(&vec![text("ENCODER", "LAME 3.100")]);
    assert_eq!(found.len(), 1);
    assert_eq!(found[0].tag_key, "ENCODER");
    assert_eq!(found[0].tag_value, "LAME 3.100");
    assert_eq!(found[0].matched_pattern, "lame");
}

#[test]
fn free_text_tags_are_not_read() {
    let found = scan_for_lossy_encoder_traces(&vec![text("COMMENT", "ripped from a LAME mp3")]);
    assert!(found.is_empty());
}

#[test]
fn itunes_and_lossless_encoders_are_not_counted() {
    let found = scan_for_lossy_encoder_traces(&vec![
        text("ENCODER", "iTunes 12.9"),
        text("ENCODER", "reference libFLAC 1.4.3"),
    ]);
    assert!(found.is_empty());
}

#[test]
fn every_pattern_in_a_tag_is_listed_in_pattern_order() {
    let found = scan_for_lossy_encoder_traces(&vec![
        text("ENCODED_BY", "libmp3lame"),
        text("TITLE", "x"),
        RawTag { key: "ENCODER".to_string(), value: TagValue::Other },
    ]);
    let patterns: Vec<&str> = found.iter().map(|m| m.matched_pattern.as_str()).collect();
    assert_eq!(patterns, vec!["lame", "libmp3lame"]);
}

#[test]
fn a_text_list_reads_as_its_items_joined_by_spaces() {
    let list = TagValue::TextList(vec!["Fraunhofer".to_string(), "IIS".to_string()]);
    assert_eq!(tag_value_as_string(&list), Some("Fraunhofer IIS".to_string()));
    assert_eq!(tag_value_as_string(&TagValue::Other), None);
    let found = scan_for_lossy_encoder_traces(&vec![RawTag { key: "TOOL".to_string(), value: list }]);
    assert_eq!(found.len(), 1);
    assert_eq!(found[0].tag_value, "Fraunhofer IIS");
    assert_eq!(found[0].matched_pattern, "fraunhofer");
}

#[test]
fn encoder_keys_ignore_ascii_case() {
    for key in ["ENCODER", "encoder", "EnCoDeD_By", "Tool", "COMMENT", "title"] {
        let expected = ["encoder", "encoded", "encoding", "tool", "software", "too"]
            .iter()
            .any(|m| key.to_ascii_lowercase().contains(m));
        assert_eq!(is_encoder_tag_key(key), expected, "{key}");
        assert_eq!(is_encoder_tag_key(&key.to_ascii_uppercase()), expected, "{key}");
        assert_eq!(is_encoder_tag_key(&key.to_ascii_lowercase()), expected, "{key}");
    }
}
