use graph_export::json::text_member;
use serde_json::Value;

#[test]
fn text_member_reads_a_string() {
    let v: Value = serde_json::from_str("{\"a\":\"x\",\"b\":1,\"c\":null,\"d\":[\"x\"],\"e\":{\"a\":\"y\"}}").unwrap();
    assert_eq!(text_member(&v, "a"), Some("x".to_string()));
    assert_eq!(text_member(&v, "b"), None);
    assert_eq!(text_member(&v, "c"), None);
    assert_eq!(text_member(&v, "d"), None);
    assert_eq!(text_member(&v, "e"), None);
    assert_eq!(text_member(&v, "missing"), None);
}

#[test]
fn text_member_of_what_is_no_object_is_none() {
    for text in ["\"a\"", "[\"a\"]", "3", "null", "true"] {
        let v: Value = serde_json::from_str(text).unwrap();
        assert_eq!(text_member(&v, "a"), None);
    }
}
