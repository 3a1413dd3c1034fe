use collage::is_valid_attr_key;

#[test]
fn is_valid() {
    assert!(is_valid_attr_key("id"));
    assert!(is_valid_attr_key("data-var"));
    assert!(!is_valid_attr_key("'data-var"));
    assert!(is_valid_attr_key(r#"id="foo""#));
}

#[test]
fn attr_key_edges() {
    assert!(!is_valid_attr_key(""));
    assert!(!is_valid_attr_key("=foo"));
    assert!(is_valid_attr_key("_x"));
    assert!(is_valid_attr_key(":x"));
    assert!(!is_valid_attr_key("-x"));
    assert!(!is_valid_attr_key(".x"));
    assert!(is_valid_attr_key("x-y.z:w_v"));
    assert!(!is_valid_attr_key("a b"));
    assert!(is_valid_attr_key("a=b c"));
    assert!(is_valid_attr_key("é1"));
    assert!(!is_valid_attr_key("!id"));
}
