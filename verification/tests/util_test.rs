use steam_protobuf_dumper::util::to_literal;

#[test]
fn test_simple_string() {
    assert_eq!(to_literal("hello"), "\"hello\"");
}

#[test]
fn test_escape_sequences() {
    assert_eq!(to_literal("a\nb"), "\"a\\nb\"");
    assert_eq!(to_literal("a\tb"), "\"a\\tb\"");
    assert_eq!(to_literal("a\\b"), "\"a\\\\b\"");
    assert_eq!(to_literal("a\"b"), "\"a\\\"b\"");
}

#[test]
fn test_empty_string() {
    assert_eq!(to_literal(""), "\"\"");
}

#[test]
fn control_characters_are_escaped() {
    assert_eq!(to_literal("\x07\x08\x0C\r\x0B"), "\"\\a\\b\\f\\r\\v\"");
}

#[test]
fn other_characters_are_kept() {
    assert_eq!(to_literal("héllo wörld/.proto"), "\"héllo wörld/.proto\"");
}
