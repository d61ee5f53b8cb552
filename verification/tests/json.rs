use krun_devices::control::json::{extract_string_field, extract_u32_field};

#[test]
fn test_extract_string_field() {
    let json = r#"{"cmd": "balloon_set", "target_mib": 128}"#;
    assert_eq!(
        extract_string_field(json, "cmd"),
        Some("balloon_set".to_string())
    );
    assert_eq!(extract_string_field(json, "target_mib"), None);
    assert_eq!(extract_string_field(json, "missing"), None);
}

#[test]
fn test_extract_u32_field() {
    let json = r#"{"cmd": "balloon_set", "target_mib": 128}"#;
    assert_eq!(extract_u32_field(json, "target_mib"), Some(128));
    assert_eq!(extract_u32_field(json, "cmd"), None);
    assert_eq!(extract_u32_field(json, "missing"), None);
}

#[test]
fn test_extract_u32_zero() {
    let json = r#"{"target_mib": 0}"#;
    assert_eq!(extract_u32_field(json, "target_mib"), Some(0));
}

#[test]
fn fields_are_found_whatever_the_white_space() {
    assert_eq!(
        extract_string_field("{\"a\"\t:\n \"x y\"}", "a"),
        Some("x y".to_string())
    );
    assert_eq!(extract_u32_field("{\"a\" :\u{a0}7 }", "a"), Some(7));
}

#[test]
fn malformed_fields_are_not_read() {
    assert_eq!(extract_string_field(r#"{"a" "x"}"#, "a"), None);
    assert_eq!(extract_string_field(r#"{"a": "x"#, "a"), None);
    assert_eq!(extract_string_field(r#"{"a":"#, "a"), None);
    assert_eq!(extract_u32_field(r#"{"a": x1}"#, "a"), None);
    assert_eq!(extract_u32_field(r#"{"a": 4294967296}"#, "a"), None);
    assert_eq!(extract_u32_field(r#"{"a": 4294967295}"#, "a"), Some(u32::MAX));
    assert_eq!(extract_u32_field(r#"{"a": 12.5}"#, "a"), Some(12));
    assert_eq!(extract_u32_field(r#"{"a": 007"#, "a"), Some(7));
}

#[test]
fn first_occurrence_of_the_name_counts() {
    assert_eq!(extract_u32_field(r#"{"a": 1, "a": 2}"#, "a"), Some(1));
    // The name is looked for in values as well.
    assert_eq!(extract_u32_field(r#"{"b": "a", "a": 2}"#, "a"), None);
    assert_eq!(
        extract_string_field(r#"{"x": "Grün", "y": "é"}"#, "y"),
        Some("é".to_string())
    );
}
