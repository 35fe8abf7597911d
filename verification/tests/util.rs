use agsh::text::{floor_char_boundary, parse_usize, truncate_string};
use agsh::util::{compile_user_regex, redirects_to_scratchpad};

#[test]
fn test_truncate_string() {
    assert_eq!(truncate_string("hello", 10), "hello");
    assert_eq!(truncate_string("hello world", 5), "hello");
}

#[test]
fn truncate_string_keeps_characters_whole() {
    // 'é' takes two bytes, '€' three.
    assert_eq!(truncate_string("aé", 2), "a");
    assert_eq!(truncate_string("aé", 3), "aé");
    assert_eq!(truncate_string("€x", 2), "");
    assert_eq!(truncate_string("€x", 4), "€x");
    assert_eq!(truncate_string("", 0), "");
    assert_eq!(truncate_string("abc", 0), "");
}

#[test]
fn floor_char_boundary_steps_back_to_a_boundary() {
    let s = "a€b";
    assert_eq!(floor_char_boundary(s, 0), 0);
    assert_eq!(floor_char_boundary(s, 1), 1);
    assert_eq!(floor_char_boundary(s, 2), 1);
    assert_eq!(floor_char_boundary(s, 3), 1);
    assert_eq!(floor_char_boundary(s, 4), 4);
    assert_eq!(floor_char_boundary(s, 100), 5);
}

#[test]
fn parse_usize_matches_std() {
    for s in ["0", "7", "+7", "007", "18446744073709551615", "18446744073709551616", "", "+", "-1", "1a", " 1", "++1"] {
        assert_eq!(parse_usize(s), s.parse::<usize>().ok(), "input {:?}", s);
    }
}

#[test]
fn test_compile_user_regex_rejects_oversized() {
    let result = compile_user_regex("a{10000000}", "test_tool");
    assert!(result.is_err(), "oversized pattern should be rejected");
}

#[test]
fn test_compile_user_regex_accepts_normal_pattern() {
    let re = compile_user_regex(r"\d+", "test_tool").expect("normal pattern compiles");
    assert!(re.is_match("abc 123"));
    assert!(!re.is_match("abc"));
    assert_eq!(re.pattern(), r"\d+");
}

#[test]
fn test_compile_user_regex_rejects_invalid_syntax() {
    let result = compile_user_regex("[invalid", "test_tool");
    assert!(result.is_err());
    if let Err(error) = result {
        assert_eq!(error.tool_name, "test_tool");
        assert!(error.message.starts_with("invalid or oversized regex '[invalid': "));
    }
}

fn scratchpad_of(value: &serde_json::Value) -> Option<&str> {
    value.get("scratchpad").and_then(|v| v.as_str())
}

fn object(key: &str, value: serde_json::Value) -> serde_json::Value {
    let mut map = serde_json::Map::new();
    map.insert(key.to_string(), value);
    serde_json::Value::Object(map)
}

#[test]
fn test_redirects_to_scratchpad() {
    assert!(redirects_to_scratchpad(scratchpad_of(&object(
        "scratchpad",
        serde_json::Value::String("img".to_string())
    ))));
    assert!(!redirects_to_scratchpad(scratchpad_of(&object(
        "scratchpad",
        serde_json::Value::String(String::new())
    ))));
    assert!(!redirects_to_scratchpad(scratchpad_of(&serde_json::Value::Object(
        serde_json::Map::new()
    ))));
    assert!(!redirects_to_scratchpad(scratchpad_of(&object(
        "from_scratchpad",
        serde_json::Value::String("img".to_string())
    ))));
}
