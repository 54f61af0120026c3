use ag_ui_surface::json::{json_opt_text, json_texts, object, Json};
use ag_ui_surface::text::{
    alnum_ascii, before, concat5, contains, contains_char, control, debug_quote_list, digit,
    is_blank, join, lower_ascii, space, split, split_once, starts_with, strip_prefix,
    to_ascii_lowercase, to_decimal, trim, trim_end_char, trim_start_char,
};
use ag_ui_surface::textmap::TextMap;

#[test]
fn characters_are_classed_as_usual() {
    for number in 0..=0x10ffff_u32 {
        if let Some(c) = char::from_u32(number) {
            assert_eq!(space(c), c.is_whitespace(), "{number:x}");
            assert_eq!(control(c), c.is_control(), "{number:x}");
            assert_eq!(digit(c), c.is_ascii_digit(), "{number:x}");
            assert_eq!(lower_ascii(c), c.is_ascii_lowercase(), "{number:x}");
            assert_eq!(alnum_ascii(c), c.is_ascii_alphanumeric(), "{number:x}");
        }
    }
}

#[test]
fn texts_are_cut_as_usual() {
    for text in ["", " ", "a", "  a b ", "\u{3000}é\u{2003}", "a,b", ",", "a,,b,", "//a//"] {
        assert_eq!(trim(text), text.trim());
        assert_eq!(is_blank(text), text.trim().is_empty());
        assert_eq!(split(text, ','), text.split(',').collect::<Vec<_>>());
        assert_eq!(split_once(text, ','), text.split_once(','));
        assert_eq!(trim_end_char(text, '/'), text.trim_end_matches('/'));
        assert_eq!(trim_start_char(text, '/'), text.trim_start_matches('/'));
        assert_eq!(starts_with(text, "a,"), text.starts_with("a,"));
        assert_eq!(strip_prefix(text, "a,"), text.strip_prefix("a,"));
        assert_eq!(contains(text, ",b"), text.contains(",b"));
        assert_eq!(contains_char(text, 'é'), text.contains('é'));
        assert_eq!(before(text, "a"), text < "a");
    }
    assert_eq!(to_ascii_lowercase("AÉz9"), "aÉz9");
    assert_eq!(concat5("a", "b", "", "c", "d"), "abcd");
    assert_eq!(to_decimal(0), "0");
    assert_eq!(to_decimal(u64::MAX), u64::MAX.to_string());
    let list = vec!["a".to_string(), "b\"".to_string()];
    assert_eq!(join(&list, ", "), "a, b\"");
    assert_eq!(debug_quote_list(&list), format!("{list:?}"));
}

#[test]
fn documents_are_read_as_they_are_written() {
    let parsed = Json::parse(r#"{ "b": [1, -2.5, true, null], "a": "é\n" }"#).unwrap();
    assert_eq!(parsed.str_member("a"), Some("é\n"));
    assert_eq!(
        parsed.get("b").unwrap().as_array().unwrap(),
        &vec![
            Json::Number("1".to_string()),
            Json::Number("-2.5".to_string()),
            Json::Bool(true),
            Json::Null,
        ]
    );
    assert_eq!(Json::parse_bytes(b"[]"), Ok(Json::Array(vec![])));
    assert!(Json::parse("{").is_err());
    assert!(Json::parse_bytes(&[0xff]).is_err());
    assert_eq!(Json::from_value(serde_json::Value::Bool(true)), Json::Bool(true));
    let made = object()
        .with("x", json_opt_text(&None))
        .with("y", json_texts(&vec!["t".to_string()]));
    assert_eq!(made, Json::parse(r#"{ "x": null, "y": ["t"] }"#).unwrap());
}

#[test]
fn a_map_holds_one_value_for_each_name() {
    let mut map = TextMap::new();
    map.insert("a", "1");
    map.insert("b", "2");
    map.insert("a", "3");
    assert_eq!(map.get("a"), Some("3"));
    assert_eq!(map.get("b"), Some("2"));
    let copy = map.copy();
    map.remove("a");
    assert_eq!(copy.get("a"), Some("3"));
    assert_eq!(map.get("a"), None);
    assert_eq!(map.get("c"), None);
}
