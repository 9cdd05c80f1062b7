use ghss::json::{Json, JsonMap, JsonNumber};
use ghss::text::{
    concat3, contains_str, find_char, join, split, split_once, starts_with, str_eq, str_lt,
    strip_prefix, trim,
};

#[test]
fn map_keeps_keys_sorted_and_unique() {
    let mut m = JsonMap::new();
    assert!(m.is_empty());
    m.insert("b".into(), Json::Bool(true));
    m.insert("a".into(), Json::Null);
    m.insert("c".into(), Json::Number(JsonNumber::PosInt(1)));
    m.insert("b".into(), Json::Bool(false));
    assert_eq!(m.len(), 3);
    let keys: Vec<&str> = (0..m.len()).map(|i| m.key_at(i).as_str()).collect();
    assert_eq!(keys, vec!["a", "b", "c"]);
    assert_eq!(m.get("b"), Some(&Json::Bool(false)));
    assert_eq!(m.remove("b"), Some(Json::Bool(false)));
    assert_eq!(m.remove("b"), None);
    assert_eq!(m.get("b"), None);
    assert_eq!(m.len(), 2);
    assert_eq!(m.value_at(1), &Json::Number(JsonNumber::PosInt(1)));
}

#[test]
fn json_values_compare_by_content() {
    let a = Json::object(vec![("x".into(), Json::Array(vec![Json::Null, Json::Str("s".into())]))]);
    let b = a.deep_clone();
    assert!(a.equals(&b));
    assert_eq!(a, b);
    assert_ne!(a, Json::object(vec![("x".into(), Json::Array(vec![]))]));
    assert_ne!(Json::Number(JsonNumber::PosInt(1)), Json::Number(JsonNumber::NegInt(-1)));
    assert_eq!(Json::from_opt_string(&None), Json::Null);
    assert_eq!(Json::from_opt_string(&Some("t".into())), Json::from_str("t"));
    assert_eq!(Json::Number(JsonNumber::PosInt(7)).as_u64(), Some(7));
    assert_eq!(Json::Str("7".into()).as_u64(), None);
    assert!(Json::Null.is_null());
    assert_eq!(Json::Bool(true).as_bool(), Some(true));
    // A later member with the same key replaces the earlier one.
    let o = Json::object(vec![("k".into(), Json::Bool(true)), ("k".into(), Json::Bool(false))]);
    assert_eq!(o.get("k"), Some(&Json::Bool(false)));
}

#[test]
fn text_helpers() {
    assert_eq!(trim("\u{3000} a b \n"), "a b");
    assert_eq!(trim("   "), "");
    assert_eq!(split("a::b", ':'), vec!["a", "", "b"]);
    assert_eq!(split("", ':'), vec![""]);
    assert_eq!(join(&vec!["a".into(), "b".into()], ", "), "a, b");
    assert_eq!(join(&vec![], ", "), "");
    assert_eq!(split_once("x/y/z", '/'), Some(("x".to_string(), "y/z".to_string())));
    assert_eq!(split_once("xyz", '/'), None);
    assert_eq!(find_char("añb/", '/'), Some(3));
    assert!(starts_with("ruleset.x", "ruleset."));
    assert!(!starts_with("rule", "ruleset."));
    assert_eq!(strip_prefix("features.has_wiki", "features."), Some("has_wiki".to_string()));
    assert_eq!(strip_prefix("others", "features."), None);
    assert!(str_eq("a", "a"));
    assert!(str_lt("a", "b"));
    assert!(str_lt("a", "ab"));
    assert!(!str_lt("b", "ab"));
    assert!(contains_str(&vec!["x".into(), "y".into()], "y"));
    assert_eq!(concat3("a", "ñ", "c"), "añc");
}

// The white space that `trim` removes is exactly what `char::is_whitespace` calls white space.
#[test]
fn trim_white_space_is_std_white_space() {
    for c in (0u32..=0x10FFFF).filter_map(char::from_u32) {
        let s = c.to_string();
        assert_eq!(trim(&s).is_empty(), c.is_whitespace(), "U+{:04X}", c as u32);
    }
}
