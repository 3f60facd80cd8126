use runic::duration::Duration;
use runic::json::{Json, JsonNumber};
use runic::order::{in_name_order, is_less, rank_by_name, rank_by_score};
use runic::table::Table;
use runic::text::{
    decimal_of, escape_quotes, hex_of, joined, pieces, position, signed_decimal_of, strip_prefix,
    trimmed, unsigned_of, words_of,
};

#[test]
fn json_reads_and_prints() {
    let value = Json::parse(r#" {"b": [1, -2, 2.5, "x\n"], "a": null, "b": true} "#).unwrap();
    assert_eq!(value.print(), r#"{"a":null,"b":true}"#);
    assert!(Json::parse("[1,]").is_err());
    let numbers = Json::parse("[18446744073709551615, -1, 1.5]").unwrap();
    let items = numbers.as_items().unwrap();
    assert_eq!(items[0].as_unsigned(), Some(u64::MAX));
    assert_eq!(items[0].as_signed(), None);
    assert_eq!(items[1], Json::Number(JsonNumber::Negative(-1)));
    assert_eq!(items[1].as_signed(), Some(-1));
    assert_eq!(items[2].as_unsigned(), None);
    assert_eq!(numbers.print(), "[18446744073709551615,-1,1.5]");
}

#[test]
fn printed_objects_hold_the_last_of_each_key_in_order() {
    let number = |n: u64| Json::Number(JsonNumber::Unsigned(n));
    let object = Json::Object(vec![
        ("b".into(), number(1)),
        ("é".into(), number(2)),
        ("a".into(), Json::Object(vec![("y".into(), number(5)), ("x".into(), number(6))])),
        ("b".into(), number(3)),
        ("".into(), number(4)),
    ]);
    assert_eq!(object.print(), r#"{"":4,"a":{"x":6,"y":5},"b":3,"é":2}"#);
}

#[test]
fn json_values_convert_both_ways() {
    let outside: serde_json::Value = serde_json::from_str(r#"{"k":[{"x":1.25},"t"]}"#).unwrap();
    let inside = Json::from_value(outside.clone());
    assert_eq!(inside.to_value(), outside);
    assert_eq!(inside.items_at("k").unwrap()[1].as_text().unwrap(), "t");
    assert_eq!(inside.clone(), inside);
}

#[test]
fn optional_fields_may_be_missing_or_null() {
    let value = Json::parse(r#"{"a":null,"b":"x","c":3,"d":true}"#).unwrap();
    assert_eq!(value.optional_text_at("a"), Some(None));
    assert_eq!(value.optional_text_at("z"), Some(None));
    assert_eq!(value.optional_text_at("b"), Some(Some("x".to_string())));
    assert_eq!(value.optional_text_at("c"), None);
    assert_eq!(value.optional_unsigned_at("c"), Some(Some(3)));
    assert_eq!(value.optional_flag_at("d"), Some(Some(true)));
    assert!(value.is_object());
}

#[test]
fn texts_are_cut_and_joined() {
    assert_eq!(pieces("a,b,,c", ","), vec!["a", "b", "", "c"]);
    assert_eq!(joined(&vec!["a".into(), "b".into()], ", "), "a, b");
    assert_eq!(trimmed("\u{3000} x \n"), "x");
    assert_eq!(words_of(" a  b\tc "), vec!["a", "b", "c"]);
    assert_eq!(position("héllo", "l"), Some(2));
    assert_eq!(strip_prefix("select:x", "select:").as_deref(), Some("x"));
    assert_eq!(escape_quotes(r#"a"b"#), r#"a\"b"#);
}

#[test]
fn numbers_are_spelled() {
    assert_eq!(decimal_of(0), "0");
    assert_eq!(decimal_of(u128::MAX), u128::MAX.to_string());
    assert_eq!(signed_decimal_of(i64::MIN), i64::MIN.to_string());
    assert_eq!(hex_of(0x200b, 4, true), "200B");
    assert_eq!(hex_of(1, 16, false), "0000000000000001");
    assert_eq!(unsigned_of("+7"), Some(7));
    assert_eq!(unsigned_of("18446744073709551616"), None);
    assert_eq!(unsigned_of(" 7"), None);
}

#[test]
fn tables_keep_one_value_for_a_key() {
    let mut table = Table::new();
    table.insert("b", 1);
    table.insert("a", 2);
    table.insert("b", 3);
    assert_eq!(table.len(), 2);
    assert_eq!(table.get("b"), Some(&3));
    assert_eq!(table.sorted_keys(), vec!["a", "b"]);
    assert_eq!(table.remove("b"), Some(3));
    assert_eq!(table.remove("b"), None);
    assert!(table.has("a") && !table.has("b"));
}

#[test]
fn orders_are_stable() {
    assert_eq!(rank_by_score(&vec![1, 3, 2, 3]), vec![1, 3, 2, 0]);
    let names: Vec<String> = vec!["b".into(), "a".into(), "B".into(), "é".into(), "a".into()];
    assert_eq!(rank_by_name(&names), vec![2, 1, 4, 0, 3]);
    assert!(is_less("a", "ab") && !is_less("b", "ab") && !is_less("a", "a"));
    assert_eq!(in_name_order(&vec!["z".into(), "y".into()]), vec!["y", "z"]);
}

#[test]
fn spans_of_time_are_counted_and_spelled() {
    assert_eq!(Duration::from_secs(2).as_nanos(), 2_000_000_000);
    assert_eq!(Duration::from_millis(1500).debug_text(), "1.5s");
    assert_eq!(Duration::from_secs(0).debug_text(), "0ns");
    let none = Duration::from_secs(5).saturating_sub(Duration::from_secs(7));
    assert_eq!(none, Duration::from_secs(0));
    let longest = Duration::from_secs(u64::MAX).saturating_mul(3);
    assert_eq!(longest.min(Duration::from_secs(1)), Duration::from_secs(1));
}
