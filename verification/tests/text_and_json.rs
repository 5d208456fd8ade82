use droid_mcp::json::{Number, Value};
use droid_mcp::table::Table;
use droid_mcp::text::{
    alphanumeric, cut_text, decimal_int_text, decimal_text, joined, leading, precedes, stands_at, text_of,
    trimmed, white_space,
};

#[test]
fn characters_are_pushed_in_order() {
    let chars: Vec<char> = vec!['a', 'é', '日', 'z'];
    assert_eq!(text_of(&chars, 1, 3), "é日");
    assert_eq!(text_of(&chars, 2, 2), "");
}

#[test]
fn letters_and_digits_of_any_script_are_alphanumeric() {
    for c in ['a', 'Z', '0', '9', 'é', '日', '٣'] {
        assert!(alphanumeric(c), "{}", c);
    }
    for c in ['_', '-', '.', '/', ' ', '\'', '\u{301}'] {
        assert!(!alphanumeric(c), "{}", c);
    }
}

#[test]
fn white_space_is_trimmed_at_both_ends() {
    assert_eq!(trimmed(" \t a b \r\n\u{a0}\u{3000}"), "a b");
    assert_eq!(trimmed("\u{2028}\u{85}"), "");
    assert_eq!(trimmed(""), "");
    assert!(white_space('\u{1680}'));
    assert!(!white_space('\u{200b}'));
    for n in 0..0x3100u32 {
        if let Some(c) = char::from_u32(n) {
            assert_eq!(white_space(c), c.is_whitespace(), "{:x}", n);
        }
    }
}

#[test]
fn numbers_are_written_in_decimal() {
    assert_eq!(decimal_text(0), "0");
    assert_eq!(decimal_text(u64::MAX), "18446744073709551615");
    assert_eq!(decimal_int_text(-1), "-1");
    assert_eq!(decimal_int_text(i64::MIN), "-9223372036854775808");
    assert_eq!(decimal_int_text(i64::MAX), "9223372036854775807");
}

#[test]
fn patterns_are_found_where_they_stand() {
    let chars: Vec<char> = "a{b}c".chars().collect();
    let slot: Vec<char> = "{b}".chars().collect();
    assert!(stands_at(&chars, &slot, 1));
    assert!(!stands_at(&chars, &slot, 0));
    assert!(!stands_at(&chars, &slot, 3));
    assert!(!stands_at(&chars, &slot, 9));
    assert!(stands_at(&chars, &vec![], 5));
}

#[test]
fn parts_are_joined() {
    assert_eq!(joined(&vec!["a".into(), "".into(), "c".into()], ", "), "a, , c");
    assert_eq!(joined(&vec![], ", "), "");
}

#[test]
fn texts_are_cut_at_a_character() {
    assert_eq!(cut_text("aé日", 6), "aé日");
    assert_eq!(cut_text("aé日", 5), "aé");
    assert_eq!(cut_text("aé日", 2), "a");
    assert_eq!(cut_text("aé日", 0), "");
    assert_eq!(leading("aé日", 2), "aé");
    assert_eq!(leading("aé日", 9), "aé日");
}

fn object(entries: Vec<(&str, Value)>) -> Value {
    let mut table = Table::new();
    for (name, value) in entries {
        table.insert(name.to_string(), value);
    }
    Value::Object(table)
}

#[test]
fn json_text_is_compact() {
    let v = object(vec![
        ("a", Value::Array(vec![Value::Null, Value::Bool(true), Value::Number(Number::NegInt(-3))])),
        ("b", object(vec![])),
        ("c", Value::Number(Number::Float("1.5".into()))),
        ("d", Value::Number(Number::PosInt(u64::MAX))),
    ]);
    assert_eq!(v.to_text(), r#"{"a":[null,true,-3],"b":{},"c":1.5,"d":18446744073709551615}"#);
}

#[test]
fn members_are_written_in_the_order_of_their_names() {
    let names = ["b", "a", "é", "aa", "Z", "", "日", "a\u{10000}", "a\u{ffff}"];
    let v = object(names.iter().map(|n| (*n, Value::Null)).collect());
    let expected: serde_json::Map<String, serde_json::Value> =
        names.iter().map(|n| (n.to_string(), serde_json::Value::Null)).collect();
    assert_eq!(v.to_text(), serde_json::to_string(&expected).unwrap());
    assert!(precedes("a", "aa"));
    assert!(precedes("Z", "a"));
    assert!(!precedes("a", "a"));
    assert!(!precedes("b", "aa"));
}

#[test]
fn strings_are_quoted_as_json() {
    let s = "q\" b\\ n\n r\r t\t b\u{8} f\u{c} nul\u{0} esc\u{1b} del\u{7f} é 日";
    let expected = "\"q\\\" b\\\\ n\\n r\\r t\\t b\\b f\\f nul\\u0000 esc\\u001b del\u{7f} é 日\"";
    assert_eq!(Value::text(s).to_text(), expected);
    assert_eq!(Value::text(s).to_text(), serde_json::to_string(s).unwrap());
}

#[test]
fn values_are_read_by_type() {
    let v = object(vec![
        ("s", Value::text("x")),
        ("n", Value::Number(Number::PosInt(7))),
        ("big", Value::Number(Number::PosInt(u64::MAX))),
        ("neg", Value::Number(Number::NegInt(-7))),
        ("f", Value::Number(Number::Float("7.0".into()))),
        ("b", Value::Bool(false)),
    ]);
    assert_eq!(v.get("s").unwrap().as_str(), Some("x"));
    assert_eq!(v.get("n").unwrap().as_i64(), Some(7));
    assert_eq!(v.get("big").unwrap().as_i64(), None);
    assert_eq!(v.get("neg").unwrap().as_i64(), Some(-7));
    assert_eq!(v.get("f").unwrap().as_i64(), None);
    assert_eq!(v.get("b").unwrap().as_bool(), Some(false));
    assert_eq!(v.get("s").unwrap().as_bool(), None);
    assert!(v.get("missing").is_none());
    assert!(Value::Null.get("s").is_none());
    assert!(Value::text("x").as_object().is_none());
    assert_eq!(v.clone(), v);
}

#[test]
fn a_table_keeps_one_value_for_each_name() {
    let mut table: Table<u8> = Table::new();
    table.insert("a".into(), 1);
    table.insert("b".into(), 2);
    table.insert("a".into(), 3);
    assert_eq!(table.len(), 2);
    assert_eq!(table.get("a"), Some(&3));
    assert_eq!(table.get("b"), Some(&2));
    assert_eq!(table.get("c"), None);
    assert!(table.contains_key("b"));
    assert_eq!(table.name(0), "a");
    assert_eq!(*table.value(1), 2);
}
