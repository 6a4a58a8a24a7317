use json2strings::{
    consume_parsed, consume_value, consume_vec, decimal_string, leaf_total, new_string_consumer,
    JsonValue, RecordCollector, StringItem, StringVecConsumer, StringVecSource,
};

fn s(text: &str) -> String {
    text.to_string()
}

fn num(text: &str) -> JsonValue {
    JsonValue::Number(s(text))
}

fn text(t: &str) -> JsonValue {
    JsonValue::String(s(t))
}

fn obj(members: Vec<(&str, JsonValue)>) -> JsonValue {
    JsonValue::Object(members.into_iter().map(|(k, v)| (s(k), v)).collect())
}

fn rec(parts: &[&str]) -> Vec<String> {
    parts.iter().map(|p| s(p)).collect()
}

fn from_serde(v: serde_json::Value) -> JsonValue {
    match v {
        serde_json::Value::Null => JsonValue::Null,
        serde_json::Value::Bool(b) => JsonValue::Bool(b),
        serde_json::Value::Number(n) => JsonValue::Number(n.to_string()),
        serde_json::Value::String(t) => JsonValue::String(t),
        serde_json::Value::Array(items) => {
            JsonValue::Array(items.into_iter().map(from_serde).collect())
        }
        serde_json::Value::Object(m) => {
            JsonValue::Object(m.into_iter().map(|(k, v)| (k, from_serde(v))).collect())
        }
    }
}

fn parse(input: &str) -> Result<JsonValue, String> {
    serde_json::from_str::<serde_json::Value>(input)
        .map(from_serde)
        .map_err(|e| format!("Unable to parse json: {}", e))
}

fn scenario_a() -> JsonValue {
    obj(vec![
        ("a", num("1")),
        ("b", JsonValue::Array(vec![JsonValue::Bool(true), JsonValue::Null, text("x")])),
    ])
}

#[test]
fn scenario_a_records() {
    let mut c = RecordCollector::new();
    let n = consume_value(&mut c, vec![], scenario_a()).unwrap();
    assert_eq!(n, 3);
    assert_eq!(
        c.records,
        vec![rec(&["a", "1"]), rec(&["b", "0", "true"]), rec(&["b", "2", "x"])]
    );
}

#[test]
fn scenario_a_lines() {
    let mut w = new_string_consumer();
    let n = consume_parsed(&mut w, parse(r#"{"a": 1, "b": [true, null, "x"]}"#)).unwrap();
    assert_eq!(n, 3);
    assert_eq!(w.output(), "[\"a\",\"1\"]\n[\"b\",\"0\",\"true\"]\n[\"b\",\"2\",\"x\"]\n");
}

#[test]
fn scenario_b_null_root() {
    let mut w = new_string_consumer();
    let n = consume_parsed(&mut w, parse("null")).unwrap();
    assert_eq!(n, 0);
    assert_eq!(w.output(), "");
}

#[test]
fn scenario_c_empty_array_root() {
    let mut w = new_string_consumer();
    let n = consume_parsed(&mut w, parse("[]")).unwrap();
    assert_eq!(n, 0);
    assert_eq!(w.output(), "");
}

#[test]
fn scenario_d_scalar_root() {
    let mut w = new_string_consumer();
    let n = consume_parsed(&mut w, parse("42")).unwrap();
    assert_eq!(n, 1);
    assert_eq!(w.output(), "[\"42\"]\n");
}

#[test]
fn malformed_input_writes_nothing() {
    let parsed = parse(r#"{"a": [1, 2"#);
    assert!(parsed.is_err());
    let mut w = new_string_consumer();
    let r = consume_parsed(&mut w, parsed);
    assert!(r.unwrap_err().starts_with("Unable to parse json"));
    assert_eq!(w.output(), "");
}

#[test]
fn null_free_count_equals_leaves() {
    let v = JsonValue::Array(vec![
        num("1"),
        obj(vec![("k", text("v")), ("l", JsonValue::Array(vec![JsonValue::Bool(false), num("2.5")]))]),
        text(""),
    ]);
    assert_eq!(leaf_total(&v), Some(5));
    let mut c = RecordCollector::new();
    assert_eq!(consume_value(&mut c, vec![], v).unwrap(), 5);
    assert_eq!(c.records.len(), 5);
}

#[test]
fn nulls_anywhere_add_nothing() {
    let v = obj(vec![
        ("a", JsonValue::Null),
        ("b", JsonValue::Array(vec![JsonValue::Null, num("7"), JsonValue::Null])),
    ]);
    let mut c = RecordCollector::new();
    assert_eq!(consume_value(&mut c, vec![], v).unwrap(), 1);
    assert_eq!(c.records, vec![rec(&["b", "1", "7"])]);
}

#[test]
fn empty_containers_below_a_path_add_nothing() {
    let mut c = RecordCollector::new();
    let anc = rec(&["x", "y"]);
    assert_eq!(consume_value(&mut c, anc.clone(), JsonValue::Array(vec![])).unwrap(), 0);
    assert_eq!(consume_value(&mut c, anc, JsonValue::Object(vec![])).unwrap(), 0);
    assert!(c.records.is_empty());
}

#[test]
fn record_length_is_depth_plus_one() {
    let v = obj(vec![(
        "a",
        JsonValue::Array(vec![obj(vec![("b", JsonValue::Array(vec![num("3")]))])]),
    )]);
    let mut c = RecordCollector::new();
    consume_value(&mut c, vec![], v).unwrap();
    assert_eq!(c.records, vec![rec(&["a", "0", "b", "0", "3"])]);
    assert_eq!(c.records[0].len(), 4 + 1);
}

#[test]
fn indices_are_decimal_and_ascending() {
    let items: Vec<JsonValue> = (0..12).map(|i| num(&i.to_string())).collect();
    let mut c = RecordCollector::new();
    assert_eq!(consume_vec(&mut c, rec(&["p"]), items).unwrap(), 12);
    for (i, r) in c.records.iter().enumerate() {
        assert_eq!(r, &rec(&["p", &i.to_string(), &i.to_string()]));
    }
    assert_eq!(c.records[10][1], "10");
    assert_eq!(c.records[11][1], "11");
}

#[test]
fn number_text_round_trips() {
    for input in ["0", "-17", "1.5", "1e3", "12345678901234567890", "-0.0", "2.50"] {
        let first = serde_json::from_str::<serde_json::Number>(input).unwrap().to_string();
        let again = serde_json::from_str::<serde_json::Number>(&first).unwrap().to_string();
        assert_eq!(first, again);
    }
}

#[test]
fn number_text_is_kept_as_given() {
    let mut w = new_string_consumer();
    consume_parsed(&mut w, parse("[1.0, -3, 1e3]")).unwrap();
    assert_eq!(w.output(), "[\"0\",\"1.0\"]\n[\"1\",\"-3\"]\n[\"2\",\"1000.0\"]\n");
}

#[test]
fn strings_are_escaped_on_output() {
    let mut w = new_string_consumer();
    let n = consume_value(&mut w, rec(&["k\"ey"]), text("a\\b\nc")).unwrap();
    assert_eq!(n, 1);
    assert_eq!(w.output(), "[\"k\\\"ey\",\"a\\\\b\\nc\"]\n");
}

#[test]
fn writer_emits_json_array_text() {
    let mut w = new_string_consumer();
    assert_eq!(w.consume(rec(&["x"])).unwrap(), 1);
    assert_eq!(w.output(), "[\"x\"]\n");
}

#[test]
fn keys_and_strings_are_verbatim() {
    let mut c = RecordCollector::new();
    consume_value(&mut c, vec![], obj(vec![("ü k", text("é \"q\""))])).unwrap();
    assert_eq!(c.records, vec![rec(&["ü k", "é \"q\""])]);
}

#[test]
fn booleans_become_words() {
    let mut c = RecordCollector::new();
    consume_value(&mut c, vec![], JsonValue::Array(vec![JsonValue::Bool(true), JsonValue::Bool(false)]))
        .unwrap();
    assert_eq!(c.records, vec![rec(&["0", "true"]), rec(&["1", "false"])]);
}

#[test]
fn decimal_text_of_indices() {
    assert_eq!(decimal_string(0), "0");
    assert_eq!(decimal_string(7), "7");
    assert_eq!(decimal_string(10), "10");
    assert_eq!(decimal_string(1234), "1234");
    assert_eq!(decimal_string(usize::MAX), usize::MAX.to_string());
}

#[test]
fn items_convert_to_text() {
    assert_eq!(StringItem::from_index(42).into_string(), "42");
    assert_eq!(StringItem::from_bool(false).into_string(), "false");
    assert_eq!(StringItem::from_string(s("z")).into_string(), "z");
}

#[test]
fn item_delivers_itself_below_a_path() {
    let mut c = RecordCollector::new();
    let n = StringItem::from_bool(true).to_consumer(rec(&["a", "b"]), &mut c).unwrap();
    assert_eq!(n, 1);
    assert_eq!(c.records, vec![rec(&["a", "b", "true"])]);
}

#[test]
fn leaf_items_through_the_sink() {
    let mut c = RecordCollector::new();
    assert_eq!(c.consume_number(s("3.25"), rec(&["n"])).unwrap(), 1);
    assert_eq!(c.consume_string(s("v"), rec(&["s"])).unwrap(), 1);
    assert_eq!(c.consume_bool(false, vec![]).unwrap(), 1);
    assert_eq!(c.records, vec![rec(&["n", "3.25"]), rec(&["s", "v"]), rec(&["false"])]);
}

#[test]
fn parse_failure_is_passed_on_unchanged() {
    let mut c = RecordCollector::new();
    let r = consume_parsed(&mut c, Err(s("bad input")));
    assert_eq!(r, Err(s("bad input")));
    assert!(c.records.is_empty());
}

#[test]
fn leaf_total_counts_scalars() {
    assert_eq!(leaf_total(&JsonValue::Null), Some(0));
    assert_eq!(leaf_total(&num("1")), Some(1));
    assert_eq!(leaf_total(&scenario_a()), Some(3));
}
