use line2json::error::ConfigError;
use line2json::error::FragmentError;
use line2json::error::LineError;
use line2json::format::render;
use line2json::format::validate_format;
use line2json::format::OutputFormat;
use line2json::fragment::merge_fragment;
use line2json::fragment::merge_members;
use line2json::fragment::JsonMember;
use line2json::mapping::parse_group_ref;
use line2json::mapping::FieldMapping;
use line2json::mapping::FieldRule;
use line2json::mapping::SENTINEL;
use line2json::names::sort_names;
use line2json::pattern::CaptureResult;
use line2json::pattern::Pattern;
use line2json::record::Record;
use line2json::text::decimal_text;
use line2json::text::same_text;
use line2json::text::text_less;

fn names(list: &[&str]) -> Vec<String> {
    list.iter().map(|name| name.to_string()).collect()
}

fn captures(groups: &[Option<&str>]) -> CaptureResult {
    CaptureResult { groups: groups.iter().map(|group| group.map(|text| text.to_string())).collect() }
}

fn record(pairs: &[(&str, &str)]) -> Record {
    let mut record = Record::new();
    for (name, value) in pairs {
        record.insert(name.to_string(), value.to_string());
    }
    record
}

fn member(key: &str, content: Option<&str>, text: &str) -> JsonMember {
    JsonMember {
        key: key.to_string(),
        content: content.map(|content| content.to_string()),
        text: text.to_string(),
    }
}

fn pairs(list: &[(&str, &str)]) -> Vec<(String, String)> {
    list.iter().map(|(name, value)| (name.to_string(), value.to_string())).collect()
}

const SAMPLES: [&str; 12] =
    ["", "a", "A", "ab", "abc", "b", "first", "last", "json", "\u{e9}", "z\u{1f600}", "zz"];

#[test]
fn same_text_is_string_equality() {
    for a in SAMPLES {
        for b in SAMPLES {
            assert_eq!(same_text(a, b), a == b);
        }
    }
}

#[test]
fn text_less_is_the_order_of_strings() {
    for a in SAMPLES {
        for b in SAMPLES {
            assert_eq!(text_less(a, b), a < b);
        }
    }
    assert!(text_less("a", "ab"));
    assert!(!text_less("ab", "a"));
    assert!(!text_less("a", "a"));
}

#[test]
fn sort_names_orders_and_drops_repeats() {
    assert_eq!(sort_names(&names(&["last", "first", "last", "age"])), names(&["age", "first", "last"]));
    assert_eq!(sort_names(&names(&[])), names(&[]));
    assert_eq!(sort_names(&names(&["b", "a", "c", "a", "b"])), names(&["a", "b", "c"]));
}

#[test]
fn sort_names_ignores_the_order_given() {
    let one = sort_names(&names(&["x", "m", "a", "m"]));
    let other = sort_names(&names(&["a", "x", "x", "m"]));
    assert_eq!(one, other);
}

#[test]
fn record_insert_replaces_the_value() {
    let mut fields = Record::new();
    assert_eq!(fields.len(), 0);
    assert_eq!(fields.get("a"), None);
    fields.insert("a".to_string(), "1".to_string());
    fields.insert("b".to_string(), "2".to_string());
    fields.insert("a".to_string(), "3".to_string());
    assert_eq!(fields.len(), 2);
    assert_eq!(fields.get("a"), Some(&"3".to_string()));
    assert_eq!(fields.get("b"), Some(&"2".to_string()));
    assert!(fields.contains_key("a"));
    assert!(!fields.contains_key("c"));
    assert_eq!(fields.to_pairs(), pairs(&[("a", "3"), ("b", "2")]));
    assert_eq!(fields.to_pairs().len(), fields.len());
}

#[test]
fn record_json_has_the_names_in_ascending_order() {
    let fields = record(&[("b", "2"), ("a", "1"), ("c", "x\"y")]);
    assert_eq!(fields.to_json(), r#"{"a":"1","b":"2","c":"x\"y"}"#);
    assert_eq!(Record::new().to_json(), "{}");
}

#[test]
fn group_refs_are_decimal_numbers() {
    assert_eq!(parse_group_ref("0"), Some(0));
    assert_eq!(parse_group_ref("1"), Some(1));
    assert_eq!(parse_group_ref("12"), Some(12));
    assert_eq!(parse_group_ref("007"), Some(7));
    assert_eq!(parse_group_ref("+3"), Some(3));
    assert_eq!(parse_group_ref(""), None);
    assert_eq!(parse_group_ref("+"), None);
    assert_eq!(parse_group_ref("-1"), None);
    assert_eq!(parse_group_ref("1a"), None);
    assert_eq!(parse_group_ref(" 1"), None);
    assert_eq!(parse_group_ref("name"), None);
    assert_eq!(parse_group_ref("++1"), None);
    assert_eq!(parse_group_ref("\u{663}"), None);
}

#[test]
fn group_refs_agree_with_std_at_the_limit() {
    let max = usize::MAX.to_string();
    assert_eq!(parse_group_ref(&max), Some(usize::MAX));
    let mut over = max.clone();
    over.push('0');
    assert_eq!(parse_group_ref(&over), None);
    let next = (usize::MAX as u128 + 1).to_string();
    assert_eq!(parse_group_ref(&next), None);
    for text in ["0", "42", "+42", "0042", "", "+", "4 2", "x", &max, &next] {
        assert_eq!(parse_group_ref(text), text.parse::<usize>().ok());
    }
}

#[test]
fn mapping_is_read_from_pairs() {
    let made = FieldMapping::from_pairs(&pairs(&[("1", "first"), ("2", "json")]));
    assert_eq!(
        made,
        Ok(FieldMapping {
            rules: vec![
                FieldRule { group: 1, name: "first".to_string() },
                FieldRule { group: 2, name: "json".to_string() },
            ],
        })
    );
    let bad = FieldMapping::from_pairs(&pairs(&[("1", "first"), ("two", "x"), ("", "y")]));
    assert_eq!(bad, Err(ConfigError::BadGroupRef { text: "two".to_string() }));
    assert_eq!(bad.unwrap_err().message(), "invalid group reference 'two'");
}

#[test]
fn mapping_groups_are_checked_against_a_count() {
    let mapping =
        FieldMapping::from_pairs(&pairs(&[("0", "all"), ("2", "b"), ("5", "far"), ("9", "x")]))
            .unwrap();
    assert_eq!(mapping.check_groups(10), Ok(()));
    assert_eq!(mapping.check_groups(6), Err(ConfigError::UnknownGroup { group: 9, groups: 6 }));
    assert_eq!(mapping.check_groups(5), Err(ConfigError::UnknownGroup { group: 5, groups: 5 }));
    assert_eq!(mapping.check_groups(0), Err(ConfigError::UnknownGroup { group: 0, groups: 0 }));
    assert_eq!(FieldMapping { rules: vec![] }.check_groups(0), Ok(()));
    assert_eq!(
        ConfigError::UnknownGroup { group: 12, groups: 3 }.message(),
        "group 12 is not among the 3 groups of the pattern"
    );
}

#[test]
fn numbers_are_written_in_decimal() {
    for number in [0usize, 1, 9, 10, 11, 99, 100, 101, 1234567890, usize::MAX] {
        assert_eq!(decimal_text(number), number.to_string());
        assert_eq!(parse_group_ref(&decimal_text(number)), Some(number));
    }
}

#[test]
fn mapping_names_are_all_names_in_order() {
    let mapping = FieldMapping::from_pairs(&pairs(&[("1", "b"), ("2", "json"), ("3", "a")])).unwrap();
    assert_eq!(mapping.names(), names(&["b", "json", "a"]));
}

#[test]
fn map_fields_follows_the_rules_in_order() {
    let mapping = FieldMapping::from_pairs(&pairs(&[
        ("1", "a"),
        ("2", "json"),
        ("3", "a"),
        ("4", "json"),
        ("9", "far"),
        ("5", "gone"),
    ]))
    .unwrap();
    let found = captures(&[Some("whole"), Some("x"), Some("{}"), Some("y"), Some("{\"k\":1}"), None]);
    let (fields, fragment) = mapping.map_fields(&found);
    assert_eq!(fields.to_pairs(), pairs(&[("a", "y"), ("far", ""), ("gone", "")]));
    assert_eq!(fragment, Some("{\"k\":1}".to_string()));
    assert_eq!(SENTINEL, "json");
}

#[test]
fn map_fields_without_reserved_name_has_no_fragment() {
    let mapping = FieldMapping::from_pairs(&pairs(&[("0", "all"), ("1", "one")])).unwrap();
    let (fields, fragment) = mapping.map_fields(&captures(&[Some("ab"), Some("a")]));
    assert_eq!(fields.to_pairs(), pairs(&[("all", "ab"), ("one", "a")]));
    assert_eq!(fragment, None);
}

#[test]
fn capture_text_is_empty_where_nothing_was_captured() {
    let found = captures(&[Some("ab"), None, Some("b")]);
    assert_eq!(found.text(0), "ab");
    assert_eq!(found.text(1), "");
    assert_eq!(found.text(2), "b");
    assert_eq!(found.text(3), "");
}

#[test]
fn pattern_captures_the_leftmost_match() {
    let pattern = Pattern::new(r"(\w)(\d)?(\w)").unwrap();
    assert_eq!(pattern.source(), r"(\w)(\d)?(\w)");
    assert_eq!(pattern.group_count(), 4);
    assert_eq!(Pattern::new("plain").unwrap().group_count(), 1);
    assert_eq!(Pattern::new(r"(?:a)(?P<n>b)").unwrap().group_count(), 2);
    assert_eq!(pattern.captures("- AZ BY"), Some(captures(&[Some("AZ"), Some("A"), None, Some("Z")])));
    assert_eq!(pattern.captures("--"), None);
    assert_eq!(
        Pattern::new(r"(").err(),
        Some(ConfigError::InvalidPattern { pattern: "(".to_string() })
    );
    assert_eq!(
        ConfigError::InvalidPattern { pattern: "(".to_string() }.message(),
        "invalid pattern '('"
    );
}

#[test]
fn member_value_is_the_content_of_a_string() {
    assert_eq!(member("k", Some("Jane"), "\"Jane\"").value(), "Jane");
    assert_eq!(member("k", Some(""), "\"\"").value(), "");
    assert_eq!(member("k", Some("a\"b"), "\"a\\\"b\"").value(), "a\"b");
    assert_eq!(member("k", Some("a\"b"), "\"a\\\"b\"").value().chars().count(), 3);
    assert_eq!(member("k", Some("30"), "\"30\"").value(), "30");
}

#[test]
fn member_value_is_the_json_text_of_other_values() {
    assert_eq!(member("k", None, "30").value(), "30");
    assert_eq!(member("k", None, "[1,\"a\"]").value(), "[1,\"a\"]");
    assert_eq!(member("k", None, "null").value(), "null");
}

#[test]
fn merge_members_puts_each_member_in_turn() {
    let before = record(&[("a", "1"), ("b", "2")]);
    let members =
        vec![member("b", None, "9"), member("c", Some("s"), "\"s\""), member("b", None, "7")];
    let merged = merge_members(before, &members);
    assert_eq!(merged.to_pairs(), pairs(&[("a", "1"), ("b", "7"), ("c", "s")]));
}

#[test]
fn merge_fragment_leaves_the_record_without_text() {
    let merged = merge_fragment(record(&[("a", "1")]), None).unwrap();
    assert_eq!(merged.to_pairs(), pairs(&[("a", "1")]));
    let merged = merge_fragment(record(&[("a", "1")]), Some("")).unwrap();
    assert_eq!(merged.to_pairs(), pairs(&[("a", "1")]));
}

#[test]
fn merge_fragment_reads_a_json_object() {
    let text = r#" {"s":"text","n":1.5,"t":true,"z":null,"l":[1, 2],"o":{"k": "v"},"a":"new"} "#;
    let merged = merge_fragment(record(&[("a", "old"), ("keep", "k")]), Some(text)).unwrap();
    let mut fields = merged.to_pairs();
    fields.sort();
    assert_eq!(
        fields,
        pairs(&[
            ("a", "new"),
            ("keep", "k"),
            ("l", "[1,2]"),
            ("n", "1.5"),
            ("o", "{\"k\":\"v\"}"),
            ("s", "text"),
            ("t", "true"),
            ("z", "null"),
        ])
    );
}

#[test]
fn merge_fragment_takes_the_content_of_strings() {
    let text = r#"{"q":"say \"hi\"\n","u":"\u00e9\\","n":"1"}"#;
    let merged = merge_fragment(Record::new(), Some(text)).unwrap();
    assert_eq!(merged.get("q"), Some(&"say \"hi\"\n".to_string()));
    assert_eq!(merged.get("u"), Some(&"\u{e9}\\".to_string()));
    assert_eq!(merged.get("n"), Some(&"1".to_string()));
    let quote = merge_fragment(Record::new(), Some(r#"{"k":"a\"b"}"#)).unwrap();
    assert_eq!(quote.get("k"), Some(&"a\"b".to_string()));
    assert_eq!(quote.get("k").unwrap().chars().count(), 3);
}

#[test]
fn record_written_as_json_merges_back_to_itself() {
    let fields = record(&[
        ("plain", "text"),
        ("quote", "a\"b"),
        ("slash", "c\\d\n\t"),
        ("odd \"name\"", "\u{e9}\u{1f600}"),
        ("number", "30"),
        ("empty", ""),
    ]);
    let merged = merge_fragment(Record::new(), Some(&fields.to_json())).unwrap();
    let mut written = fields.to_pairs();
    let mut read_back = merged.to_pairs();
    written.sort();
    read_back.sort();
    assert_eq!(read_back, written);
    assert_eq!(merged.to_json(), fields.to_json());
}

#[test]
fn merge_fragment_refuses_what_is_not_an_object() {
    for text in ["{", "not json", "{\"a\":1} x", " "] {
        let merged = merge_fragment(Record::new(), Some(text));
        assert!(matches!(merged, Err(FragmentError::Malformed)));
    }
    for text in ["[1]", "1", "\"s\"", "null", "true"] {
        let merged = merge_fragment(Record::new(), Some(text));
        assert!(matches!(merged, Err(FragmentError::NotAnObject)));
    }
}

#[test]
fn validate_format_takes_the_reserved_name_always() {
    assert_eq!(validate_format("json", &names(&[])), Ok(OutputFormat::Json));
    assert_eq!(validate_format("json", &names(&["a", "json"])), Ok(OutputFormat::Json));
    assert_eq!(validate_format("a", &names(&["b", "a"])), Ok(OutputFormat::Field("a".to_string())));
}

#[test]
fn validate_format_is_the_same_twice_and_in_any_order() {
    let first = validate_format("x", &names(&["b", "a", "b"]));
    let again = validate_format("x", &names(&["b", "a", "b"]));
    let reordered = validate_format("x", &names(&["a", "b"]));
    assert_eq!(first, again);
    assert_eq!(first, reordered);
    assert_eq!(
        first,
        Err(ConfigError::UnknownFormat { requested: "x".to_string(), valid: names(&["a", "b"]) })
    );
    let none = validate_format("x", &names(&[]));
    assert_eq!(none.unwrap_err().message(), "format 'x' does not exist, allowed values are ");
}

#[test]
fn render_writes_the_record_or_one_field() {
    let fields = record(&[("first", "Jane"), ("last", "Doe")]);
    assert_eq!(render(&fields, &OutputFormat::Json), Ok(r#"{"first":"Jane","last":"Doe"}"#.to_string()));
    assert_eq!(render(&fields, &OutputFormat::Field("last".to_string())), Ok("Doe".to_string()));
    assert_eq!(
        render(&fields, &OutputFormat::Field("middle".to_string())),
        Err(LineError::MissingField { name: "middle".to_string() })
    );
}

#[test]
fn line_errors_say_what_went_wrong() {
    assert_eq!(LineError::Unreadable.message(), "failed to read line");
    assert_eq!(LineError::NoMatch.message(), "pattern does not match");
    assert_eq!(LineError::Fragment(FragmentError::Malformed).message(), "fragment is not valid JSON");
    assert_eq!(
        LineError::Fragment(FragmentError::NotAnObject).message(),
        "fragment is not a JSON object"
    );
    assert_eq!(
        LineError::MissingField { name: "x".to_string() }.message(),
        "record has no field 'x'"
    );
}
