use line2json::config::decide;
use line2json::config::Config;
use line2json::config::LineAction;
use line2json::error::ConfigError;
use line2json::error::FragmentError;
use line2json::error::LineError;
use line2json::format::validate_format;
use line2json::format::OutputFormat;
use line2json::mapping::FieldMapping;
use line2json::mapping::FieldRule;

fn rule(group: usize, name: &str) -> FieldRule {
    FieldRule { group, name: name.to_string() }
}

fn mapping(rules: Vec<FieldRule>) -> FieldMapping {
    FieldMapping { rules }
}

fn names(list: &[&str]) -> Vec<String> {
    list.iter().map(|name| name.to_string()).collect()
}

#[test]
fn two_words_become_a_json_record() {
    let rules = mapping(vec![rule(1, "first"), rule(2, "last")]);
    let config = Config::new(r"^(\w+) (\w+)$", rules, "json", false).unwrap();
    assert_eq!(config.process("Jane Doe"), Ok(r#"{"first":"Jane","last":"Doe"}"#.to_string()));
    assert_eq!(
        config.handle_line(Some("Jane Doe")),
        LineAction::Emit(r#"{"first":"Jane","last":"Doe"}"#.to_string())
    );
}

#[test]
fn fragment_number_is_merged_as_text() {
    let rules = mapping(vec![rule(1, "first"), rule(2, "json")]);
    let config = Config::new(r"^(\w+) (.*)$", rules, "json", false).unwrap();
    let output = config.process(r#"Jane {"age":30}"#).unwrap();
    let written: serde_json::Value = serde_json::from_str(&output).unwrap();
    let expected: serde_json::Value =
        serde_json::from_str(r#"{"first":"Jane","age":"30"}"#).unwrap();
    assert_eq!(written, expected);
    assert_eq!(output, r#"{"age":"30","first":"Jane"}"#);
    let record = config.extract(r#"Jane {"age":30}"#).unwrap();
    assert_eq!(record.len(), 2);
    assert_eq!(record.get("first"), Some(&"Jane".to_string()));
    assert_eq!(record.get("age"), Some(&"30".to_string()));
    assert_eq!(record.get("json"), None);
}

#[test]
fn unknown_format_lists_the_configured_names() {
    let checked = validate_format("middle", &names(&["first", "last"]));
    assert_eq!(
        checked,
        Err(ConfigError::UnknownFormat {
            requested: "middle".to_string(),
            valid: names(&["first", "last"]),
        })
    );
    let message = checked.unwrap_err().message();
    assert_eq!(message, "format 'middle' does not exist, allowed values are first, last");
}

#[test]
fn unknown_format_refuses_the_configuration() {
    let rules = mapping(vec![rule(1, "first"), rule(2, "last")]);
    let made = Config::new(r"^(\w+) (\w+)$", rules, "middle", false);
    assert!(matches!(
        made,
        Err(ConfigError::UnknownFormat { ref requested, ref valid })
            if requested == "middle" && *valid == names(&["first", "last"])
    ));
}

#[test]
fn unmatched_line_is_skipped_or_ends_the_run() {
    let rules = mapping(vec![rule(1, "first"), rule(2, "last")]);
    let lenient = Config::new(r"^(\w+) (\w+)$", rules.clone(), "json", false).unwrap();
    assert_eq!(lenient.handle_line(Some("no-space-here")), LineAction::Skip);
    assert_eq!(
        lenient.handle_line(Some("Jane Doe")),
        LineAction::Emit(r#"{"first":"Jane","last":"Doe"}"#.to_string())
    );
    let strict = Config::new(r"^(\w+) (\w+)$", rules, "json", true).unwrap();
    assert_eq!(strict.handle_line(Some("no-space-here")), LineAction::Abort(LineError::NoMatch));
}

#[test]
fn unreadable_line_always_ends_the_run() {
    let rules = mapping(vec![rule(1, "first")]);
    let lenient = Config::new(r"(\w+)", rules.clone(), "json", false).unwrap();
    assert_eq!(lenient.handle_line(None), LineAction::Abort(LineError::Unreadable));
    let strict = Config::new(r"(\w+)", rules, "json", true).unwrap();
    assert_eq!(strict.handle_line(None), LineAction::Abort(LineError::Unreadable));
}

#[test]
fn decide_follows_the_policy() {
    assert_eq!(decide(Ok("out".to_string()), false), LineAction::Emit("out".to_string()));
    assert_eq!(decide(Ok("out".to_string()), true), LineAction::Emit("out".to_string()));
    assert_eq!(decide(Err(LineError::NoMatch), false), LineAction::Skip);
    assert_eq!(decide(Err(LineError::NoMatch), true), LineAction::Abort(LineError::NoMatch));
    let malformed = LineError::Fragment(FragmentError::Malformed);
    assert_eq!(decide(Err(malformed.clone()), false), LineAction::Report(malformed.clone()));
    assert_eq!(decide(Err(malformed.clone()), true), LineAction::Abort(malformed));
    let missing = LineError::MissingField { name: "x".to_string() };
    assert_eq!(decide(Err(missing.clone()), false), LineAction::Report(missing.clone()));
    assert_eq!(decide(Err(missing.clone()), true), LineAction::Abort(missing));
    assert_eq!(decide(Err(LineError::Unreadable), false), LineAction::Abort(LineError::Unreadable));
}

#[test]
fn single_field_format_writes_the_value_alone() {
    let rules = mapping(vec![rule(1, "first"), rule(2, "last")]);
    let config = Config::new(r"^(\w+) (\w+)$", rules, "last", false).unwrap();
    assert_eq!(config.output_format(), &OutputFormat::Field("last".to_string()));
    assert_eq!(config.process("Jane Doe"), Ok("Doe".to_string()));
}

#[test]
fn pattern_matches_anywhere_in_the_line() {
    let rules = mapping(vec![rule(1, "id")]);
    let config = Config::new(r"id=(\d+)", rules, "id", false).unwrap();
    assert_eq!(config.process("x id=7 id=9"), Ok("7".to_string()));
}

#[test]
fn invalid_pattern_refuses_the_configuration() {
    let rules = mapping(vec![rule(1, "first")]);
    let made = Config::new(r"foo(bar", rules.clone(), "json", false);
    assert!(matches!(
        made,
        Err(ConfigError::InvalidPattern { ref pattern }) if pattern == "foo(bar"
    ));
    let both = Config::new(r"foo(bar", rules, "middle", false);
    assert!(matches!(both, Err(ConfigError::InvalidPattern { .. })));
}

#[test]
fn group_beyond_the_pattern_refuses_the_configuration() {
    let rules = mapping(vec![rule(1, "first"), rule(3, "far"), rule(7, "farther")]);
    let made = Config::new(r"^(\w+) (\w+)$", rules.clone(), "json", false);
    assert!(matches!(made, Err(ConfigError::UnknownGroup { group: 3, groups: 3 })));
    let bad_format_too = Config::new(r"^(\w+) (\w+)$", rules.clone(), "middle", false);
    assert!(matches!(bad_format_too, Err(ConfigError::UnknownGroup { group: 3, groups: 3 })));
    let bad_pattern_too = Config::new(r"^(\w+", rules, "json", false);
    assert!(matches!(bad_pattern_too, Err(ConfigError::InvalidPattern { .. })));
    let whole = mapping(vec![rule(0, "all"), rule(2, "last")]);
    assert!(Config::new(r"^(\w+) (\w+)$", whole, "all", false).is_ok());
}

#[test]
fn fragment_string_with_a_quote_keeps_its_content() {
    let rules = mapping(vec![rule(1, "k"), rule(2, "json")]);
    let config = Config::new(r"^(\w+) (.*)$", rules, "k", false).unwrap();
    assert_eq!(config.process(r#"x {"k":"a\"b"}"#), Ok("a\"b".to_string()));
    let whole = mapping(vec![rule(1, "k"), rule(2, "json")]);
    let config = Config::new(r"^(\w+) (.*)$", whole, "json", false).unwrap();
    assert_eq!(config.process(r#"x {"k":"a\"b"}"#), Ok(r#"{"k":"a\"b"}"#.to_string()));
}

#[test]
fn config_keeps_what_it_was_made_from() {
    let rules = mapping(vec![rule(1, "first"), rule(2, "json")]);
    let config = Config::new(r"^(\w+) (.*)$", rules.clone(), "json", true).unwrap();
    assert_eq!(config.pattern_source(), r"^(\w+) (.*)$");
    assert_eq!(config.mapping(), &rules);
    assert_eq!(config.output_format(), &OutputFormat::Json);
    assert!(config.is_strict());
}

#[test]
fn malformed_fragment_is_reported_or_ends_the_run() {
    let rules = mapping(vec![rule(1, "first"), rule(2, "json")]);
    let lenient = Config::new(r"^(\w+) (.*)$", rules.clone(), "json", false).unwrap();
    assert_eq!(
        lenient.handle_line(Some("Jane {oops")),
        LineAction::Report(LineError::Fragment(FragmentError::Malformed))
    );
    assert_eq!(
        lenient.handle_line(Some("Jane [1,2]")),
        LineAction::Report(LineError::Fragment(FragmentError::NotAnObject))
    );
    let strict = Config::new(r"^(\w+) (.*)$", rules, "json", true).unwrap();
    assert_eq!(
        strict.handle_line(Some("Jane {oops")),
        LineAction::Abort(LineError::Fragment(FragmentError::Malformed))
    );
}

#[test]
fn empty_fragment_gives_the_record_without_fragment() {
    let with_fragment = mapping(vec![rule(1, "first"), rule(2, "json")]);
    let without = mapping(vec![rule(1, "first")]);
    let a = Config::new(r"^(\w+) ?(.*)$", with_fragment, "json", false).unwrap();
    let b = Config::new(r"^(\w+) ?(.*)$", without, "json", false).unwrap();
    assert_eq!(a.process("Jane"), Ok(r#"{"first":"Jane"}"#.to_string()));
    assert_eq!(a.process("Jane"), b.process("Jane"));
    assert_eq!(a.extract("Jane").unwrap().to_pairs(), b.extract("Jane").unwrap().to_pairs());
}

#[test]
fn group_that_took_no_part_gives_an_empty_fragment() {
    let rules = mapping(vec![rule(1, "first"), rule(2, "json")]);
    let config = Config::new(r"^(\w+)(?: (\{.*\}))?$", rules, "json", false).unwrap();
    assert_eq!(config.process("Jane"), Ok(r#"{"first":"Jane"}"#.to_string()));
    assert_eq!(
        config.process(r#"Jane {"a":true}"#),
        Ok(r#"{"a":"true","first":"Jane"}"#.to_string())
    );
}

#[test]
fn record_keys_are_the_names_but_the_reserved_one() {
    let rules = mapping(vec![rule(1, "b"), rule(2, "json"), rule(3, "a")]);
    let config = Config::new(r"^(\w)(\w?)(\w)$", rules, "json", false).unwrap();
    let record = config.extract("xy").unwrap();
    let mut keys: Vec<String> = record.to_pairs().into_iter().map(|pair| pair.0).collect();
    keys.sort();
    assert_eq!(keys, names(&["a", "b"]));
    assert!(!record.contains_key("json"));
}

#[test]
fn fragment_value_replaces_the_mapped_one() {
    let rules = mapping(vec![rule(1, "first"), rule(2, "json")]);
    let config = Config::new(r"^(\w+) (.*)$", rules, "first", false).unwrap();
    let line = r#"Jane {"first":"Joan","n":null}"#;
    let record = config.extract(line).unwrap();
    assert_eq!(record.get("first"), Some(&"Joan".to_string()));
    assert_eq!(record.get("n"), Some(&"null".to_string()));
    assert_eq!(record.len(), 2);
    assert_eq!(config.process(line), Ok("Joan".to_string()));
}

#[test]
fn fragment_wins_also_over_a_later_rule() {
    let rules = mapping(vec![rule(1, "json"), rule(2, "k")]);
    let config = Config::new(r"^(\{.*\}) (\w+)$", rules, "json", false).unwrap();
    let record = config.extract(r#"{"k":"frag"} direct"#).unwrap();
    assert_eq!(record.get("k"), Some(&"frag".to_string()));
}

#[test]
fn validated_field_is_never_missing() {
    let rules = mapping(vec![rule(1, "first"), rule(2, "json")]);
    let config = Config::new(r"^(\w+) (.*)$", rules, "first", false).unwrap();
    for line in ["Jane {}", r#"Jane {"x":1}"#, r#"Jane {"first":7}"#, "Jane "] {
        assert!(config.process(line).is_ok());
    }
}

#[test]
fn whole_record_round_trips_through_json() {
    let rules = mapping(vec![rule(1, "plain"), rule(2, "odd \"name\""), rule(3, "json")]);
    let config = Config::new(r"^(\S+) (\S+) (.*)$", rules, "json", false).unwrap();
    let line = "a\\b \u{e9}\"q {\"t\":\"tab\\there\",\"list\":[1,{\"x\":null}]}";
    let record = config.extract(line).unwrap();
    let text = config.process(line).unwrap();
    assert_eq!(text, record.to_json());
    let parsed: serde_json::Value = serde_json::from_str(&text).unwrap();
    let object = parsed.as_object().unwrap();
    let mut read_back: Vec<(String, String)> = object
        .iter()
        .map(|(key, value)| (key.clone(), value.as_str().unwrap().to_string()))
        .collect();
    let mut fields = record.to_pairs();
    read_back.sort();
    fields.sort();
    assert_eq!(read_back, fields);
    assert_eq!(fields.len(), 4);
}
