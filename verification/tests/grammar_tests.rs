use mlapibot::grammar::{parse_matcher, ConfigValue, GrammarError};
use mlapibot::matchers::any::AnyMatcher;
use mlapibot::matchers::exact::ExactMatcher;
use mlapibot::matchers::kind::MatcherKind;
use mlapibot::matchers::ordered::OrderedMatcher;
use mlapibot::matchers::phrase::PhraseMatcher;

/// Reads a JSON document into the library's configuration shape.
fn config_of(v: &serde_json::Value) -> ConfigValue {
    match v {
        serde_json::Value::String(s) => ConfigValue::Text(s.clone()),
        serde_json::Value::Array(items) => {
            ConfigValue::List(items.iter().map(config_of).collect())
        }
        serde_json::Value::Object(entries) => ConfigValue::Node(
            entries
                .iter()
                .map(|(k, v)| (k.clone(), config_of(v)))
                .collect(),
        ),
        _ => panic!("unsupported configuration shape"),
    }
}

fn parse_json(text: &str) -> Result<MatcherKind, GrammarError> {
    let value: serde_json::Value = serde_json::from_str(text).unwrap();
    parse_matcher(&config_of(&value))
}

#[test]
pub fn deserialize_string() {
    const JSON: &str = r#""hello world""#;

    let parsed = parse_json(JSON).unwrap();
    assert_eq!(
        parsed,
        MatcherKind::Phrase(PhraseMatcher::new("hello world"))
    );
}

#[test]
pub fn deserialize_vec_to_any() {
    const JSON: &str = r#"["hello world", "another one"]"#;

    let parsed = parse_json(JSON).unwrap();
    assert_eq!(
        parsed,
        MatcherKind::Any(AnyMatcher(vec![
            MatcherKind::Phrase(PhraseMatcher::new("hello world")),
            MatcherKind::Phrase(PhraseMatcher::new("another one"))
        ]))
    );
}

#[test]
pub fn deserialize_ordered() {
    const JSON: &str = r#"{"type":"ordered", "children":["hello world", "another one"]}"#;

    let parsed = parse_json(JSON).unwrap();
    assert_eq!(
        parsed,
        MatcherKind::Ordered(OrderedMatcher(vec![
            MatcherKind::Phrase(PhraseMatcher::new("hello world")),
            MatcherKind::Phrase(PhraseMatcher::new("another one"))
        ]))
    );
}

#[test]
pub fn deserialize_recursive() {
    const JSON: &str = r#"{
            "type":"ordered",
            "children":[
                [
                    "hello world", "another one"
                ],
                {
                    "type": "ordered",
                    "children": [
                        "other",
                        "text",
                        "goes",
                        "here"
                    ]
                }
            ]
        }"#;

    let parsed = parse_json(JSON).unwrap();
    assert_eq!(
        parsed,
        MatcherKind::Ordered(OrderedMatcher(vec![
            MatcherKind::Any(AnyMatcher(vec![
                MatcherKind::Phrase(PhraseMatcher::new("hello world")),
                MatcherKind::Phrase(PhraseMatcher::new("another one"))
            ])),
            MatcherKind::Ordered(OrderedMatcher(vec![
                MatcherKind::Phrase(PhraseMatcher::new("other")),
                MatcherKind::Phrase(PhraseMatcher::new("text")),
                MatcherKind::Phrase(PhraseMatcher::new("goes")),
                MatcherKind::Phrase(PhraseMatcher::new("here"))
            ]))
        ]))
    );
}

#[test]
pub fn deserialize_exact() {
    const JSON: &str = r#"{"type":"exact", "phrase":"quick brown fox"}"#;

    let parsed = parse_json(JSON).unwrap();
    assert_eq!(
        parsed,
        MatcherKind::Exact(ExactMatcher::new("quick brown fox"))
    );
}

#[test]
pub fn unknown_field_is_an_error() {
    const JSON: &str = r#"{"type":"ordered", "children":[], "bogus": "x"}"#;
    let err = parse_json(JSON).unwrap_err();
    assert_eq!(err, GrammarError::UnknownField(String::from("bogus")));
}

#[test]
pub fn missing_type_is_an_error() {
    const JSON: &str = r#"{"children":[]}"#;
    let err = parse_json(JSON).unwrap_err();
    assert_eq!(err, GrammarError::MissingField(String::from("type")));
}

#[test]
pub fn missing_children_is_an_error() {
    const JSON: &str = r#"{"type":"all"}"#;
    let err = parse_json(JSON).unwrap_err();
    assert_eq!(err, GrammarError::MissingField(String::from("children")));
}

#[test]
pub fn unknown_variant_is_an_error() {
    const JSON: &str = r#"{"type":"sometimes", "children":[]}"#;
    let err = parse_json(JSON).unwrap_err();
    assert_eq!(err, GrammarError::UnknownVariant(String::from("sometimes")));
}

#[test]
pub fn wrong_field_type_is_an_error() {
    const JSON: &str = r#"{"type":"ordered", "children":"not a list"}"#;
    let err = parse_json(JSON).unwrap_err();
    assert_eq!(err, GrammarError::WrongFieldType(String::from("children")));
}
