use mlapibot::words::Words;

#[test]
pub fn test_phrase_matcher_split() {
    let matcher = Words::new("hello world goes here");

    assert_eq!(matcher.as_words(), vec!["hello", "world", "goes", "here"]);
}

#[test]
pub fn test_phrase_matcher_split_numbers() {
    let matcher = Words::new("some 10mb goes 10 mb here");

    assert_eq!(
        matcher.as_words(),
        vec!["some", "10mb", "goes", "10", "mb", "here"]
    );
}

#[test]
pub fn lowercases_and_drops_punctuation() {
    let matcher = Words::new("Hello, World! --- 10MB?");

    assert_eq!(matcher.as_words(), vec!["hello", "world", "10mb"]);
    assert_eq!(matcher.full_text(), "hello world  10mb");
}

#[test]
pub fn empty_input_has_no_tokens() {
    let matcher = Words::new("");
    assert_eq!(matcher.len(), 0);
    let punct = Words::new("...!!!---");
    assert_eq!(punct.len(), 0);
}

#[test]
pub fn clean_in_place() {
    let mut text = String::from("Hello, World!");
    Words::clean(&mut text);
    assert_eq!(text, "hello world");
}
