use mlapibot::analysis::{Context, StrAnalzyer};
use mlapibot::matchers::all::AllMatcher;
use mlapibot::matchers::any::AnyMatcher;
use mlapibot::matchers::exact::ExactMatcher;
use mlapibot::matchers::kind::MatcherKind;
use mlapibot::matchers::ordered::OrderedMatcher;
use mlapibot::matchers::phrase::PhraseMatcher;
use mlapibot::similarity::{match_or_mismatch, MATCH, MISMATCH, SCALE, THRESHOLD};
use mlapibot::words::Words;

#[test]
pub fn test_exact_matcher() {
    let exact = ExactMatcher::new("quick brown fox");
    let test = Words::new("hello world the quick brown fox jumped over the lazy dog");

    let result = exact.matches(&test.as_words(), true).unwrap();

    assert_eq!(result.words.len(), 3);
    assert!(result.words.contains_key(&3));
    assert!(result.words.contains_key(&4));
    assert!(result.words.contains_key(&5));
    assert_eq!(result.score, SCALE);
}

#[test]
pub fn test_matches() {
    let ordered = OrderedMatcher(vec![
        MatcherKind::Phrase(PhraseMatcher::new("hello")),
        MatcherKind::Phrase(PhraseMatcher::new("world")),
    ]);

    let text = Words::new("hello there some other world");
    let words = text.as_words();

    let det = ordered.matches(&words, true).unwrap();

    let s = det.write_markdown(&words);

    assert_eq!(s, "**hello** there some other **world**");
}

#[test]
pub fn test_no_match() {
    let ordered = OrderedMatcher(vec![
        MatcherKind::Phrase(PhraseMatcher::new("hello")),
        MatcherKind::Phrase(PhraseMatcher::new("world")),
        MatcherKind::Phrase(PhraseMatcher::new("another")),
    ]);

    let text = Words::new("hello there some other world");
    let words = text.as_words();

    let det = ordered.matches(&words, true);

    assert!(det.is_none())
}

#[test]
pub fn test_follows_ordering() {
    let ordered = OrderedMatcher(vec![
        MatcherKind::Phrase(PhraseMatcher::new("hello")),
        MatcherKind::Phrase(PhraseMatcher::new("world")),
    ]);

    let text = Words::new("world hello");
    let words = text.as_words();

    let det = ordered.matches(&words, true);

    assert!(det.is_none())
}

#[test]
pub fn works() {
    assert_eq!(match_or_mismatch("hello", "hello"), MATCH);
    assert_eq!(match_or_mismatch("abcdf", "hello"), MISMATCH);

    let phrase = "the quick brown fox jumps over the lazy dog";
    let analyzer = StrAnalzyer {
        ocr: None,
        title: Some(MatcherKind::Phrase(PhraseMatcher::new(phrase))),
        body: None,
    };

    let ctx = Context {
        images: Vec::new(),
        title: Some(String::from("some other words like lots of words on either side but the phrase is still there in the picture somewhere the quick brown fox jumps over the lazy and even more words go on this side of the picture it is unbelievable that it is so long over here dog")),
        body: None,
        debug: true,
    };

    let result = analyzer.analyze(&ctx).unwrap();
    assert!(result.best_score() >= THRESHOLD);
}

#[test]
pub fn phrase_round_trip_with_padding() {
    let phrase = "the quick brown fox jumps over the lazy dog";
    let matcher = PhraseMatcher::new(phrase);
    let observed = Words::new(
        "unrelated padding words surround everything the quick brown fox jumps over the lazy dog more unrelated padding words follow",
    );
    let det = matcher.matches(&observed.as_words(), false).unwrap();
    assert!(det.score >= THRESHOLD);
}

#[test]
pub fn all_requires_every_child() {
    let all = AllMatcher(vec![
        MatcherKind::Phrase(PhraseMatcher::new("hello")),
        MatcherKind::Phrase(PhraseMatcher::new("absent")),
    ]);
    let text = Words::new("hello there this text scores well for one child only");
    assert!(all.matches(&text.as_words(), false).is_none());

    let both = AllMatcher(vec![
        MatcherKind::Phrase(PhraseMatcher::new("hello")),
        MatcherKind::Phrase(PhraseMatcher::new("there")),
    ]);
    let det = both.matches(&text.as_words(), false).unwrap();
    assert_eq!(det.score, SCALE);
    assert!(det.words.contains_key(&0));
    assert!(det.words.contains_key(&1));
}

#[test]
pub fn any_selects_the_maximum() {
    // first child: similarity 3/5 = 0.6, below the threshold, so no match;
    // second child: similarity 17/20 = 0.85, above it.
    let low = PhraseMatcher::new("axcye");
    let high = PhraseMatcher::new("abcdefghijklmnopqrst");
    let haystack = vec!["abcde", "abcdefghijklmnopqxyz"];

    assert!(low.matches(&haystack, false).is_none());
    let high_det = high.matches(&haystack, false).unwrap();
    assert_eq!(high_det.score, SCALE / 20 * 17);

    let any = AnyMatcher(vec![
        MatcherKind::Phrase(PhraseMatcher::new("axcye")),
        MatcherKind::Phrase(PhraseMatcher::new("abcdefghijklmnopqrst")),
    ]);
    let det = any.matches(&haystack, false).unwrap();
    assert_eq!(det.score, SCALE / 20 * 17);
    assert!(det.words.contains_key(&1));
    assert_eq!(det.words.len(), 1);
}

#[test]
pub fn any_without_matching_children_fails() {
    let any = AnyMatcher(vec![
        MatcherKind::Phrase(PhraseMatcher::new("absent")),
        MatcherKind::Phrase(PhraseMatcher::new("missing")),
    ]);
    let text = Words::new("totally different words here");
    assert!(any.matches(&text.as_words(), false).is_none());
}

#[test]
pub fn matches_is_idempotent() {
    let matcher = MatcherKind::Ordered(OrderedMatcher(vec![
        MatcherKind::Phrase(PhraseMatcher::new("hello world")),
        MatcherKind::Exact(ExactMatcher::new("lazy dog")),
    ]));
    let text = Words::new("hello world the quick brown fox jumped over the lazy dog");
    let words = text.as_words();

    let first = matcher.matches(&words, false);
    let second = matcher.matches(&words, false);
    assert_eq!(first, second);
    assert!(first.is_some());
}

#[test]
pub fn ordered_consumes_matched_words() {
    // the second child may only match strictly after the first child's
    // furthest flagged token
    let ordered = OrderedMatcher(vec![
        MatcherKind::Phrase(PhraseMatcher::new("again")),
        MatcherKind::Phrase(PhraseMatcher::new("again")),
    ]);
    let single = Words::new("said again");
    assert!(ordered.matches(&single.as_words(), false).is_none());

    let twice = Words::new("said again and again");
    let det = ordered.matches(&twice.as_words(), false).unwrap();
    assert!(det.words.contains_key(&1));
    assert!(det.words.contains_key(&3));
    assert_eq!(det.words.len(), 2);
}

#[test]
pub fn empty_composites() {
    let text = Words::new("whatever words");
    let words = text.as_words();

    // with no children there is nothing to fail: an empty match, score zero
    let ordered = OrderedMatcher(Vec::new());
    let det = ordered.matches(&words, false).unwrap();
    assert_eq!(det.score, 0);
    assert_eq!(det.words.len(), 0);

    let all = AllMatcher(Vec::new());
    let det = all.matches(&words, false).unwrap();
    assert_eq!(det.score, 0);

    // with no children there is no best child to report
    let any = AnyMatcher(Vec::new());
    assert!(any.matches(&words, false).is_none());
}
