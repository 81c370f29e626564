use mlapibot::similarity::{
    edit_distance_chars, match_or_mismatch, string_similarity, MATCH, MISMATCH, SCALE, THRESHOLD,
};

fn dist(a: &str, b: &str) -> usize {
    edit_distance_chars(&a.chars().collect(), &b.chars().collect())
}

#[test]
pub fn string_sim() {
    assert!(string_similarity("15x", "1pumngutjqwevvqweuyg7") < THRESHOLD);
    assert!(string_similarity("get", "1pumngutjqwevvqweuyg7") < THRESHOLD);
}

#[test]
pub fn distance_exact_values() {
    assert_eq!(dist("", ""), 0);
    assert_eq!(dist("abc", ""), 3);
    assert_eq!(dist("", "abc"), 3);
    assert_eq!(dist("kitten", "sitting"), 3);
    assert_eq!(dist("flaw", "lawn"), 2);
    // one adjacent transposition counts as a single edit
    assert_eq!(dist("abcd", "abdc"), 1);
}

#[test]
pub fn distance_agrees_with_reference_metric() {
    let samples = [
        ("hello", "hello"),
        ("hello", "hlelo"),
        ("kitten", "sitting"),
        ("scam", "spam"),
        ("15x", "1pumngutjqwevvqweuyg7"),
        ("a", ""),
        ("tapwater", "tapwatre"),
    ];
    for (a, b) in samples {
        assert_eq!(dist(a, b), strsim::osa_distance(a, b));
    }
}

#[test]
pub fn similarity_reflexive_and_symmetric_samples() {
    for w in ["a", "hello", "10mb", "transposition"] {
        assert_eq!(string_similarity(w, w), SCALE);
    }
    for (a, b) in [("hello", "hlelo"), ("scam", "spam"), ("x", "yz")] {
        assert_eq!(string_similarity(a, b), string_similarity(b, a));
    }
}

#[test]
pub fn similarity_exact_value() {
    // distance 1 at length 5: similarity 4/5 exactly
    assert_eq!(string_similarity("hello", "hellp"), SCALE / 5 * 4);
    // maximally dissimilar strings of equal length score zero
    assert_eq!(string_similarity("abc", "xyz"), 0);
}

#[test]
pub fn works_reward_values() {
    assert_eq!(match_or_mismatch("hello", "hello"), MATCH);
    assert_eq!(match_or_mismatch("abcdf", "hello"), MISMATCH);
    // similarity 4/5 maps to -5 + ceil(8) = 3
    assert_eq!(match_or_mismatch("hello", "hellp"), 3);
}
