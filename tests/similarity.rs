use anime_match::similarity::{jaro_winkler_distance, Similarity};

fn value(s: &Similarity) -> f64 {
    s.numerator as f64 / s.denominator as f64
}

#[test]
fn identical_strings_score_one() {
    let s = jaro_winkler_distance("naruto", "naruto", None);
    assert_eq!(s.numerator, s.denominator);
}

#[test]
fn two_empty_strings_score_one() {
    let s = jaro_winkler_distance("", "", None);
    assert_eq!(s.numerator, s.denominator);
}

#[test]
fn empty_against_nonempty_scores_zero() {
    assert_eq!(jaro_winkler_distance("", "abc", None).numerator, 0);
    assert_eq!(jaro_winkler_distance("abc", "", None).numerator, 0);
}

#[test]
fn no_common_characters_scores_zero() {
    assert_eq!(jaro_winkler_distance("abc", "xyz", None).numerator, 0);
}

#[test]
fn martha_marhta() {
    let s = jaro_winkler_distance("MARTHA", "MARHTA", None);
    assert!((value(&s) - 0.961111).abs() < 1e-5);
    let j = jaro_winkler_distance("MARTHA", "MARHTA", Some(0));
    assert!((value(&j) - 0.944444).abs() < 1e-5);
}

#[test]
fn dixon_dicksonx() {
    let s = jaro_winkler_distance("DIXON", "DICKSONX", None);
    assert!((value(&s) - 0.813333).abs() < 1e-5);
}

#[test]
fn scale_is_clamped() {
    let a = jaro_winkler_distance("abcdxyz", "abcdpqr", Some(1000));
    let b = jaro_winkler_distance("abcdxyz", "abcdpqr", Some(250));
    assert_eq!((a.numerator, a.denominator), (b.numerator, b.denominator));
    assert!(value(&a) <= 1.0);
}

#[test]
fn counts_characters_not_bytes() {
    let s = jaro_winkler_distance("進撃の巨人", "進撃の巨人x", None);
    assert!(value(&s) > 0.9);
}

#[test]
fn scores_stay_in_unit_interval() {
    let words = ["", "a", "ab", "ba", "aaaa", "abab", "shingeki", "kyojin", "進撃"];
    for a in words {
        for b in words {
            for p in [None, Some(0), Some(100), Some(250), Some(900)] {
                let s = jaro_winkler_distance(a, b, p);
                assert!(s.denominator > 0);
                assert!(s.numerator <= s.denominator);
            }
        }
    }
}
