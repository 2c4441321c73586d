use string_metric_server::metrics::JaroScore;
use string_metric_server::metrics::Ratio;
use string_metric_server::metrics::hamming_distance;
use string_metric_server::metrics::jaro_distance;
use string_metric_server::metrics::jaro_ratio;
use string_metric_server::metrics::levenshtein_distance;
use string_metric_server::metrics::levenshtein_distance_with_memo;

fn ratio_f64(r: &Ratio) -> f64 {
    r.num as f64 / r.den as f64
}

fn jaro_f64(s: &JaroScore) -> f64 {
    match s {
        JaroScore::Identical => 0.0,
        JaroScore::NoMatch => 1.0,
        JaroScore::Score { matched, transpositions, len1, len2 } => {
            let m = *matched as f64;
            let t = *transpositions as f64;
            1.0 - (m / *len1 as f64 + m / *len2 as f64 + (m - t) / m) / 3.0
        }
    }
}

#[test]
fn test_hamming_distance_simple() {
    assert_eq!(ratio_f64(&hamming_distance("karolin", "kathrin")), 3.0 / 7.0);
}

#[test]
fn test_hamming_distance_max_difference() {
    assert_eq!(ratio_f64(&hamming_distance("0000", "1111")), 1.0);
}

#[test]
fn test_hamming_distance_different_length() {
    assert_eq!(ratio_f64(&hamming_distance("ala", "axxa")), 3.0 / 4.0);
}

#[test]
fn test_levenshtein_distance_simple() {
    assert_eq!(ratio_f64(&levenshtein_distance("kitten", "sitting")), 3.0 / 7.0);
}

#[test]
fn test_levenshtein_distance_max_difference() {
    assert_eq!(ratio_f64(&levenshtein_distance("0000", "1111")), 1.0);
}

#[test]
fn test_levenshtein_distance_different_length() {
    assert_eq!(ratio_f64(&levenshtein_distance("ala", "axxa")), 2.0 / 4.0);
}

#[test]
fn test_jaro_distance_simple() {
    assert_eq!(jaro_f64(&jaro_distance("crate", "trace")), 0.2666666666666666);
}

#[test]
fn test_jaro_distance_max_difference() {
    assert_eq!(jaro_f64(&jaro_distance("0000", "1111")), 1.0);
}

#[test]
fn test_jaro_distance_another_simple() {
    assert_eq!(jaro_f64(&jaro_distance("arnab", "raanb")), 0.1333333333333333);
}

#[test]
fn test_jaro_distance_different_length() {
    assert_eq!(jaro_f64(&jaro_distance("ala", "axxa")), 0.2777777777777778);
}

#[test]
fn identical_strings_have_zero_distance() {
    let h = hamming_distance("hello", "hello");
    assert_eq!(h.num, 0);
    let l = levenshtein_distance("hello", "hello");
    assert_eq!(l.num, 0);
    assert_eq!(jaro_distance("hello", "hello"), JaroScore::Identical);
    assert_eq!(jaro_ratio(jaro_distance("hello", "hello")).num, 0);
}

#[test]
fn metrics_are_symmetric() {
    assert_eq!(hamming_distance("karolin", "kathrin"), hamming_distance("kathrin", "karolin"));
    assert_eq!(hamming_distance("ala", "axxa"), hamming_distance("axxa", "ala"));
    assert_eq!(
        levenshtein_distance("kitten", "sitting"),
        levenshtein_distance("sitting", "kitten")
    );
    assert_eq!(levenshtein_distance("ala", "axxa"), levenshtein_distance("axxa", "ala"));
    assert_eq!(jaro_f64(&jaro_distance("crate", "trace")), jaro_f64(&jaro_distance("trace", "crate")));
    assert_eq!(jaro_f64(&jaro_distance("ala", "axxa")), jaro_f64(&jaro_distance("axxa", "ala")));
}

#[test]
fn scores_stay_within_unit_interval() {
    for (a, b) in [
        ("", ""),
        ("", "abc"),
        ("abc", ""),
        ("a", "b"),
        ("a", "a"),
        ("karolin", "kathrin"),
        ("kitten", "sitting"),
        ("arnab", "raanb"),
    ] {
        let h = hamming_distance(a, b);
        assert!(h.den > 0 && h.num <= h.den);
        let l = levenshtein_distance(a, b);
        assert!(l.den > 0 && l.num <= l.den);
        let j = jaro_ratio(jaro_distance(a, b));
        assert!(j.den > 0 && j.num <= j.den);
    }
}

#[test]
fn both_empty_inputs_give_zero_not_a_fault() {
    assert_eq!(hamming_distance("", ""), Ratio { num: 0, den: 1 });
    assert_eq!(levenshtein_distance("", ""), Ratio { num: 0, den: 1 });
    assert_eq!(jaro_distance("", ""), JaroScore::Identical);
}

#[test]
fn very_short_inputs_use_empty_window() {
    assert_eq!(jaro_distance("a", "b"), JaroScore::NoMatch);
    assert_eq!(jaro_f64(&jaro_distance("a", "b")), 1.0);
    assert_eq!(jaro_distance("a", ""), JaroScore::NoMatch);
    assert_eq!(jaro_distance("", "a"), JaroScore::NoMatch);
}

#[test]
fn jaro_exact_ratio_matches_components() {
    let j = jaro_ratio(jaro_distance("crate", "trace"));
    assert_eq!(j.num * 15, j.den * 4);
    let j = jaro_ratio(jaro_distance("ala", "axxa"));
    assert_eq!(j.num * 18, j.den * 5);
}

#[test]
fn repeated_calls_are_referentially_transparent() {
    let first = levenshtein_distance("kitten", "sitting");
    let second = levenshtein_distance("kitten", "sitting");
    assert_eq!(first, second);
    let v1: Vec<char> = "kitten".chars().collect();
    let v2: Vec<char> = "sitting".chars().collect();
    let mut memo: Vec<Option<usize>> = vec![None; (v1.len() + 1) * (v2.len() + 1)];
    let cold = levenshtein_distance_with_memo(&v1, &v2, 0, 0, &mut memo);
    assert_eq!(memo.len(), (v1.len() + 1) * (v2.len() + 1));
    let warm = levenshtein_distance_with_memo(&v1, &v2, 0, 0, &mut memo);
    assert_eq!(cold, 3);
    assert_eq!(warm, 3);
    assert_eq!(memo.len(), (v1.len() + 1) * (v2.len() + 1));
}

#[test]
fn unicode_is_measured_in_characters() {
    let h = hamming_distance("héllo", "hallo");
    assert_eq!(h, Ratio { num: 1, den: 5 });
    let l = levenshtein_distance("héllo", "hallo");
    assert_eq!(l, Ratio { num: 1, den: 5 });
}
