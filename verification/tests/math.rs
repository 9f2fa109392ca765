use rust_algo::math::distance_from_levenshtein::distance_from_levenshtein;
use rust_algo::math::factorial::factorial;
use rust_algo::math::fibonaci::fibonaci;

#[test]
fn factorial_good() {
    assert_eq!(factorial(0), 1);
    assert_eq!(factorial(1), 1);
    assert_eq!(factorial(20), 2432902008176640000);
}

#[test]
fn factorial_notgood() {
    assert_ne!(factorial(0), 0);
    assert_ne!(factorial(2), 1);
}

#[test]
fn factorial_small_values() {
    assert_eq!(factorial(2), 2);
    assert_eq!(factorial(5), 120);
    assert_eq!(factorial(10), 3628800);
}

#[test]
fn fibonaci_good() {
    assert_eq!(fibonaci(0), 0);
    assert_eq!(fibonaci(1), 1);
    assert_eq!(fibonaci(2), 1);
    assert_eq!(fibonaci(3), 2);
    assert_eq!(fibonaci(13), 233);
}

#[test]
fn fibonaci_notgood() {
    assert_ne!(fibonaci(2), 2);
    assert_ne!(fibonaci(0), 1);
}

#[test]
fn fibonaci_more_values() {
    assert_eq!(fibonaci(10), 55);
    assert_eq!(fibonaci(20), 6765);
}

#[test]
fn distance_from_levenshtein_good() {
    let words: [[&str; 2]; 2] = [["niche", "chien"], ["maison", "maçon"]];
    let solutions: [u64; 2] = [4, 2];
    for i in 0..words.len() {
        assert_eq!(distance_from_levenshtein(words[i][0], words[i][1]), solutions[i]);
    }
}

#[test]
fn distance_from_levenshtein_equal_strings() {
    assert_eq!(distance_from_levenshtein("same", "same"), 0);
    assert_eq!(distance_from_levenshtein("", ""), 0);
}

#[test]
fn distance_from_levenshtein_small_edits() {
    // one substitution
    assert_eq!(distance_from_levenshtein("abc", "abd"), 1);
    // classic example: substitution, substitution, insertion
    assert_eq!(distance_from_levenshtein("kitten", "sitting"), 3);
    // all insertions from the empty string
    assert_eq!(distance_from_levenshtein("", "abc"), 3);
    assert_eq!(distance_from_levenshtein("abc", ""), 3);
}
