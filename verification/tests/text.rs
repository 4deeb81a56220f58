use std::cmp::Ordering;

use sonora::text::{folded, fuzzy, holds, word_score};

fn chars(text: &str) -> Vec<char> {
    text.chars().collect()
}

#[test]
fn a_word_found_whole_ranks_above_one_that_is_not_found() {
    assert_eq!(fuzzy("Close to tray", "tray"), Some(15));
    assert_eq!(fuzzy("Traffic lights", "tray"), None);
}

#[test]
fn scattered_letters_score_each_letter_and_its_word_start() {
    assert_eq!(fuzzy("Hello World", "hw"), Some(6));
    assert_eq!(fuzzy("Hello World", "hlo"), Some(3 + 1 + 1));
    assert_eq!(fuzzy("Hello World", "hel"), Some(11));
}

#[test]
fn every_word_of_the_needle_adds_its_score() {
    assert_eq!(fuzzy("Hello World", "hello world"), Some(38));
    assert_eq!(fuzzy("Hello World", "  hello   world "), Some(38));
    assert_eq!(fuzzy("Hello World", "hello moon"), None);
}

#[test]
fn an_empty_needle_matches_with_nothing_to_score() {
    assert_eq!(fuzzy("anything", ""), Some(0));
    assert_eq!(fuzzy("anything", "   "), Some(0));
    assert_eq!(fuzzy("", "a"), None);
}

#[test]
fn case_is_folded_on_both_sides() {
    assert_eq!(fuzzy("ÄBC", "äB"), Some(7));
    assert_eq!(fuzzy("close TO TRAY", "Tray"), Some(15));
}

#[test]
fn a_letter_after_a_letter_or_digit_starts_no_word() {
    assert_eq!(word_score(&chars("xtray"), &chars("tray")), Some(13));
    assert_eq!(word_score(&chars("9tray"), &chars("tray")), Some(13));
    assert_eq!(word_score(&chars("-tray"), &chars("tray")), Some(15));
    assert_eq!(word_score(&chars("tray"), &chars("")), Some(0));
}

#[test]
fn holding_folds_the_haystack_only() {
    assert!(holds("Hello World", "wor"));
    assert!(holds("Hello World", "o w"));
    assert!(!holds("Hello", "HE"));
    assert!(holds("x", ""));
    assert!(!holds("", "a"));
    assert!(!holds("abc", "abcd"));
}

#[test]
fn folded_order_ignores_case() {
    assert_eq!(folded("apple", "Banana"), Ordering::Less);
    assert_eq!(folded("ABC", "abc"), Ordering::Equal);
    assert_eq!(folded("b", "A"), Ordering::Greater);
    assert_eq!(folded("ab", "abc"), Ordering::Less);
    assert_eq!(folded("", ""), Ordering::Equal);
}
