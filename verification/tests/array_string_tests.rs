use katas::array_ops::Solution as ArraySolution;
use katas::strings::{first_word, string_length, unique_characters};
use katas::text_ops::{remove_duplicates, reverse_words};

#[test]
fn concatenation_doubles_the_array() {
    let nums = vec![1, 2, 3];
    let result = ArraySolution::get_concatenation(nums);
    assert_eq!(result, vec![1, 2, 3, 1, 2, 3]);
}

#[test]
fn concatenation_of_empty_is_empty() {
    let result = ArraySolution::get_concatenation(Vec::new());
    assert!(result.is_empty());
}

#[test]
fn merge_alternately_equal_lengths() {
    let result = ArraySolution::merge_alternately(String::from("abc"), String::from("pqr"));
    assert_eq!(result, "apbqcr");
}

#[test]
fn merge_alternately_uneven_lengths() {
    let result = ArraySolution::merge_alternately(String::from("ab"), String::from("pqrs"));
    assert_eq!(result, "apbqrs");
    let result = ArraySolution::merge_alternately(String::from("abcd"), String::from("pq"));
    assert_eq!(result, "apbqcd");
    let result = ArraySolution::merge_alternately(String::new(), String::from("x"));
    assert_eq!(result, "x");
}

#[test]
fn find_error_nums_reports_duplicate_and_missing() {
    assert_eq!(ArraySolution::find_error_nums(vec![1, 1]), vec![1, 2]);
    assert_eq!(ArraySolution::find_error_nums(vec![1, 2, 2, 4]), vec![2, 3]);
    assert_eq!(ArraySolution::find_error_nums(vec![1, 2, 3]), vec![0, 0]);
}

#[test]
fn string_length_counts_bytes() {
    assert_eq!(string_length(String::from("hello")), 5);
    assert_eq!(string_length(String::new()), 0);
}

#[test]
fn first_word_splits_at_first_space() {
    let (first, rest) = first_word(String::from("hello world again"));
    assert_eq!(first, "hello");
    assert_eq!(rest, "world again");
}

#[test]
fn first_word_without_space_returns_whole() {
    let (first, rest) = first_word(String::from("single"));
    assert_eq!(first, "single");
    assert_eq!(rest, "");
}

#[test]
fn unique_characters_keeps_first_appearance() {
    assert_eq!(unique_characters(String::from("hello world")), "helowrd");
    assert_eq!(unique_characters(String::from("aaaa")), "a");
    assert_eq!(unique_characters(String::from("   ")), "");
}

#[test]
fn remove_duplicates_keeps_first_occurrences() {
    let mut nums = vec![1, 2, 2, 3, 4, 4, 5];
    remove_duplicates(&mut nums);
    assert_eq!(nums, vec![1, 2, 3, 4, 5]);
}

#[test]
fn remove_duplicates_on_empty() {
    let mut nums: Vec<i32> = Vec::new();
    remove_duplicates(&mut nums);
    assert!(nums.is_empty());
}

#[test]
fn reverse_words_reverses_word_order() {
    let s = String::from("hello world this is Rust");
    assert_eq!(reverse_words(&s), "Rust is this world hello");
}

#[test]
fn reverse_words_handles_tabs_and_extra_spaces() {
    let s = String::from("a\tb");
    assert_eq!(reverse_words(&s), "b a");
    let s = String::from("  one   two  ");
    assert_eq!(reverse_words(&s), "two one");
    let s = String::from("");
    assert_eq!(reverse_words(&s), "");
}
