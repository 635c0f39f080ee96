use katas::grids::Solution as GridSolution;
use katas::solution::Solution;

#[test]
fn two_sum_examples() {
    assert_eq!(Solution::two_sum(vec![2, 7, 11, 15], 9), vec![0, 1]);
    assert_eq!(Solution::two_sum(vec![3, 2, 4], 6), vec![1, 2]);
    assert_eq!(Solution::two_sum(vec![3, 3], 6), vec![0, 1]);
    assert_eq!(Solution::two_sum(vec![1, 2, 3, 4, 5], 10), Vec::<i32>::new());
    assert_eq!(Solution::two_sum(vec![-1, -3, 5, 7], 4), vec![0, 2]);
    assert_eq!(Solution::two_sum(vec![], 5), Vec::<i32>::new());
    assert_eq!(Solution::two_sum(vec![5], 10), Vec::<i32>::new());
}

#[test]
fn is_anagram_examples() {
    assert!(Solution::is_anagram(String::from("anagram"), String::from("nagaram")));
    assert!(!Solution::is_anagram(String::from("rat"), String::from("car")));
    assert!(!Solution::is_anagram(String::from("a"), String::from("ab")));
    assert!(Solution::is_anagram(String::from("aabb"), String::from("bbaa")));
    assert!(Solution::is_anagram(String::new(), String::new()));
    assert!(!Solution::is_anagram(String::from("abc"), String::from("abcd")));
    assert!(Solution::is_anagram(String::from("listen"), String::from("silent")));
}

#[test]
fn group_anagrams_keeps_first_appearance_order() {
    let strs = vec![
        String::from("eat"),
        String::from("tea"),
        String::from("tan"),
        String::from("ate"),
        String::from("nat"),
        String::from("bat"),
    ];
    let result = Solution::group_anagrams(strs);
    let expected = vec![
        vec![String::from("eat"), String::from("tea"), String::from("ate")],
        vec![String::from("tan"), String::from("nat")],
        vec![String::from("bat")],
    ];
    assert_eq!(result, expected);
}

#[test]
fn group_anagrams_small_inputs() {
    assert_eq!(
        Solution::group_anagrams(vec![String::new()]),
        vec![vec![String::new()]],
    );
    assert_eq!(
        Solution::group_anagrams(vec![String::from("a")]),
        vec![vec![String::from("a")]],
    );
    assert!(Solution::group_anagrams(Vec::new()).is_empty());
}

#[test]
fn group_anagrams_mixed_classes() {
    let strs = vec![
        String::from("aabb"),
        String::from("bbaa"),
        String::from("abcd"),
        String::from("bacd"),
        String::from("ddcc"),
    ];
    let result = Solution::group_anagrams(strs);
    assert_eq!(result.len(), 3);
    assert_eq!(result[0], vec![String::from("aabb"), String::from("bbaa")]);
    assert_eq!(result[1], vec![String::from("abcd"), String::from("bacd")]);
    assert_eq!(result[2], vec![String::from("ddcc")]);
}

#[test]
fn top_k_frequent_examples() {
    assert_eq!(Solution::top_k_frequent(vec![1, 1, 1, 2, 2, 3], 2), vec![1, 2]);
    assert_eq!(Solution::top_k_frequent(vec![1], 1), vec![1]);
    assert_eq!(Solution::top_k_frequent(vec![1, 2, 2, 3, 3, 3], 1), vec![3]);
    assert!(Solution::top_k_frequent(vec![], 1).is_empty());
    assert!(Solution::top_k_frequent(vec![1, 1, 1, 2, 2, 3], 0).is_empty());
}

#[test]
fn top_k_frequent_takes_all_when_k_exceeds_distinct() {
    let result = Solution::top_k_frequent(vec![1, 2], 2);
    assert_eq!(result.len(), 2);
    assert!(result.contains(&1));
    assert!(result.contains(&2));
    let result = Solution::top_k_frequent(vec![2, 2, 7], 5);
    assert_eq!(result, vec![2, 7]);
    let result = Solution::top_k_frequent(vec![4, 4, 5], -1);
    assert_eq!(result, vec![4, 5]);
}

#[test]
fn longest_substring_examples() {
    assert_eq!(Solution::length_of_longest_substring(String::from("abcabcbb")), 3);
    assert_eq!(Solution::length_of_longest_substring(String::from("bbbbb")), 1);
    assert_eq!(Solution::length_of_longest_substring(String::from("pwwkew")), 3);
    assert_eq!(Solution::length_of_longest_substring(String::new()), 0);
    assert_eq!(Solution::length_of_longest_substring(String::from(" ")), 1);
    assert_eq!(Solution::length_of_longest_substring(String::from("au")), 2);
    assert_eq!(Solution::length_of_longest_substring(String::from("dvdf")), 3);
    assert_eq!(Solution::length_of_longest_substring(String::from("abacaba")), 3);
}

#[test]
fn unique_occurrences_examples() {
    assert!(GridSolution::unique_occurrences(vec![1, 2, 2, 1, 1, 3]));
    assert!(!GridSolution::unique_occurrences(vec![1, 2]));
    assert!(GridSolution::unique_occurrences(vec![]));
    assert!(GridSolution::unique_occurrences(vec![-3, 0, 1, -3, 1, 1, 1, -3, 10, 0]));
}

#[test]
fn equal_pairs_examples() {
    let grid = vec![vec![3, 2, 1], vec![1, 7, 6], vec![2, 7, 7]];
    assert_eq!(GridSolution::equal_pairs(grid), 1);
    let grid = vec![
        vec![3, 1, 2, 2],
        vec![1, 4, 4, 5],
        vec![2, 4, 2, 2],
        vec![2, 4, 2, 2],
    ];
    assert_eq!(GridSolution::equal_pairs(grid), 3);
}
