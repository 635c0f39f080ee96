use katas::classics::{classify_char, evaluate, merge_sorted, rotate_in_place, two_sum, Expr};
use katas::slices::{max_subarray, split_lines};

#[test]
fn classify_char_covers_all_classes() {
    assert_eq!(classify_char('a'), "vowel");
    assert_eq!(classify_char('o'), "vowel");
    assert_eq!(classify_char('z'), "consonant");
    assert_eq!(classify_char('4'), "neither");
    assert_eq!(classify_char(' '), "neither");
}

#[test]
fn merge_sorted_interleaves_in_order() {
    let merged = merge_sorted(&[1, 3, 5, 7], &[2, 6, 6, 10, 12]);
    assert_eq!(merged, vec![1, 2, 3, 5, 6, 6, 7, 10, 12]);
}

#[test]
fn merge_sorted_with_empty_side() {
    assert_eq!(merge_sorted(&[], &[1, 2]), vec![1, 2]);
    assert_eq!(merge_sorted(&[1, 2], &[]), vec![1, 2]);
}

#[test]
fn two_sum_finds_first_pair() {
    assert_eq!(two_sum(&[2, 7, 11, 15], 9), Some((0, 1)));
    assert_eq!(two_sum(&[2, 7, 11, 15], 19), None);
    assert_eq!(two_sum(&[3, 2, 4], 6), Some((1, 2)));
}

#[test]
fn evaluate_expression_trees() {
    let expr = Expr::Add(
        Box::new(Expr::Mul(Box::new(Expr::Number(2)), Box::new(Expr::Number(3)))),
        Box::new(Expr::Number(5)),
    );
    assert_eq!(evaluate(&expr), 11);

    let expr = Expr::Mul(
        Box::new(Expr::Add(Box::new(Expr::Number(2)), Box::new(Expr::Number(3)))),
        Box::new(Expr::Number(5)),
    );
    assert_eq!(evaluate(&expr), 25);
}

#[test]
fn rotate_in_place_moves_tail_to_front() {
    let mut arr = vec![1, 2, 3, 4, 5];
    rotate_in_place(&mut arr, 2);
    assert_eq!(arr, vec![4, 5, 1, 2, 3]);
}

#[test]
fn rotate_in_place_wraps_and_handles_empty() {
    let mut arr = vec![1, 2, 3, 4, 5];
    rotate_in_place(&mut arr, 7);
    assert_eq!(arr, vec![4, 5, 1, 2, 3]);
    let mut empty: Vec<i32> = Vec::new();
    rotate_in_place(&mut empty, 3);
    assert!(empty.is_empty());
}

#[test]
fn split_lines_drops_blank_lines() {
    let text = "hello world\nthis is Rust\n\n   \n";
    let lines = split_lines(text);
    assert_eq!(lines, vec!["hello world", "this is Rust"]);
}

#[test]
fn split_lines_keeps_last_unterminated_line() {
    assert_eq!(split_lines("a\nb"), vec!["a", "b"]);
    assert!(split_lines("").is_empty());
    assert!(split_lines("\n\n").is_empty());
}

#[test]
fn max_subarray_finds_single_best_window() {
    let arr = [10, 2, 3, 14, 5, 6, 7, 8, 9];
    let slices = max_subarray(&arr, 3);
    assert_eq!(slices, vec![&[14, 5, 6][..]]);
}

#[test]
fn max_subarray_keeps_all_tied_windows() {
    let arr = [1, 2, 1, 2];
    let slices = max_subarray(&arr, 2);
    assert_eq!(slices.len(), 3);
    assert_eq!(slices[0], &[1, 2][..]);
    assert_eq!(slices[1], &[2, 1][..]);
    assert_eq!(slices[2], &[1, 2][..]);
}

#[test]
fn max_subarray_all_negative_gives_nothing() {
    let arr = [-5, -2, -9];
    let slices = max_subarray(&arr, 2);
    assert!(slices.is_empty());
}
