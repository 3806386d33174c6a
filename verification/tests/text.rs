use mlx_lm::text::{push_bracketed, push_decimal, push_digits, same, sort_names};

#[test]
fn numbers_are_written_in_decimal() {
    let mut s = String::from("n=");
    push_digits(&mut s, 0);
    s.push(' ');
    push_digits(&mut s, u64::MAX);
    s.push(' ');
    push_decimal(&mut s, -305);
    assert_eq!(s, "n=0 18446744073709551615 -305");
}

#[test]
fn lists_are_written_in_brackets() {
    let mut s = String::new();
    push_bracketed(&mut s, &[]);
    push_bracketed(&mut s, &[1]);
    push_bracketed(&mut s, &[1, -2, i32::MIN]);
    assert_eq!(s, "[][1][1, -2, -2147483648]");
}

#[test]
fn names_are_sorted_as_strings_are() {
    let mut names: Vec<String> = ["b", "a", "", "é", "ab", "z", "a", "😀", "Z"]
        .iter()
        .map(|s| s.to_string())
        .collect();
    let sorted = sort_names(names.clone());
    names.sort();
    assert_eq!(sorted, names);
}

#[test]
fn texts_are_compared_whole() {
    assert!(same("", ""));
    assert!(same("é▁", "é▁"));
    assert!(!same("a", "ab"));
    assert!(!same("ab", "ac"));
}
