use embassy_inspect::text::{
    chars_of, contains, ends_with, print_list, same_text, starts_with, string_of,
};

#[test]
fn texts_are_compared_by_their_characters() {
    assert!(same_text("", ""));
    assert!(same_text("POOL", "POOL"));
    assert!(!same_text("POOL", "POOLS"));
    assert!(!same_text("POOL", "pOOL"));
    assert!(same_text("größe", "größe"));
    assert_eq!(string_of(&chars_of("a::{b}")), "a::{b}");
    assert_eq!(chars_of("größe").len(), 5);
}

#[test]
fn beginnings_and_ends_of_texts() {
    assert!(starts_with("TaskPoolHolder<4>", "TaskPoolHolder"));
    assert!(starts_with("TaskPool", "TaskPool"));
    assert!(starts_with("anything", ""));
    assert!(!starts_with("TaskPool", "TaskPoolHolder"));
    assert!(!starts_with("xTaskPool", "TaskPool"));
    assert!(ends_with("embassy_executor::raw::poll", "poll"));
    assert!(ends_with("poll", "poll"));
    assert!(ends_with("poll", ""));
    assert!(!ends_with("poll", "a poll"));
    assert!(!ends_with("polls", "poll"));
}

#[test]
fn texts_within_texts() {
    assert!(contains("{closure#0}", "{closure"));
    assert!(contains("a{closure", "{closure"));
    assert!(contains("abc", ""));
    assert!(contains("", ""));
    assert!(contains("aab", "ab"));
    assert!(!contains("{closur", "{closure"));
    assert!(!contains("", "a"));
    assert!(!contains("closure{", "{closure"));
}

#[test]
fn lists_are_numbered_from_one() {
    assert_eq!(print_list(&vec![]), "");
    assert_eq!(print_list(&vec!["probe".to_string()]), "\n    1. probe");
    let many: Vec<String> = (0..11).map(|i| format!("p{i}")).collect();
    let written = print_list(&many);
    assert!(written.starts_with("\n    1. p0\n    2. p1\n"));
    assert!(written.ends_with("\n    10. p9\n    11. p10"));
}
