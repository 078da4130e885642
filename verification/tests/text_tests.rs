use neuragrid::text::{contains, starts_with, trim_leading};

#[test]
fn contains_finds_a_word_inside() {
    assert!(contains("job finished ok", "finished"));
    assert!(!contains("job finishe", "finished"));
    assert!(contains("abc", ""));
}

#[test]
fn starts_with_checks_the_beginning_only() {
    assert!(starts_with("Worker-A", "Worker"));
    assert!(!starts_with("A-Worker", "Worker"));
}

#[test]
fn trim_leading_takes_every_leading_mark() {
    assert_eq!(trim_leading("@@Worker-B", '@'), "Worker-B");
    assert_eq!(trim_leading("Worker@B", '@'), "Worker@B");
    assert_eq!(trim_leading("@", '@'), "");
}
