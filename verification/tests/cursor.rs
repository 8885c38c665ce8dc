use tokenizer_py::limits::fits;
use tokenizer_py::{ModPeekable, PeekableCharTracker};

#[test]
fn cursor_starts_at_line_one_column_one() {
    let text: Vec<char> = "ab".chars().collect();
    let cursor = PeekableCharTracker::new(&text);
    assert_eq!(cursor.pos(), (1, 1));
    assert!(cursor.is_start_of_line());
    assert_eq!(cursor.peek(), Some(&'a'));
}

#[test]
fn cursor_counts_lines_and_columns() {
    let text: Vec<char> = "ab\nc".chars().collect();
    let mut cursor = PeekableCharTracker::new(&text);
    assert_eq!(cursor.next(), Some('a'));
    assert_eq!(cursor.pos(), (1, 2));
    assert!(!cursor.is_start_of_line());
    assert_eq!(cursor.next(), Some('b'));
    assert_eq!(cursor.pos(), (1, 3));
    assert_eq!(cursor.next(), Some('\n'));
    assert_eq!(cursor.pos(), (2, 1));
    assert!(cursor.is_start_of_line());
    assert_eq!(cursor.next(), Some('c'));
    assert_eq!(cursor.pos(), (2, 2));
}

#[test]
fn cursor_stays_at_the_end() {
    let text: Vec<char> = "a".chars().collect();
    let mut cursor = PeekableCharTracker::new(&text);
    assert_eq!(cursor.next(), Some('a'));
    assert_eq!(cursor.peek(), None);
    assert_eq!(cursor.next(), None);
    assert_eq!(cursor.next(), None);
    assert_eq!(cursor.next_if(|_| true), None);
    assert_eq!(cursor.pos(), (1, 2));
}

#[test]
fn cursor_reads_only_what_the_test_accepts() {
    let text: Vec<char> = "a1".chars().collect();
    let mut cursor = PeekableCharTracker::new(&text);
    assert_eq!(cursor.next_if(|c| c.is_ascii_digit()), None);
    assert_eq!(cursor.pos(), (1, 1));
    assert_eq!(cursor.next_if(|c| *c == 'a'), Some('a'));
    assert_eq!(cursor.pos(), (1, 2));
    assert_eq!(cursor.next_if(|c| c.is_ascii_digit()), Some('1'));
    assert_eq!(cursor.peek(), None);
}

#[test]
fn cursor_copy_moves_alone() {
    let text: Vec<char> = "a\nb".chars().collect();
    let mut cursor = PeekableCharTracker::new(&text);
    cursor.next();
    let mut ahead = cursor.clone();
    assert_eq!(ahead.next(), Some('\n'));
    assert_eq!(ahead.next(), Some('b'));
    assert_eq!(ahead.pos(), (2, 2));
    assert_eq!(cursor.pos(), (1, 2));
    assert_eq!(cursor.peek(), Some(&'\n'));
}

#[test]
fn texts_fit_up_to_the_root_of_the_largest_position() {
    assert!(fits(0));
    assert!(fits(1_000_000));
    let side = (usize::MAX as f64).sqrt() as usize;
    assert!(fits(side - 5));
    assert!(!fits(side - 3));
    assert!(!fits(side));
    assert!(!fits(usize::MAX - 3));
    assert!(!fits(usize::MAX));
}

#[test]
fn cursor_goes_by_both_names() {
    let text: Vec<char> = "x\ny".chars().collect();
    let mut cursor = ModPeekable::new(&text);
    assert_eq!(cursor.next_if(|c| *c != '\n'), Some('x'));
    assert_eq!(cursor.next_if(|c| *c != '\n'), None);
    assert_eq!(cursor.peek(), Some(&'\n'));
    assert_eq!(cursor.pos(), (1, 2));
}
