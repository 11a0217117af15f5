use backup_sync::sync::error_codes::{codes_from_texts, extract, try_extract};

#[test]
fn empty_string() {
    assert_eq!(extract(""), Vec::<u32>::new());
}

#[test]
fn no_parens() {
    assert_eq!(extract("rsync: something went wrong"), Vec::<u32>::new());
}

#[test]
fn single_code() {
    assert_eq!(extract("rsync: write failed (28)"), vec![28]);
}

#[test]
fn multiple_codes_across_lines() {
    let stderr = "rsync: read errors (5)\nrsync: write failed (28)";
    assert_eq!(extract(stderr), vec![5, 28]);
}

#[test]
fn ignores_non_numeric_parens() {
    assert_eq!(extract("rsync: foo (sender) bar (13)"), vec![13]);
}

#[test]
fn adjacent_and_nested_parentheses() {
    assert_eq!(extract("(1)(2)((3))"), vec![1, 2, 3]);
    assert_eq!(extract("(12a) (007) () (4"), vec![7]);
}

#[test]
fn codes_from_texts_reads_each_text() {
    let texts = vec![String::from("5"), String::from("0028"), String::from("4294967295")];
    assert_eq!(codes_from_texts(&texts), vec![5, 28, 4294967295]);
    assert_eq!(codes_from_texts(&Vec::new()), Vec::<u32>::new());
}

#[test]
fn try_extract_refuses_numbers_too_large() {
    assert_eq!(try_extract("rsync: (4294967296)"), None);
    assert_eq!(try_extract("rsync: (4294967295)"), Some(vec![4294967295]));
    assert_eq!(try_extract("rsync: (5) (28)"), Some(vec![5, 28]));
}

#[test]
fn try_extract_refuses_non_ascii_digits() {
    // The regex crate's \d matches every Unicode decimal digit.
    assert_eq!(try_extract("rsync: (\u{0663})"), None);
    assert_eq!(try_extract("\u{00e9}t\u{00e9} (13)"), Some(vec![13]));
}

#[test]
fn reads_codes_in_non_ascii_text() {
    assert_eq!(extract("\u{00e9}t\u{00e9} (13)"), vec![13]);
    assert_eq!(extract("\u{00fc}ber (5) \u{2192} (28)"), vec![5, 28]);
    assert_eq!(try_extract("(12\u{0663})"), None);
}

#[test]
fn codes_of_joined_lines_concatenate() {
    let a = "rsync: read (5) x (2)";
    let b = "rsync: write (28)";
    let joined = format!("{a}\n{b}");
    let mut expected = extract(a);
    expected.extend(extract(b));
    assert_eq!(extract(&joined), expected);
    assert_eq!(extract(&joined), vec![5, 2, 28]);
}

#[test]
fn only_digits_between_parentheses_count() {
    assert_eq!(extract("(sender) ( 6) (+5) (7a) (9) (\n1)"), vec![9]);
}

#[test]
fn codes_of_joined_non_ascii_lines_concatenate() {
    let a = "\u{00e9}chec (13) \u{2014} (5)";
    let b = "\u{00fc}ber (28)";
    let joined = format!("{a}\n{b}");
    let mut expected = extract(a);
    expected.extend(extract(b));
    assert_eq!(extract(&joined), expected);
    assert_eq!(try_extract(&format!("{a}\n(\u{0663})")), None);
}
