use docquery::text::{chars_of, decimal_string, label_chunks, page_label_string, push_decimal};
use docquery::utils::chunker::preprocess;
use docquery::utils::helpers::preprocess_text;

#[test]
fn preprocess_drops_line_feeds_and_squeezes_spaces() {
    let out = preprocess(String::from("Hello\nWorld  \t foo\n\n bar"));
    assert_eq!(out, "HelloWorld foo bar");
}

#[test]
fn preprocess_joins_white_space_split_by_line_feed() {
    assert_eq!(preprocess(String::from("a \n b")), "a b");
    assert_eq!(preprocess(String::from("\n\n")), "");
    assert_eq!(preprocess(String::new()), "");
}

#[test]
fn preprocess_squeezes_unicode_white_space() {
    let out = preprocess(String::from("a\u{a0}\u{3000}\r\u{2009}b\u{85}c"));
    assert_eq!(out, "a b c");
}

#[test]
fn preprocess_keeps_edges_as_single_spaces() {
    assert_eq!(preprocess(String::from("  leading and trailing\t\t")), " leading and trailing ");
}

#[test]
fn preprocess_is_idempotent_on_sample() {
    let once = preprocess(String::from(" x \n\t y\u{2028}\u{2029} z "));
    let twice = preprocess(once.clone());
    assert_eq!(once, twice);
}

#[test]
fn preprocess_text_agrees_with_preprocess() {
    let raw = "Page 1\n\nSome   text\twith\u{a0}gaps";
    assert_eq!(preprocess_text(raw.to_string()), preprocess(raw.to_string()));
    assert_eq!(preprocess_text(raw.to_string()), "Page 1Some text with gaps");
}

#[test]
fn decimal_of_numbers() {
    assert_eq!(decimal_string(0), "0");
    assert_eq!(decimal_string(7), "7");
    assert_eq!(decimal_string(10), "10");
    assert_eq!(decimal_string(1234567890), "1234567890");
    assert_eq!(decimal_string(usize::MAX), usize::MAX.to_string());
}

#[test]
fn push_decimal_appends() {
    let mut v = vec!['x'];
    push_decimal(405, &mut v);
    assert_eq!(v, vec!['x', '4', '0', '5']);
}

#[test]
fn page_label_text() {
    assert_eq!(page_label_string(3), "[3] ");
    assert_eq!(page_label_string(120), "[120] ");
}

#[test]
fn label_chunks_cuts_every_200_characters() {
    let text: String = "x".repeat(450);
    let chunks = label_chunks(7, &text);
    assert_eq!(chunks.len(), 3);
    assert_eq!(chunks[0], format!("[7] {}", "x".repeat(200)));
    assert_eq!(chunks[1], format!("[7] {}", "x".repeat(200)));
    assert_eq!(chunks[2], format!("[7] {}", "x".repeat(50)));
}

#[test]
fn label_chunks_counts_characters_not_bytes() {
    let text: String = "é".repeat(201);
    let chunks = label_chunks(1, &text);
    assert_eq!(chunks.len(), 2);
    assert_eq!(chunks[0], format!("[1] {}", "é".repeat(200)));
    assert_eq!(chunks[1], "[1] é");
}

#[test]
fn label_chunks_of_empty_text_is_empty() {
    assert!(label_chunks(1, "").is_empty());
}

#[test]
fn label_chunks_exact_multiple() {
    let text: String = "ab".repeat(200);
    let chunks = label_chunks(2, &text);
    assert_eq!(chunks.len(), 2);
    let rebuilt: String = chunks.iter().map(|c| c.strip_prefix("[2] ").unwrap()).collect();
    assert_eq!(rebuilt, text);
}

#[test]
fn chars_of_keeps_every_character() {
    assert_eq!(chars_of("aé\n z"), vec!['a', 'é', '\n', ' ', 'z']);
    assert!(chars_of("").is_empty());
}

#[test]
fn preprocess_splits_before_a_non_space() {
    let a = "one \n two\t".to_string();
    let b = "three\n\nfour  ".to_string();
    assert_eq!(preprocess(a.clone() + &b), preprocess(a) + &preprocess(b));
}
