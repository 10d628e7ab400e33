use advanced_rust::word_counter::{count_words, merge_into, WordCounts};

fn counts(c: &WordCounts) -> Vec<(String, usize)> {
    let mut v = c.entries();
    v.sort();
    v
}

#[test]
fn counts_a_chunk() {
    let c = count_words("the quick brown fox jumps over the lazy dog the fox the dog");
    assert_eq!(c.get("the"), 4);
    assert_eq!(c.get("fox"), 2);
    assert_eq!(c.get("dog"), 2);
    assert_eq!(c.get("quick"), 1);
    assert_eq!(c.get("cat"), 0);
    assert_eq!(c.len(), 8);
}

#[test]
fn punctuation_is_trimmed_and_case_folded() {
    let c = count_words("Hello, world! HELLO... (world) hello");
    assert_eq!(c.get("hello"), 3);
    assert_eq!(c.get("world"), 2);
    assert_eq!(c.get("Hello"), 0);
    assert_eq!(c.len(), 2);
}

#[test]
fn inner_punctuation_is_kept() {
    let c = count_words("don't stop; it's e-mail");
    assert_eq!(c.get("don't"), 1);
    assert_eq!(c.get("it's"), 1);
    assert_eq!(c.get("e-mail"), 1);
    assert_eq!(c.get("stop"), 1);
}

#[test]
fn punctuation_only_tokens_are_not_words() {
    let c = count_words("  --- !!! ... \t\n ");
    assert_eq!(c.len(), 0);
    let empty = count_words("");
    assert_eq!(empty.len(), 0);
}

#[test]
fn unicode_words_are_lowered() {
    let c = count_words("Straße STRASSE Ünïcödé ünïcödé");
    assert_eq!(c.get("straße"), 1);
    assert_eq!(c.get("strasse"), 1);
    assert_eq!(c.get("ünïcödé"), 2);
}

#[test]
fn merging_adds_counts() {
    let mut total = count_words("a b a");
    let other = count_words("b c");
    merge_into(&mut total, other);
    assert_eq!(total.get("a"), 2);
    assert_eq!(total.get("b"), 2);
    assert_eq!(total.get("c"), 1);
    assert_eq!(total.len(), 3);
}

#[test]
fn merged_chunks_equal_the_joined_text() {
    let chunks = [
        "the quick brown fox jumps over the lazy dog the fox the dog",
        "rust is a systems programming language rust is fast and safe",
        "the dog and the fox are fast the quick fox is quick",
        "safe systems are fast systems rust programming is fun",
    ];
    let mut merged = WordCounts::new();
    for chunk in chunks.iter() {
        merge_into(&mut merged, count_words(chunk));
    }
    let joined = chunks.join(" ");
    let whole = count_words(&joined);
    assert_eq!(counts(&merged), counts(&whole));
    assert_eq!(merged.get("the"), 7);
    assert_eq!(merged.get("fox"), 4);
    assert_eq!(merged.get("rust"), 3);
}

#[test]
fn ranking_by_count_then_word() {
    let c = count_words("b a c b a b d");
    let r = c.ranked();
    assert_eq!(
        r,
        vec![
            ("b".to_string(), 3),
            ("a".to_string(), 2),
            ("c".to_string(), 1),
            ("d".to_string(), 1),
        ]
    );
    assert!(WordCounts::new().ranked().is_empty());
}

#[test]
fn ranking_of_the_four_chunks() {
    let chunks = [
        "the quick brown fox jumps over the lazy dog the fox the dog",
        "rust is a systems programming language rust is fast and safe",
        "the dog and the fox are fast the quick fox is quick",
        "safe systems are fast systems rust programming is fun",
    ];
    let mut merged = WordCounts::new();
    for chunk in chunks.iter() {
        merge_into(&mut merged, count_words(chunk));
    }
    let top: Vec<(String, usize)> = merged.ranked().into_iter().take(4).collect();
    assert_eq!(
        top,
        vec![
            ("the".to_string(), 7),
            ("fox".to_string(), 4),
            ("is".to_string(), 4),
            ("dog".to_string(), 3),
        ]
    );
}

#[test]
fn unicode_whitespace_separates_words() {
    let c = count_words("one\u{3000}two\u{a0}one\u{2009}three\ttwo\u{85}one");
    assert_eq!(c.get("one"), 3);
    assert_eq!(c.get("two"), 2);
    assert_eq!(c.get("three"), 1);
    assert_eq!(c.len(), 3);
}
