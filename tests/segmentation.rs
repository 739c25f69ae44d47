use locallens::ingest::plan_document;
use locallens::segment::{segment_text, MAX_PASSAGE_CHARS, MIN_PASSAGE_CHARS};

fn len(s: &str) -> usize {
    s.chars().count()
}

#[test]
fn empty_text_has_no_passages() {
    assert!(segment_text("").is_empty());
}

#[test]
fn short_paragraphs_are_dropped() {
    let text = "too short\n\nalso short, under thirty";
    assert!(segment_text(text).is_empty());
}

#[test]
fn paragraph_within_bounds_is_kept_trimmed() {
    let para = "x".repeat(40);
    let text = format!("  {}\t\n\n\n\n", para);
    assert_eq!(segment_text(&text), vec![para]);
}

#[test]
fn forty_and_six_hundred_char_paragraphs_give_three_indexed_passages() {
    let first = "f".repeat(40);
    let a = "a".repeat(299);
    let b = "b".repeat(299);
    let second = format!("{}. {}", a, b);
    assert_eq!(len(&second), 600);
    let text = format!("{}\n\n{}", first, second);
    let planned = plan_document(&text);
    assert_eq!(planned.len(), 3);
    assert_eq!(planned[0], (0, first));
    assert_eq!(planned[1], (1, a));
    assert_eq!(planned[2], (2, b));
}

#[test]
fn sentences_are_grouped_greedily() {
    let s = "s".repeat(100);
    let para = vec![s.clone(); 6].join(". ");
    assert_eq!(len(&para), 610);
    let out = segment_text(&para);
    assert_eq!(out.len(), 2);
    assert_eq!(out[0], vec![s.clone(); 4].join(". "));
    assert_eq!(len(&out[0]), 406);
    assert_eq!(out[1], vec![s.clone(); 2].join(". "));
}

#[test]
fn lone_long_sentence_is_kept_whole() {
    let long = "w".repeat(700);
    let para = format!("{}. short tail that is long enough ok", long);
    let out = segment_text(&para);
    assert_eq!(out.len(), 2);
    assert_eq!(out[0], long);
    assert_eq!(out[1], "short tail that is long enough ok");
}

#[test]
fn short_sentence_group_is_dropped() {
    let long = "w".repeat(520);
    let para = format!("{}. tiny", long);
    assert_eq!(segment_text(&para), vec![long]);
}

#[test]
fn lengths_count_characters() {
    let para = "é".repeat(30);
    assert_eq!(segment_text(&para), vec![para.clone()]);
    let under = "é".repeat(29);
    assert!(segment_text(&under).is_empty());
}

#[test]
fn every_passage_is_bounded() {
    let mut text = String::new();
    for i in 0..40 {
        let words = "word ".repeat(i * 7 + 1);
        text.push_str(&words);
        text.push_str(if i % 3 == 0 { "\n\n" } else { ". " });
    }
    text.push_str(&"z".repeat(900));
    let out = segment_text(&text);
    assert!(!out.is_empty());
    for p in &out {
        let n = len(p);
        assert!(n >= MIN_PASSAGE_CHARS);
        assert!(n <= MAX_PASSAGE_CHARS || !p.contains(". "));
    }
}

#[test]
fn segmentation_is_deterministic() {
    let text = format!("{}\n\n{}", "q".repeat(50), "r. ".repeat(300));
    assert_eq!(segment_text(&text), segment_text(&text));
}
