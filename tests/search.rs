use locallens::search::{
    contains_chars, keyword_hits, normalized_query, score_key_of, semantic_hits, top_candidates,
    PassageRecord, SearchHit, SearchRun, SearchStep,
};
use locallens::status::ModelStatus;

fn rec(content: &str, index: i64) -> PassageRecord {
    PassageRecord {
        content: content.to_string(),
        file_name: "a.txt".to_string(),
        file_path: "/docs/a.txt".to_string(),
        chunk_index: index,
    }
}

fn hit(content: &str) -> SearchHit {
    SearchHit {
        content: content.to_string(),
        file_name: "a.txt".to_string(),
        file_path: "/docs/a.txt".to_string(),
        chunk_index: 0,
        score_bits: 0.5f32.to_bits(),
        is_semantic: true,
    }
}

#[test]
fn score_keys_follow_float_order() {
    let xs = [-1.0f32, -0.5, -0.0, 0.0, 0.25, 0.5, 1.0];
    for w in xs.windows(2) {
        assert!(score_key_of(w[0].to_bits()) <= score_key_of(w[1].to_bits()));
    }
    assert!(score_key_of(0.9f32.to_bits()) > score_key_of(0.1f32.to_bits()));
    assert!(score_key_of((-0.1f32).to_bits()) > score_key_of((-0.9f32).to_bits()));
}

#[test]
fn top_candidates_sorts_by_score_descending() {
    let scored = vec![(1, 0.2f32.to_bits()), (2, 0.9f32.to_bits()), (3, (-0.4f32).to_bits()), (4, 0.5f32.to_bits())];
    let top = top_candidates(&scored);
    let ids: Vec<i64> = top.iter().map(|c| c.0).collect();
    assert_eq!(ids, vec![2, 4, 1, 3]);
    assert_eq!(top[0].1, 0.9f32.to_bits());
}

#[test]
fn top_candidates_keeps_twenty_and_ties_in_order() {
    let scored: Vec<(i64, u32)> = (0..30).map(|i| (i as i64, if i % 2 == 0 { 0.5f32 } else { 0.7f32 }.to_bits())).collect();
    let top = top_candidates(&scored);
    assert_eq!(top.len(), 20);
    let ids: Vec<i64> = top.iter().map(|c| c.0).collect();
    let mut expected: Vec<i64> = (0..30).filter(|i| i % 2 == 1).collect();
    expected.extend((0..30).filter(|i| i % 2 == 0).take(5));
    assert_eq!(ids, expected);
}

#[test]
fn top_candidates_of_nothing_is_nothing() {
    assert!(top_candidates(&vec![]).is_empty());
}

#[test]
fn semantic_hits_skip_missing_passages() {
    let top = vec![(7, 0.8f32.to_bits()), (8, 0.6f32.to_bits()), (9, 0.1f32.to_bits())];
    let found = vec![Some(rec("seven", 0)), None, Some(rec("nine", 2))];
    let hits = semantic_hits(&top, &found);
    assert_eq!(hits.len(), 2);
    assert_eq!(hits[0].content, "seven");
    assert_eq!(hits[0].score_bits, 0.8f32.to_bits());
    assert!(hits[0].is_semantic);
    assert_eq!(hits[1].content, "nine");
    assert_eq!(hits[1].chunk_index, 2);
}

#[test]
fn keyword_fallback_is_case_sensitive_and_shortest_first() {
    let rows = vec![
        rec("our refund policy covers thirty days after purchase", 0),
        rec("Refund Policy (capitalised) does not match", 1),
        rec("refund policy in short", 2),
        rec("nothing relevant here", 3),
    ];
    let hits = keyword_hits(&rows, "refund policy");
    let texts: Vec<&str> = hits.iter().map(|h| h.content.as_str()).collect();
    assert_eq!(texts, vec!["refund policy in short", "our refund policy covers thirty days after purchase"]);
    for h in &hits {
        assert_eq!(f32::from_bits(h.score_bits), 0.0);
        assert!(!h.is_semantic);
    }
}

#[test]
fn keyword_fallback_keeps_thirty() {
    let rows: Vec<PassageRecord> = (0..40).map(|i| rec(&format!("{} needle", "x".repeat(40 - i)), i as i64)).collect();
    let hits = keyword_hits(&rows, "needle");
    assert_eq!(hits.len(), 30);
    assert_eq!(hits[0].chunk_index, 39);
    assert_eq!(hits[29].chunk_index, 10);
}

#[test]
fn substring_test() {
    let t: Vec<char> = "hello world".chars().collect();
    assert!(contains_chars(&t, &"o w".chars().collect()));
    assert!(contains_chars(&t, &vec![]));
    assert!(!contains_chars(&t, &"World".chars().collect()));
    assert!(!contains_chars(&"ab".chars().collect(), &"abc".chars().collect()));
}

#[test]
fn query_is_trimmed() {
    assert_eq!(normalized_query("  refund policy \n"), "refund policy");
    assert_eq!(normalized_query("\u{3000}\t "), "");
}

#[test]
fn whitespace_query_is_answered_empty_at_once() {
    let run = SearchRun::start(" \t\n ", &ModelStatus::Ready);
    assert_eq!(run.step(), SearchStep::Done);
    assert!(run.into_results().is_empty());
}

#[test]
fn unavailable_model_goes_to_keyword_search() {
    let run0 = SearchRun::start("refund policy", &ModelStatus::Unavailable);
    assert_eq!(run0.step(), SearchStep::Keyword);
    assert_eq!(run0.query(), "refund policy");
    let mut run = run0;
    let rows = vec![rec("the refund policy applies", 0), rec("shipping times", 1)];
    run.on_keyword(keyword_hits(&rows, run.query()));
    assert_eq!(run.step(), SearchStep::Done);
    let results = run.into_results();
    assert_eq!(results.len(), 1);
    for h in &results {
        assert_eq!(f32::from_bits(h.score_bits), 0.0);
        assert!(!h.is_semantic);
    }
}

#[test]
fn loading_or_failed_model_goes_to_keyword_search() {
    assert_eq!(SearchRun::start("q", &ModelStatus::Loading).step(), SearchStep::Keyword);
    assert_eq!(SearchRun::start("q", &ModelStatus::Failed("x".to_string())).step(), SearchStep::Keyword);
}

#[test]
fn empty_semantic_ranking_falls_back_to_keyword() {
    let mut run = SearchRun::start("refund", &ModelStatus::Ready);
    assert_eq!(run.step(), SearchStep::EncodeQuery);
    run.on_encoded(true);
    assert_eq!(run.step(), SearchStep::RankSemantic);
    let top = top_candidates(&vec![]);
    run.on_ranked(semantic_hits(&top, &vec![]));
    assert_eq!(run.step(), SearchStep::Keyword);
}

#[test]
fn failed_query_encoding_falls_back_to_keyword() {
    let mut run = SearchRun::start("refund", &ModelStatus::Ready);
    run.on_encoded(false);
    assert_eq!(run.step(), SearchStep::Keyword);
}

#[test]
fn semantic_results_are_the_answer() {
    let mut run = SearchRun::start("refund", &ModelStatus::Ready);
    run.on_encoded(true);
    run.on_ranked(vec![hit("one")]);
    assert_eq!(run.step(), SearchStep::Done);
    let results = run.into_results();
    assert_eq!(results.len(), 1);
    assert!(results[0].is_semantic);
}
