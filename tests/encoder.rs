use locallens::encoder::{
    accepts_post_processor, encode_inputs, PostProcessorKind, model_inputs, needs_type_ids, EncodeError, TextTokenizer, TokenEncoding, MAX_SEQ,
};

const TOKENIZER_JSON: &str = r#"{
  "version": "1.0",
  "truncation": null,
  "padding": null,
  "added_tokens": [],
  "normalizer": null,
  "pre_tokenizer": {"type": "Whitespace"},
  "post_processor": null,
  "decoder": null,
  "model": {"type": "WordLevel", "vocab": {"hello": 0, "world": 1, "[UNK]": 2}, "unk_token": "[UNK]"}
}"#;

#[test]
fn tokenizes_and_shapes_inputs() {
    let tok = TextTokenizer::new(TOKENIZER_JSON.parse().unwrap()).unwrap();
    let m = encode_inputs(&tok, "hello world again", true).unwrap();
    assert_eq!(m.seq_len, 3);
    assert_eq!(m.input_ids, vec![0, 1, 2]);
    assert_eq!(m.attention_mask, vec![1, 1, 1]);
    assert_eq!(m.token_type_ids, Some(vec![0, 0, 0]));
    let n = encode_inputs(&tok, "world", false).unwrap();
    assert_eq!(n.input_ids, vec![1]);
    assert_eq!(n.token_type_ids, None);
}

#[test]
fn long_inputs_are_cut() {
    let enc = TokenEncoding { ids: (0..300).collect(), type_ids: vec![0; 300], attention_mask: vec![1; 300] };
    let m = model_inputs(&enc, false).unwrap();
    assert_eq!(m.seq_len, MAX_SEQ);
    assert_eq!(m.input_ids.len(), 128);
    assert_eq!(m.input_ids[127], 127);
    assert_eq!(m.attention_mask.len(), 128);
}

#[test]
fn short_mask_is_refused() {
    let enc = TokenEncoding { ids: vec![5, 6, 7], type_ids: vec![0, 0, 0], attention_mask: vec![1] };
    assert_eq!(model_inputs(&enc, false).unwrap_err(), EncodeError::TokenizationFailure);
    let enc2 = TokenEncoding { ids: vec![5, 6], type_ids: vec![], attention_mask: vec![1, 1] };
    assert!(model_inputs(&enc2, false).is_ok());
    assert_eq!(model_inputs(&enc2, true).unwrap_err(), EncodeError::TokenizationFailure);
}

#[test]
fn type_ids_input_detection() {
    let with = vec!["input_ids".to_string(), "attention_mask".to_string(), "token_type_ids".to_string()];
    let without = vec!["input_ids".to_string(), "attention_mask".to_string()];
    assert!(needs_type_ids(&with));
    assert!(!needs_type_ids(&without));
}

const TRUNCATING_JSON: &str = r#"{
  "version": "1.0",
  "truncation": {"direction": "Right", "max_length": 2, "strategy": "LongestFirst", "stride": 5},
  "padding": null,
  "added_tokens": [],
  "normalizer": null,
  "pre_tokenizer": {"type": "Whitespace"},
  "post_processor": null,
  "decoder": null,
  "model": {"type": "WordLevel", "vocab": {"hello": 0, "world": 1, "[UNK]": 2}, "unk_token": "[UNK]"}
}"#;

#[test]
fn own_truncation_settings_are_dropped() {
    let tok = TextTokenizer::new(TRUNCATING_JSON.parse().unwrap()).unwrap();
    let m = encode_inputs(&tok, "hello world hello world", false).unwrap();
    assert_eq!(m.input_ids, vec![0, 1, 0, 1]);
}

fn with_post_processor(pp: &str) -> String {
    format!(
        r#"{{
  "version": "1.0",
  "truncation": null,
  "padding": null,
  "added_tokens": [],
  "normalizer": null,
  "pre_tokenizer": {{"type": "Whitespace"}},
  "post_processor": {pp},
  "decoder": null,
  "model": {{"type": "WordLevel", "vocab": {{"hello": 0, "world": 1, "[UNK]": 2, "[CLS]": 3, "[SEP]": 4}}, "unk_token": "[UNK]"}}
}}"#
    )
}

const BERT_TEMPLATE: &str = r#"{"type": "TemplateProcessing",
  "single": [{"SpecialToken": {"id": "[CLS]", "type_id": 0}}, {"Sequence": {"id": "A", "type_id": 0}}, {"SpecialToken": {"id": "[SEP]", "type_id": 0}}],
  "pair": [{"Sequence": {"id": "A", "type_id": 0}}, {"Sequence": {"id": "B", "type_id": 1}}],
  "special_tokens": {"[CLS]": {"id": "[CLS]", "ids": [3], "tokens": ["[CLS]"]}, "[SEP]": {"id": "[SEP]", "ids": [4], "tokens": ["[SEP]"]}}}"#;

const MISSING_TOKEN_TEMPLATE: &str = r#"{"type": "TemplateProcessing",
  "single": [{"SpecialToken": {"id": "[CLS]", "type_id": 0}}, {"Sequence": {"id": "A", "type_id": 0}}],
  "pair": [{"Sequence": {"id": "A", "type_id": 0}}, {"Sequence": {"id": "B", "type_id": 1}}],
  "special_tokens": {}}"#;

const SINGLE_TAKES_B_TEMPLATE: &str = r#"{"type": "TemplateProcessing",
  "single": [{"Sequence": {"id": "A", "type_id": 0}}, {"Sequence": {"id": "B", "type_id": 1}}],
  "pair": [{"Sequence": {"id": "A", "type_id": 0}}, {"Sequence": {"id": "B", "type_id": 1}}],
  "special_tokens": {}}"#;

#[test]
fn valid_template_adds_special_tokens() {
    let tok = TextTokenizer::new(with_post_processor(BERT_TEMPLATE).parse().unwrap()).unwrap();
    let m = encode_inputs(&tok, "hello world", true).unwrap();
    assert_eq!(m.input_ids, vec![3, 0, 1, 4]);
    assert_eq!(m.attention_mask, vec![1, 1, 1, 1]);
}

#[test]
fn template_with_missing_special_token_is_refused() {
    assert!(TextTokenizer::new(with_post_processor(MISSING_TOKEN_TEMPLATE).parse().unwrap()).is_none());
}

#[test]
fn single_template_taking_second_sequence_is_refused() {
    assert!(TextTokenizer::new(with_post_processor(SINGLE_TAKES_B_TEMPLATE).parse().unwrap()).is_none());
}

#[test]
fn post_processor_rules() {
    assert!(accepts_post_processor(PostProcessorKind::Absent, false, &None));
    assert!(accepts_post_processor(PostProcessorKind::Fixed, false, &None));
    assert!(!accepts_post_processor(PostProcessorKind::Chain, true, &Some("[]".to_string())));
    assert!(!accepts_post_processor(PostProcessorKind::Template, false, &Some("[]".to_string())));
    assert!(!accepts_post_processor(PostProcessorKind::Template, true, &None));
    assert!(accepts_post_processor(
        PostProcessorKind::Template,
        true,
        &Some(r#"[{"Sequence":{"id":"A","type_id":0}}]"#.to_string())
    ));
    assert!(!accepts_post_processor(
        PostProcessorKind::Template,
        true,
        &Some(r#"[{"Sequence":{"id":"B","type_id":0}}]"#.to_string())
    ));
}
