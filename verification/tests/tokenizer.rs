use gptsovits_rs::text::tokenizer::{bert_inputs, BertTokenizer};

const TOKENIZER_JSON: &str = r#"{
  "version": "1.0",
  "truncation": null,
  "padding": null,
  "added_tokens": [],
  "normalizer": {"type": "BertNormalizer", "clean_text": true, "handle_chinese_chars": true, "strip_accents": null, "lowercase": false},
  "pre_tokenizer": {"type": "BertPreTokenizer"},
  "post_processor": null,
  "decoder": null,
  "model": {"type": "WordPiece", "unk_token": "[UNK]", "continuing_subword_prefix": "~~", "max_input_chars_per_word": 100, "vocab": {"[UNK]": 0, "你": 1, "好": 2, ",": 3}}
}"#;

#[test]
fn bert_inputs_are_the_tokenizer_ids_widened() {
    let bert = BertTokenizer::from_json(TOKENIZER_JSON).expect("tokenizer json");
    let (ids, mask, types) = bert.encode("你好,世").expect("encoding");
    assert_eq!(ids, vec![1, 2, 3, 0]);
    assert_eq!(mask, vec![1, 1, 1, 1]);
    assert_eq!(types, vec![0, 0, 0, 0]);
}

#[test]
fn bert_inputs_widen_values_and_prefix_errors() {
    assert_eq!(
        bert_inputs(Ok((vec![101, 4294967295], vec![1, 1], vec![0, 0]))),
        Ok((vec![101, 4294967295], vec![1, 1], vec![0, 0]))
    );
    assert_eq!(
        bert_inputs(Err("bad input".to_string())),
        Err("Tokenizer encoding error: bad input".to_string())
    );
}

#[test]
fn tokenizer_documents_that_are_refused() {
    let word_level = TOKENIZER_JSON.replace(
        r#""model": {"type": "WordPiece", "unk_token": "[UNK]", "continuing_subword_prefix": "~~", "max_input_chars_per_word": 100,"#,
        r#""model": {"type": "WordLevel", "unk_token": "[UNK]","#,
    );
    assert_eq!(
        BertTokenizer::from_json(&word_level).err(),
        Some("Tokenizer model is not WordPiece".to_string())
    );
    let err = BertTokenizer::from_json("{not json").err().unwrap();
    assert!(err.starts_with("Failed to load tokenizer: "));
}

#[test]
fn truncation_is_cleared() {
    let truncated = TOKENIZER_JSON.replace(
        r#""truncation": null"#,
        r#""truncation": {"direction": "Right", "max_length": 1, "strategy": "LongestFirst", "stride": 0}"#,
    );
    let bert = BertTokenizer::from_json(&truncated).expect("tokenizer json");
    let (ids, _, _) = bert.encode("你好,世").expect("encoding");
    assert_eq!(ids, vec![1, 2, 3, 0]);
}
