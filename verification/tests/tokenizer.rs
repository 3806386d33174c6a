use mlx_lm::error::LmError;
use mlx_lm::tokenizer::{
    apply_llama_fast_compat, declares_llama_tokenizer, do_merges_join_tokens, is_llama_config,
    load_llama_tokenizer, load_tokenizer, LlamaTokenizer, TokenizerSource,
};
use serde_json::Value;

fn json(text: &str) -> Value {
    serde_json::from_str(text).expect("a JSON document")
}

#[test]
fn llama_fast_compat_matches_mlx_lm_pipeline_shape() {
    let mut json = json(
        r#"{
            "normalizer": {"type": "NFC"},
            "pre_tokenizer": {"type": "ByteLevel"},
            "decoder": {"type": "ByteLevel"},
            "model": {
                "type": "BPE",
                "byte_fallback": false,
                "fuse_unk": false,
                "continuing_subword_prefix": "",
                "end_of_word_suffix": ""
            }
        }"#,
    );

    assert!(apply_llama_fast_compat(&mut json));
    assert!(json["normalizer"].is_null());
    assert_eq!(json["pre_tokenizer"]["type"], "Metaspace");
    assert_eq!(json["pre_tokenizer"]["replacement"], "\u{2581}");
    assert_eq!(json["pre_tokenizer"]["prepend_scheme"], "always");
    assert_eq!(json["pre_tokenizer"]["split"], false);
    assert_eq!(json["model"]["byte_fallback"], true);
    assert_eq!(json["model"]["fuse_unk"], true);
    assert!(json["model"]["continuing_subword_prefix"].is_null());
    assert!(json["model"]["end_of_word_suffix"].is_null());
    assert_eq!(json["decoder"]["type"], "ByteLevel");
}

#[test]
fn other_definitions_are_left_as_they_are() {
    for text in [
        "null",
        "[1, 2]",
        "{}",
        r#"{"model": "BPE"}"#,
        r#"{"model": null, "normalizer": 1}"#,
        r#"{"model": {"type": "Unigram"}}"#,
        r#"{"model": {"type": 1}}"#,
        r#"{"model": {"vocab": {}}}"#,
    ] {
        let mut value = json(text);
        assert!(!apply_llama_fast_compat(&mut value), "{text}");
        assert_eq!(value, json(text));
    }
}

#[test]
fn adapting_twice_is_adapting_once() {
    let mut value = json(r#"{"model": {"type": "BPE", "vocab": {"a": 0}}, "extra": [1]}"#);
    assert!(apply_llama_fast_compat(&mut value));
    let once = value.clone();
    assert!(apply_llama_fast_compat(&mut value));
    assert_eq!(value, once);
    assert_eq!(value["model"]["vocab"]["a"], 0);
    assert_eq!(value["extra"][0], 1);
}

#[test]
fn the_class_decides_how_a_tokenizer_is_loaded() {
    let fast = r#"{"tokenizer_class": "LlamaTokenizerFast"}"#;
    let slow = r#"{"tokenizer_class": "LlamaTokenizer"}"#;
    let other = r#"{"tokenizer_class": "Qwen2Tokenizer"}"#;
    let number = r#"{"tokenizer_class": 3}"#;
    assert!(is_llama_config(&json(fast)));
    assert!(is_llama_config(&json(slow)));
    assert!(!is_llama_config(&json(other)));
    assert!(!is_llama_config(&json(number)));
    assert!(!is_llama_config(&json("[]")));

    assert!(declares_llama_tokenizer(Some(fast)).unwrap());
    assert!(!declares_llama_tokenizer(Some(other)).unwrap());
    assert!(!declares_llama_tokenizer(None).unwrap());

    let source = |config| load_tokenizer(config).unwrap();
    assert_eq!(source(Some(slow)), TokenizerSource::Definition);
    assert_eq!(source(Some(other)), TokenizerSource::File);
    assert_eq!(source(None), TokenizerSource::File);
}

#[test]
fn a_configuration_that_is_no_document_is_refused() {
    let error = load_tokenizer(Some("{")).unwrap_err();
    assert!(matches!(&error, LmError::Json(_)));
    assert_eq!(error.message("", "bad"), "bad");
    assert!(matches!(load_llama_tokenizer("{"), Err(LmError::Json(_))));
}

fn definition(kind: &str, vocab: &str, merges: &str) -> String {
    format!(
        r#"{{"version": "1.0", "truncation": null, "padding": null, "added_tokens": [],
            "normalizer": {{"type": "Lowercase"}}, "pre_tokenizer": null, "post_processor": null,
            "decoder": null, "model": {{"type": "{kind}", "dropout": null, "unk_token": null,
            "continuing_subword_prefix": "", "end_of_word_suffix": "", "fuse_unk": false,
            "byte_fallback": false, "vocab": {vocab}, "merges": {merges}}}}}"#
    )
}

const VOCAB: &str = r#"{"▁": 0, "a": 1, "b": 2, "▁a": 3, "▁ab": 4}"#;
const PAIRS: &str = r#"[["▁", "a"], ["▁a", "b"]]"#;
const LINES: &str = r#"["▁ a", "▁a b"]"#;

fn made(text: &str) -> tokenizers::Tokenizer {
    match load_llama_tokenizer(text) {
        Ok(LlamaTokenizer::Made(tokenizer)) => tokenizer,
        Ok(LlamaTokenizer::Unmade(_)) => panic!("the tokenizer was not made"),
        Err(e) => panic!("{}", e.message("", "")),
    }
}

#[test]
fn a_llama_tokenizer_marks_spaces_before_it_merges() {
    for merges in [PAIRS, LINES] {
        let text = definition("BPE", VOCAB, merges);
        let encoding = made(&text).encode("ab a", false).expect("encode");
        assert_eq!(encoding.get_ids(), [4, 3]);
        assert_eq!(encoding.get_tokens(), ["▁ab", "▁a"]);

        let plain: tokenizers::Tokenizer = text.parse().expect("plain definition");
        let encoding = plain.encode("ab", false).expect("encode");
        assert_eq!(encoding.get_ids(), [1, 2]);
    }
}

#[test]
fn a_refused_definition_says_why() {
    for (vocab, merges) in [
        (r#"{"a": "zero"}"#, "[]"),
        (r#"{"a": 0, "ab": 1}"#, r#"[["a", "b"]]"#),
        (r#"{"b": 0, "ab": 1}"#, r#"["a b"]"#),
        (r#"{"b": 0}"#, r#"[["a far longer text", "b"]]"#),
        (VOCAB, r#"["▁ a b"]"#),
        (VOCAB, r#"["▁a"]"#),
        (VOCAB, r#"[["▁", "a"], "▁a b"]"#),
        (VOCAB, r#"[["▁", "a", "b"]]"#),
        (VOCAB, r#"[["▁", 1]]"#),
        (VOCAB, r#"[{"▁": "a"}]"#),
        (VOCAB, "null"),
        ("[]", PAIRS),
        ("null", LINES),
    ] {
        let text = definition("BPE", vocab, merges);
        assert!(do_merges_join_tokens(&json(&text)), "{text}");
        match load_llama_tokenizer(&text) {
            Err(LmError::Tokenizer(said)) => {
                let mut adapted = json(&text);
                assert!(apply_llama_fast_compat(&mut adapted));
                let bytes = serde_json::to_vec(&adapted).expect("bytes");
                let refused = tokenizers::Tokenizer::from_bytes(bytes).map(|_| ());
                assert_eq!(said, refused.unwrap_err().to_string());
                assert!(!said.is_empty());
            }
            _ => panic!("{text} was not refused"),
        }
    }
}

#[test]
fn definitions_that_join_tokens_to_no_token_are_handed_back() {
    for (kind, vocab, merges) in [
        ("BPE", r#"{"a": 0, "b": 1}"#, r#"[["a", "b"]]"#),
        ("BPE", r#"{"a": 0, "b": 1}"#, r#"["a b"]"#),
        ("BPE", VOCAB, r#"[["▁", "a"], ["▁ab", "▁ab"]]"#),
        ("BPE", VOCAB, r#"["▁ a", "a b"]"#),
        ("Unigram", VOCAB, PAIRS),
        ("WordLevel", VOCAB, "[]"),
    ] {
        let text = definition(kind, vocab, merges);
        assert!(!do_merges_join_tokens(&json(&text)), "{text}");
        let mut adapted = json(&text);
        assert_eq!(apply_llama_fast_compat(&mut adapted), kind == "BPE");
        match load_llama_tokenizer(&text) {
            Ok(LlamaTokenizer::Unmade(bytes)) => {
                assert_eq!(bytes, serde_json::to_vec(&adapted).expect("bytes"));
            }
            _ => panic!("a tokenizer was made of {text}"),
        }
    }
}

#[test]
fn adapting_keeps_merges_as_they_join() {
    for merges in [PAIRS, LINES, "[]"] {
        let mut value = json(&definition("BPE", VOCAB, merges));
        assert!(do_merges_join_tokens(&value));
        assert!(apply_llama_fast_compat(&mut value));
        assert!(do_merges_join_tokens(&value));
    }
    assert!(!do_merges_join_tokens(&json("null")));
    assert!(!do_merges_join_tokens(&json("{}")));
}

#[test]
fn tokens_that_share_a_number_are_accepted() {
    let text = definition("BPE", r#"{"a": 0, "b": 0}"#, "[]");
    let tokenizer = made(&text);
    assert_eq!(tokenizer.token_to_id("a"), Some(0));
    assert_eq!(tokenizer.token_to_id("b"), Some(0));
}
