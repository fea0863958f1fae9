use game_translator::batch::{
    assemble_results, build_numbered_block, chat_max_tokens, completion_max_tokens,
    deepl_key_is_free, parse_numbered_response, plan_batch, Translator, TranslatorBackend,
};

#[test]
fn blank_entries_never_reach_the_backend() {
    let texts = vec!["".to_string(), "Hi".to_string(), "  ".to_string()];
    let plan = plan_batch(&texts);
    assert_eq!(plan.requests, vec!["Hi".to_string()]);
    assert_eq!(plan.indices, vec![1]);
    let reply = vec![Some("やあ".to_string())];
    let results = assemble_results(texts.len(), &plan.indices, &reply);
    assert_eq!(results.len(), 3);
    assert_eq!(results[0], None);
    assert_eq!(results[1], Some("やあ".to_string()));
    assert_eq!(results[2], None);
}

#[test]
fn all_blank_batch_translates_nothing() {
    let texts = vec!["".to_string(), "\u{3000}".to_string()];
    let plan = plan_batch(&texts);
    assert_eq!(plan.requests.len(), 0);
    let results = assemble_results(texts.len(), &plan.indices, &Vec::new());
    assert_eq!(results, vec![None, None]);
}

#[test]
fn short_reply_leaves_tail_untranslated() {
    let texts = vec!["a".to_string(), "b".to_string(), "c".to_string()];
    let plan = plan_batch(&texts);
    let reply = vec![Some("A".to_string())];
    let results = assemble_results(texts.len(), &plan.indices, &reply);
    assert_eq!(results, vec![Some("A".to_string()), None, None]);
}

#[test]
fn per_item_miss_stays_none() {
    let texts = vec!["a".to_string(), "b".to_string()];
    let plan = plan_batch(&texts);
    let reply = vec![None, Some("B".to_string())];
    let results = assemble_results(texts.len(), &plan.indices, &reply);
    assert_eq!(results, vec![None, Some("B".to_string())]);
}

#[test]
fn numbered_block_layout() {
    let texts = vec!["Hello".to_string(), "World".to_string()];
    assert_eq!(build_numbered_block(&texts), "1. Hello\n2. World");
    assert_eq!(build_numbered_block(&Vec::new()), "");
    assert_eq!(build_numbered_block(&vec!["x".to_string()]), "1. x");
}

#[test]
fn numbered_response_basic() {
    let r = parse_numbered_response("1. こんにちは\n2. 世界", 2);
    assert_eq!(r, vec![Some("こんにちは".to_string()), Some("世界".to_string())]);
}

#[test]
fn numbered_response_joins_continuation_lines() {
    let r = parse_numbered_response("1. first part\nsecond part\n2. other", 2);
    assert_eq!(
        r,
        vec![Some("first part second part".to_string()), Some("other".to_string())]
    );
}

#[test]
fn numbered_response_ignores_out_of_range_numbers() {
    let r = parse_numbered_response("0. zero\n3. three\n1. one", 2);
    assert_eq!(r, vec![Some("one".to_string()), None]);
}

#[test]
fn numbered_response_fallback_for_single_request() {
    let r = parse_numbered_response("just a plain answer", 1);
    assert_eq!(r, vec![Some("just a plain answer".to_string())]);
    let blank = parse_numbered_response("   \n  ", 1);
    assert_eq!(blank, vec![None]);
    let no_fallback = parse_numbered_response("plain text", 2);
    assert_eq!(no_fallback, vec![None, None]);
}

#[test]
fn numbered_response_later_number_wins() {
    let r = parse_numbered_response("1. old\n1. new", 1);
    assert_eq!(r, vec![Some("new".to_string())]);
}

#[test]
fn numbered_response_skips_leading_noise() {
    let r = parse_numbered_response("noise before any number\n1. value", 1);
    assert_eq!(r, vec![Some("value".to_string())]);
}

#[test]
fn translator_constructors_carry_backend() {
    let t = Translator::new_deepl("key".to_string());
    assert!(matches!(t.backend, TranslatorBackend::DeepL { .. }));
    let t = Translator::new_local("http://localhost:5000".to_string(), "m".to_string());
    assert!(matches!(t.backend, TranslatorBackend::LocalLLM { .. }));
    let t = Translator::new_groq("key".to_string(), "m".to_string());
    assert!(matches!(t.backend, TranslatorBackend::Groq { .. }));
}

#[test]
fn deepl_free_keys_end_in_fx() {
    assert!(deepl_key_is_free(&"abc123:fx".to_string()));
    assert!(!deepl_key_is_free(&"abc123".to_string()));
    assert!(!deepl_key_is_free(&"fx".to_string()));
}

#[test]
fn token_budgets() {
    assert_eq!(completion_max_tokens(1), 64);
    assert_eq!(completion_max_tokens(15), 960);
    assert_eq!(completion_max_tokens(16), 1024);
    assert_eq!(completion_max_tokens(100), 1024);
    assert_eq!(chat_max_tokens(1), 128);
    assert_eq!(chat_max_tokens(15), 1920);
    assert_eq!(chat_max_tokens(16), 2048);
    assert_eq!(chat_max_tokens(40), 2048);
}
