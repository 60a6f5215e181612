use rust_llm::benchmarks::summarize;
use rust_llm::cli::{
    chat_after_input, chat_after_token, chat_prompt_text, classify_chat_input, display_text, token_to_fallback_text,
    ChatAction, ChatInput, GenStep, CHAT_MAX_STEPS,
};
use rust_llm::safetensors::{read_lora_header, safetensors_header_size};
use rust_llm::utils::{align_up, div_up, round_up, MemoryPool};

#[test]
fn chat_lines_are_classified_after_trimming() {
    assert_eq!(classify_chat_input("   \n"), ChatInput::Blank);
    assert_eq!(classify_chat_input(" quit\n"), ChatInput::Quit);
    assert_eq!(classify_chat_input("exit"), ChatInput::Quit);
    assert_eq!(classify_chat_input("clear\r\n"), ChatInput::Clear);
    assert_eq!(classify_chat_input("help"), ChatInput::Help);
    assert_eq!(classify_chat_input("quit now"), ChatInput::Prompt);
    assert_eq!(classify_chat_input("Quit"), ChatInput::Prompt);
    assert_eq!(chat_prompt_text("  hello there \n"), "hello there");
}

#[test]
fn chat_inputs_update_the_history() {
    let mut h = vec![1, 2];
    assert_eq!(chat_after_input(&mut h, ChatInput::Prompt, &[7, 8]), ChatAction::Generate);
    assert_eq!(h, vec![1, 2, 7, 8]);
    assert_eq!(chat_after_input(&mut h, ChatInput::Help, &[9]), ChatAction::ShowHelp);
    assert_eq!(chat_after_input(&mut h, ChatInput::Blank, &[9]), ChatAction::Next);
    assert_eq!(h, vec![1, 2, 7, 8]);
    assert_eq!(chat_after_input(&mut h, ChatInput::Clear, &[9]), ChatAction::Cleared);
    assert!(h.is_empty());
    assert_eq!(chat_after_input(&mut h, ChatInput::Quit, &[9]), ChatAction::Stop);
    assert!(h.is_empty());
}

#[test]
fn chat_replies_stop_on_non_positive_tokens_or_the_step_limit() {
    let mut h = vec![3];
    assert_eq!(chat_after_token(&mut h, 0, 5), GenStep::Emit);
    assert_eq!(h, vec![3, 5]);
    assert_eq!(chat_after_token(&mut h, 1, 0), GenStep::Stop);
    assert_eq!(chat_after_token(&mut h, 2, -4), GenStep::Stop);
    assert_eq!(h, vec![3, 5]);
    assert_eq!(CHAT_MAX_STEPS, 512);
    assert_eq!(chat_after_token(&mut h, 510, 6), GenStep::Emit);
    assert_eq!(chat_after_token(&mut h, 511, 7), GenStep::EmitAndStop);
    assert_eq!(h, vec![3, 5, 6, 7]);
}

#[test]
fn displayed_token_text_falls_back_on_odd_vocabulary() {
    assert_eq!(display_text(Some("hello"), 3), "hello");
    assert_eq!(display_text(Some("<s>"), 3), token_to_fallback_text(3));
    assert_eq!(display_text(Some(""), 4), token_to_fallback_text(4));
    assert_eq!(display_text(Some("abcdefghijk"), 5), token_to_fallback_text(5));
    assert_eq!(display_text(Some("abcdefghij"), 5), "abcdefghij");
    assert_eq!(display_text(None, 6), token_to_fallback_text(6));
}

#[test]
fn safetensors_header_size_is_little_endian() {
    assert_eq!(safetensors_header_size(&[16, 0, 0, 0, 0, 0, 0, 0]), 16);
    assert_eq!(safetensors_header_size(&[0, 1, 0, 0, 0, 0, 0, 0]), 256);
    assert_eq!(safetensors_header_size(&[1, 2, 3, 4, 5, 6, 7, 8]), 0x0807060504030201);
}

#[test]
fn lora_header_plans_two_dimensional_weights() {
    let text = r#"{"b_lora_x":{"shape":[4],"data_offsets":[24,40]},"layer.weight":{"dtype":"F32","shape":[2,3],"data_offsets":[0,24]},"other":{"shape":[1,1]},"up.weight.weight":{"shape":[1,2],"data_offsets":[40,48]}}"#;
    let n = text.len();
    let plans = read_lora_header(text.as_bytes().to_vec(), n).unwrap().unwrap();
    assert_eq!(plans.len(), 2);
    assert_eq!(plans[0].module_name, "layer");
    assert_eq!(plans[0].offset, n + 8);
    assert_eq!(plans[0].byte_len, 24);
    assert_eq!(plans[0].n_elements, 6);
    assert_eq!((plans[0].rank, plans[0].in_dim), (2, 3));
    assert_eq!(plans[1].module_name, "up");
    assert_eq!(plans[1].offset, 40 + n + 8);
    assert_eq!(plans[1].n_elements, 2);
}

#[test]
fn lora_header_errors() {
    let bad = r#"{"x.weight": 5}"#;
    match read_lora_header(bad.as_bytes().to_vec(), bad.len()) {
        Some(Err(e)) => assert_eq!(e, "Invalid tensor info"),
        _ => panic!("expected an invalid tensor error"),
    }
    let reversed = r#"{"x.weight":{"shape":[1,1],"data_offsets":[8,4]}}"#;
    assert!(read_lora_header(reversed.as_bytes().to_vec(), reversed.len()).is_none());
    match read_lora_header(b"not json".to_vec(), 8) {
        Some(Err(e)) => assert!(e.starts_with("Failed to parse JSON header")),
        _ => panic!("expected a parse error"),
    }
    match read_lora_header(vec![0xff, 0xfe], 2) {
        Some(Err(e)) => assert!(e.starts_with("Invalid UTF-8 in header")),
        _ => panic!("expected a UTF-8 error"),
    }
    // a header that is not an object plans nothing
    assert_eq!(read_lora_header(b"[1,2]".to_vec(), 5).unwrap().unwrap().len(), 0);
}

#[test]
fn rounding_accepts_the_last_representable_bound() {
    assert_eq!(div_up(usize::MAX, 1), usize::MAX);
    assert_eq!(round_up(usize::MAX - 1, 2), usize::MAX - 1);
    assert_eq!(align_up(usize::MAX - 7, 8), usize::MAX - 7);
    let mut pool = MemoryPool::new(100);
    assert_eq!(pool.allocate(10, 16), Some(0));
    assert_eq!(pool.allocate(20, 16), Some(16));
    assert_eq!(pool.available(), 100 - 16 - 32);
    pool.reset();
    assert_eq!(pool.available(), 100);
    assert_eq!(pool.allocate(10, 16), Some(0));
}

#[test]
fn durations_are_summarized() {
    assert!(summarize(&[]).is_none());
    let s = summarize(&[30, 10, 20, 40]).unwrap();
    assert_eq!(s.total, 100);
    assert_eq!(s.mean, 25);
    assert_eq!(s.median, 30);
    assert_eq!(s.min, 10);
    assert_eq!(s.max, 40);
    let t = summarize(&[5, 1, 3]).unwrap();
    assert_eq!((t.total, t.mean, t.median, t.min, t.max), (9, 3, 3, 1, 5));
    let u = summarize(&[u64::MAX, u64::MAX]).unwrap();
    assert_eq!(u.total, 2 * (u64::MAX as u128));
}
