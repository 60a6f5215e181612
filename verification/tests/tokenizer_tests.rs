use rust_llm::tokenizer::Tokenizer;

fn vocab(words: &[&str]) -> Tokenizer {
    let mut t = Tokenizer::new();
    let toks: Vec<String> = words.iter().map(|w| w.to_string()).collect();
    let scores = vec![0u32; toks.len()];
    t.set_vocabulary(toks, scores);
    t
}

#[test]
fn encode_without_vocabulary_uses_bytes() {
    let t = Tokenizer::new();
    assert_eq!(t.encode("ab", None, None), vec![1, 97, 98]);
    assert_eq!(t.encode("ab", Some(false), Some(true)), vec![97, 98, 2]);
    assert_eq!(t.encode("", Some(true), Some(true)), vec![1, 2]);
}

#[test]
fn encode_takes_longest_match() {
    let t = vocab(&["<unk>", "a", "ab", "abc", "b"]);
    assert_eq!(t.encode("abcab", Some(false), Some(false)), vec![3, 2]);
    // 'x' is not in the vocabulary: the unknown token, one byte
    assert_eq!(t.encode("xb", Some(false), Some(false)), vec![0, 4]);
}

#[test]
fn encode_prefers_last_duplicate_entry() {
    let t = vocab(&["a", "a"]);
    assert_eq!(t.encode("a", Some(false), Some(false)), vec![1]);
}

#[test]
fn decode_stops_at_end_token() {
    let t = vocab(&["<unk>", "<s>", "</s>", "he", "llo"]);
    assert_eq!(t.decode(&[3, 4]), "hello");
    assert_eq!(t.decode(&[3, 2, 4]), "he");
    assert_eq!(t.decode(&[3, 99, -1, 4]), "hello");
    assert_eq!(t.decode_token(4), Some("llo"));
    assert_eq!(t.decode_token(5), None);
    assert_eq!(t.decode_token(-3), None);
}

#[test]
fn encode_then_decode_round_trip() {
    let t = vocab(&["<unk>", "<s>", "</s>", "he", "llo", " ", "world"]);
    let ids = t.encode("hello world", Some(true), Some(true));
    assert_eq!(ids, vec![1, 3, 4, 5, 6, 2]);
    assert_eq!(t.decode(&ids[1..]), "hello world");
}

#[test]
fn basic_vocabulary_layout() {
    let mut t = Tokenizer::new();
    t.vocab_size = 120;
    t.generate_basic_vocab();
    assert_eq!(t.decode_token(0), Some("<unk>"));
    assert_eq!(t.decode_token(1), Some("<s>"));
    assert_eq!(t.decode_token(2), Some("</s>"));
    assert_eq!(t.decode_token(3), Some(" "));
    assert_eq!(t.decode_token(4), Some("\n"));
    assert_eq!(t.decode_token(100), Some("Z"));
    // 98 common characters follow, then the specials not yet present
    assert_eq!(t.decode_token(101), Some("<pad>"));
    assert_eq!(t.decode_token(102), Some("<bos>"));
    assert_eq!(t.decode_token(103), Some("<eos>"));
    assert_eq!(t.decode_token(104), Some("<mask>"));
    assert_eq!(t.decode_token(105), Some("<|im_start|>"));
    assert_eq!(t.decode_token(107), Some("<|endoftext|>"));
    assert_eq!(t.decode_token(108), Some("tok00108"));
    assert_eq!(t.decode_token(119), Some("tok00119"));
    assert_eq!(t.decode_token(120), None);
    assert_eq!(t.token_score_bits(5), 0);
}

#[test]
fn small_basic_vocabulary_keeps_three_entries() {
    let mut t = Tokenizer::new();
    t.vocab_size = 2;
    t.generate_basic_vocab();
    assert_eq!(t.decode_token(2), Some("</s>"));
    assert_eq!(t.decode_token(3), None);
}

#[test]
fn pad_vocabulary_numbers_entries() {
    let mut t = vocab(&["a"]);
    t.pad_vocabulary(3);
    assert_eq!(t.decode_token(1), Some("tok_1"));
    assert_eq!(t.decode_token(2), Some("tok_2"));
    assert_eq!(t.decode_token(3), None);
}
