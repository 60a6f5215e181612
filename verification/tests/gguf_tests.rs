use rust_llm::gguf::{dims_from_keys, metadata_key, parse_gguf, parse_gguf_mmap, tensor_name, GgufError, MetadataDims};
use rust_llm::gguf_vocab::tokenizer_from_gguf;

fn le32(v: u32) -> Vec<u8> {
    v.to_le_bytes().to_vec()
}

fn le64(v: u64) -> Vec<u8> {
    v.to_le_bytes().to_vec()
}

fn small_file() -> Vec<u8> {
    let mut b = b"GGUF".to_vec();
    b.extend(le32(3));
    b.extend(le64(1));
    b.extend(le64(1));
    // metadata: key "abc", string value "hi"
    b.extend(le32(3));
    b.extend(b"abc");
    b.extend(le32(8));
    b.extend(le64(2));
    b.extend(b"hi");
    assert_eq!(b.len(), 45);
    // tensor "t0", shape [2, 3], type 0, data at 83
    b.extend(le32(2));
    b.extend(b"t0");
    b.extend(le32(2));
    b.extend(le64(2));
    b.extend(le64(3));
    b.extend(le32(0));
    b.extend(le64(83));
    assert_eq!(b.len(), 83);
    b.extend(1u8..=10);
    b
}

#[test]
fn gguf_parses_header_metadata_and_tensors() {
    let f = parse_gguf(&small_file()).unwrap().unwrap();
    assert_eq!(f.version, 3);
    assert_eq!(f.metadata.len(), 1);
    assert_eq!(metadata_key(&f.metadata[0].0), "abc");
    assert_eq!(f.metadata[0].1, 8);
    assert_eq!(f.tensors.len(), 1);
    let t = &f.tensors[0];
    assert_eq!(tensor_name(t), "t0");
    assert_eq!(t.shape, vec![2, 3]);
    assert_eq!(t.dtype, 0);
    assert_eq!(t.offset, 83);
    // 24 bytes of f32 data; the file holds 10 of them, the rest reads as zeros
    let mut want: Vec<u8> = (1u8..=10).collect();
    want.extend(vec![0u8; 14]);
    assert_eq!(t.data, want);
}

#[test]
fn gguf_header_errors() {
    assert!(matches!(parse_gguf(b"GGU"), Some(Err(GgufError::Truncated))));
    assert!(matches!(parse_gguf(b"GGUX0000000000000000000000"), Some(Err(GgufError::NotGguf))));
    assert!(matches!(parse_gguf(b"GGUF0000"), Some(Err(GgufError::Truncated))));
}

#[test]
fn gguf_without_metadata_reads_descriptions_from_byte_52() {
    let mut b = b"GGUF".to_vec();
    b.extend(le32(2));
    b.extend(le64(5));
    b.extend(le64(0));
    b.extend(vec![0xAAu8; 28]);
    assert_eq!(b.len(), 52);
    b.extend(le32(1));
    b.extend(b"w");
    b.extend(le32(1));
    b.extend(le64(4));
    b.extend(le32(3));
    b.extend(le64(1000));
    let f = parse_gguf(&b).unwrap().unwrap();
    assert_eq!(f.metadata.len(), 0);
    assert_eq!(f.tensors.len(), 1);
    assert_eq!(f.tensors[0].shape, vec![4]);
    assert_eq!(f.tensors[0].dtype, 3);
    // offset past the end: zeros of the tensor's size
    assert_eq!(f.tensors[0].data, vec![0u8; 4]);
}

#[test]
fn gguf_tensor_size_overflow_is_refused() {
    let mut b = b"GGUF".to_vec();
    b.extend(le32(2));
    b.extend(le64(1));
    b.extend(le64(0));
    b.extend(vec![0u8; 28]);
    b.extend(le32(1));
    b.extend(b"w");
    b.extend(le32(2));
    b.extend(le64(u64::MAX));
    b.extend(le64(2));
    b.extend(le32(0));
    b.extend(le64(0));
    assert!(parse_gguf(&b).is_none());
}

#[test]
fn metadata_keys_give_model_dimensions() {
    let start = MetadataDims {
        hidden_size: 1,
        intermediate_size: 2,
        num_layers: 3,
        num_heads: 4,
        num_kv_heads: 5,
        max_seq_len: 6,
        head_dim: 0,
    };
    let keys = vec!["llama.hidden_size_4096".to_string(), "n_heads_32".to_string(), "general.name".to_string()];
    let d = dims_from_keys(start, &keys);
    assert_eq!(d.hidden_size, 4096);
    assert_eq!(d.num_heads, 32);
    assert_eq!(d.head_dim, 128);
    assert_eq!(d.num_layers, 3);
    assert_eq!(d.max_seq_len, 6);
}

fn mmap_file() -> Vec<u8> {
    // magic, version, then metadata from byte 8: key "ab" (size 2), value type 0 (four bytes)
    let mut b = b"GGUF".to_vec();
    b.extend(le32(3));
    b.push(2);
    b.extend(b"ab");
    b.extend(le32(0));
    b.extend(le32(77));
    // tensor count 2, alignment 32
    b.extend(le32(2));
    b.extend(le32(32));
    // tensor "w": one dimension of 4, type 3 (one byte a value), data at 100
    b.push(1);
    b.extend(b"w");
    b.extend(le32(1));
    b.extend(le64(4));
    b.extend(le32(3));
    b.extend(le64(100));
    // tensor "x": one dimension of 4, type 3, data at 1000 (outside the file)
    b.push(1);
    b.extend(b"x");
    b.extend(le32(1));
    b.extend(le64(4));
    b.extend(le32(3));
    b.extend(le64(1000));
    while b.len() < 100 {
        b.push(0);
    }
    b.extend([9u8, 8, 7, 6]);
    // the metadata count, in the last eight bytes
    b.extend(le64(1));
    b
}

#[test]
fn gguf_mmap_layout_keeps_tensors_inside_the_file() {
    let b = mmap_file();
    let f = parse_gguf_mmap(&b).unwrap().unwrap();
    assert_eq!(f.metadata.len(), 1);
    assert_eq!(metadata_key(&f.metadata[0].0), "ab");
    assert_eq!(f.metadata[0].1, 0);
    assert_eq!(f.tensors.len(), 1);
    assert_eq!(tensor_name(&f.tensors[0]), "w");
    assert_eq!(f.tensors[0].shape, vec![4]);
    assert_eq!(f.tensors[0].offset, 100);
    assert_eq!(f.tensors[0].data, vec![9, 8, 7, 6]);
}

#[test]
fn gguf_mmap_layout_errors() {
    assert!(parse_gguf_mmap(b"GG").is_none());
    assert!(matches!(parse_gguf_mmap(b"XXXX0000"), Some(Err(GgufError::NotGguf))));
    assert!(parse_gguf_mmap(b"GGUF00").is_none());
    // a metadata count of 0 leaves the counts at byte 8, past the end of a 12-byte file
    let mut b = b"GGUF".to_vec();
    b.extend(le64(0));
    assert!(matches!(parse_gguf_mmap(&b), Some(Err(GgufError::UnexpectedEnd))));
}

fn tokenizer_file(vocab: &[(&[u8], Option<f32>)], declared: u64) -> Vec<u8> {
    let mut b = b"GGUF".to_vec();
    b.extend(le32(3));
    // one metadata entry: key "k", value type 4 (string "v")
    b.push(1);
    b.extend(b"k");
    b.extend(le32(4));
    b.push(1);
    b.extend(b"v");
    // one tensor: "token_embd.weight", shape [declared, 2], type 0, offset filled in below
    b.extend(le32(1));
    b.extend(le32(32));
    let name = b"token_embd.weight";
    b.push(name.len() as u8);
    b.extend(name);
    b.extend(le32(2));
    b.extend(le64(declared));
    b.extend(le64(2));
    b.extend(le32(0));
    let off_at = b.len();
    b.extend(le64(0));
    let vocab_at = b.len() as u64;
    b[off_at..off_at + 8].copy_from_slice(&vocab_at.to_le_bytes());
    for (tok, score) in vocab {
        b.push(tok.len() as u8);
        b.extend(*tok);
        match score {
            Some(s) => {
                b.push(4);
                b.extend(s.to_le_bytes());
            }
            None => b.push(0),
        }
    }
    b.push(0);
    // the metadata count, in the last eight bytes
    b.extend(le64(1));
    b
}

#[test]
fn gguf_tokenizer_reads_the_vocabulary_at_the_embedding() {
    let b = tokenizer_file(&[(b"hi", Some(1.5)), (b"yo", None)], 4);
    let t = tokenizer_from_gguf(&b).unwrap().unwrap();
    assert_eq!(t.vocab_size, 4);
    assert_eq!(t.vocab_len(), 4);
    assert_eq!(t.decode_token(0), Some("hi"));
    assert_eq!(t.decode_token(1), Some("yo"));
    assert_eq!(t.decode_token(2), Some("tok_2"));
    assert_eq!(t.decode_token(3), Some("tok_3"));
    assert_eq!(t.token_score_bits(0), 1.5f32.to_bits());
    assert_eq!(t.token_score_bits(1), 0);
}

#[test]
fn gguf_tokenizer_errors() {
    assert!(matches!(tokenizer_from_gguf(b"GG"), Some(Err(GgufError::Truncated))));
    assert!(matches!(tokenizer_from_gguf(b"NOPE"), Some(Err(GgufError::NotGguf))));
    assert!(matches!(tokenizer_from_gguf(b"GGUF00"), Some(Err(GgufError::Truncated))));
    // a metadata count of 5 with nothing to read
    let mut b = b"GGUF".to_vec();
    b.extend(le64(5));
    assert!(matches!(tokenizer_from_gguf(&b), Some(Err(GgufError::UnexpectedEnd))));
}
