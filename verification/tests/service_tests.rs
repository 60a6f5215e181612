use rust_llm::advanced_scheduler::{
    adapt_batch_size, plan_batch, record_latency, InferenceRequest2, RequestPhase,
};
use rust_llm::inference::SequenceState;
use rust_llm::paged_attention::{DynamicBatcher, InferenceRequest};
use rust_llm::profiler::{average_allocated, MemorySample};
use rust_llm::server::{
    chat_chunk, chat_prompt, chat_response, completion_response, estimate_usage, model_list,
    ChatMessage,
};

fn req(id: i32, prompt: Vec<i32>, max_tokens: usize) -> InferenceRequest {
    InferenceRequest { seq_id: id, prompt_tokens: prompt, max_tokens, temperature: 1.0f32.to_bits(), top_p: 0.9f32.to_bits() }
}

#[test]
fn batcher_starts_oldest_requests_first() {
    let mut b = DynamicBatcher::new(2, 5);
    assert!(b.get_batch().is_empty());
    b.add_request(req(1, vec![5, 6], 1));
    b.add_request(req(2, vec![7], 2));
    b.add_request(req(3, vec![8], 2));
    assert!(b.has_pending());
    let batch = b.get_batch();
    assert_eq!(batch.iter().map(|r| r.seq_id).collect::<Vec<_>>(), vec![1, 2]);
    assert_eq!(b.num_running(), 2);
    // request 1 is done after one generated token (2 prompt + 1)
    b.mark_completed(1, 42);
    assert_eq!(b.num_running(), 1);
    b.mark_completed(2, 1);
    assert_eq!(b.num_running(), 1);
    b.mark_completed(2, 1);
    assert_eq!(b.num_running(), 0);
    b.mark_completed(9, 1);
    assert_eq!(b.get_batch().iter().map(|r| r.seq_id).collect::<Vec<_>>(), vec![3]);
    assert!(b.has_pending());
}

#[test]
fn batch_plan_prompts_first() {
    assert_eq!(plan_batch(5, 5, 8, 3, true), (3, 5));
    assert_eq!(plan_batch(5, 5, 4, 3, true), (3, 1));
    assert_eq!(plan_batch(5, 5, 8, 3, false), (3, 0));
    assert_eq!(plan_batch(1, 0, 8, 3, true), (1, 0));
    assert_eq!(plan_batch(9, 9, 2, 3, true), (3, 0));
}

#[test]
fn request_steps_through_phases() {
    let mut r = InferenceRequest2::new("r".to_string(), vec![4, 5], 2);
    assert_eq!(r.temperature, 1.0f32.to_bits());
    assert_eq!(r.top_p, 0.9f32.to_bits());
    assert!(r.complete_step());
    assert_eq!(r.phase, RequestPhase::Decode);
    assert_eq!(r.prompt_len, 2);
    assert!(r.complete_step());
    assert_eq!(r.generated_len, 1);
    assert!(!r.complete_step());
    assert!(r.is_complete);
    let mut z = InferenceRequest2::new("z".to_string(), vec![0], 10).with_priority(3);
    assert_eq!(z.priority, 3);
    z.complete_step();
    assert!(!z.complete_step());
    let s = InferenceRequest2::new("s".to_string(), vec![], 1).with_sampling(7, 8);
    assert_eq!((s.temperature, s.top_p), (7, 8));
}

#[test]
fn adaptive_batch_size_rules() {
    assert_eq!(adapt_batch_size(&[], 100, 4), 4);
    assert_eq!(adapt_batch_size(&[150, 250], 100, 4), 3);
    assert_eq!(adapt_batch_size(&[150], 100, 1), 1);
    assert_eq!(adapt_batch_size(&[10, 20], 100, 4), 5);
    assert_eq!(adapt_batch_size(&[10], 100, 128), 128);
    assert_eq!(adapt_batch_size(&[60], 100, 4), 4);
    let mut h: Vec<u64> = (0..100).collect();
    record_latency(&mut h, 500);
    assert_eq!(h.len(), 100);
    assert_eq!(h[0], 1);
    assert_eq!(h[99], 500);
}

#[test]
fn sequence_state_finishes() {
    let mut s = SequenceState {
        seq_id: 1,
        tokens: vec![3],
        position: 1,
        finished: false,
        generated_tokens: 0,
        max_tokens: 2,
        temperature: 0,
        top_p: 0,
    };
    assert!(s.can_step());
    s.record_token(9);
    assert!(!s.finished);
    s.record_token(9);
    assert!(s.finished);
    assert!(!s.can_step());
    assert_eq!(s.tokens, vec![3, 9, 9]);
    let mut t = SequenceState { finished: false, generated_tokens: 0, max_tokens: 5, ..s.clone() };
    t.record_token(0);
    assert!(t.finished);
}

#[test]
fn average_memory() {
    assert_eq!(average_allocated(&[]), 0);
    let samples = [
        MemorySample { timestamp_ms: 0, allocated_bytes: 10, cached_bytes: 0 },
        MemorySample { timestamp_ms: 1, allocated_bytes: 21, cached_bytes: 0 },
    ];
    assert_eq!(average_allocated(&samples), 15);
}

#[test]
fn chat_prompt_and_responses() {
    let msgs = vec![
        ChatMessage { role: "system".to_string(), content: "be brief".to_string() },
        ChatMessage { role: "user".to_string(), content: "hi".to_string() },
    ];
    let prompt = chat_prompt(&msgs);
    assert_eq!(prompt, "system: be brief\nuser: hi");
    assert_eq!(chat_prompt(&[]), "");
    let u = estimate_usage("abcdefgh");
    assert_eq!((u.prompt_tokens, u.completion_tokens, u.total_tokens), (2, 0, 2));
    assert_eq!(estimate_usage("abc").prompt_tokens, 0);
    let r = chat_response("id1".to_string(), 5, "m".to_string(), "out".to_string(), &prompt);
    assert_eq!(r.object, "chat.completion");
    assert_eq!(r.choices[0].message.role, "assistant");
    assert_eq!(r.choices[0].message.content, "out");
    assert_eq!(r.usage.total_tokens, 6);
    let c = completion_response("id2".to_string(), 6, "m".to_string(), "t".to_string(), "abcd");
    assert_eq!(c.object, "text_completion");
    assert_eq!(c.choices[0].text, "t");
    assert_eq!(c.usage.prompt_tokens, 1);
    let l = model_list();
    assert_eq!(l.object, "list");
    assert_eq!(l.data[0].id, "rust-llm");
    let k = chat_chunk("i".to_string(), 1, "m".to_string(), "tok".to_string(), false);
    assert_eq!(k.choices[0].delta.content.as_deref(), Some("tok"));
    assert!(k.choices[0].finish_reason.is_none());
    let last = chat_chunk("i".to_string(), 1, "m".to_string(), "tok".to_string(), true);
    assert_eq!(last.choices[0].delta.content.as_deref(), Some(""));
    assert_eq!(last.choices[0].finish_reason.as_deref(), Some("stop"));
}
