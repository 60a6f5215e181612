use rust_llm::batch::{Batch, BatchManager, Sequence};

#[test]
fn batch_add_sequence_positions_and_logits() {
    let mut b = Batch::new(8);
    b.add_sequence(7, &[10, 11, 12], 5, true);
    assert_eq!(b.n_tokens, 3);
    assert_eq!(b.tokens, vec![10, 11, 12]);
    assert_eq!(b.positions, vec![5, 6, 7]);
    assert_eq!(b.seq_ids, vec![vec![7], vec![7], vec![7]]);
    assert_eq!(b.logits, vec![false, false, true]);
    b.add_sequence(8, &[20], 0, false);
    assert_eq!(b.logits, vec![false, false, true, false]);
}

#[test]
fn batch_tokens_by_sequence_and_count() {
    let mut b = Batch::new(4);
    b.add_token(1, 0, 3, false);
    b.add_token(2, 0, 4, true);
    b.add_token(5, 1, 3, true);
    assert_eq!(b.get_sequence_tokens(3), vec![1, 5]);
    assert_eq!(b.get_sequence_tokens(9), Vec::<i32>::new());
    assert_eq!(b.num_sequences(), 2);
    b.clear();
    assert_eq!(b.n_tokens, 0);
    assert!(b.tokens.is_empty());
    assert_eq!(b.num_sequences(), 0);
}

#[test]
fn sequence_append() {
    let mut s = Sequence::new(3);
    assert!(s.is_empty());
    s.append(42);
    s.append(43);
    assert_eq!(s.len(), 2);
    assert_eq!(s.last_token, 43);
    assert_eq!(s.position, 2);
    assert!(!s.finished);
}

#[test]
fn batch_manager_step() {
    let mut m = BatchManager::new(2, 3);
    let mut a = Sequence::new(1);
    a.append(100);
    let b = Sequence::new(2);
    let c = Sequence::new(3);
    assert_eq!(m.add_sequence(a), 1);
    m.add_sequence(b);
    m.add_sequence(c);
    assert_eq!(m.num_active_sequences(), 3);
    {
        let batch = m.prepare_batch();
        // only the first two queued ids fit
        assert_eq!(batch.tokens, vec![100, 0]);
        assert_eq!(batch.positions, vec![1, 0]);
        assert_eq!(batch.seq_ids, vec![vec![1], vec![2]]);
        assert_eq!(batch.logits, vec![true, true]);
    }
    m.update_after_inference(&[7, 8]);
    assert_eq!(m.get_sequence(1).unwrap().tokens, vec![100, 7]);
    assert_eq!(m.get_sequence(2).unwrap().tokens, vec![8]);
    assert_eq!(m.get_sequence(3).unwrap().tokens, Vec::<i32>::new());
    // sequence 1 reached position 2, still below 3
    let batch = m.prepare_batch();
    assert_eq!(batch.tokens, vec![7, 8]);
}

#[test]
fn batch_manager_drops_finished_and_long_sequences() {
    let mut m = BatchManager::new(4, 1);
    let s = Sequence::new(5);
    m.add_sequence(s);
    m.prepare_batch();
    m.update_after_inference(&[9]);
    // position 1 is not below the limit 1: nothing left to schedule
    assert!(m.prepare_batch().tokens.is_empty());
    if let Some(seq) = m.get_sequence_mut(5) {
        seq.finished = true;
    }
    assert!(m.get_sequence(5).unwrap().finished);
    assert!(m.remove_sequence(5).is_some());
    assert!(m.remove_sequence(5).is_none());
    assert!(m.is_empty());
    assert_eq!(m.max_seq_len(), 1);
}
