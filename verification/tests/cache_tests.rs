use rust_llm::cpu_kv::{CpuKvCache, KVCacheEntry};
use rust_llm::kv_offload::{swap_kv_async, KvOffloadManager};
use rust_llm::moe::TensorParallelism;
use rust_llm::paged_attention::{Page, PagedAttentionCache, PAGE_SIZE};
use rust_llm::prompt_cache::{ChunkedPrefill, PromptCache, SplitFuse};

#[test]
fn paged_cache_hands_out_pages_from_the_end() {
    let mut c: PagedAttentionCache<i32> = PagedAttentionCache::new(1, 2, 64, 4, 0);
    assert_eq!(c.num_free_pages(), 4);
    assert_eq!(c.get_kv_cache_size(), 0);
    // 17 tokens need two pages of 16
    let pages = c.allocate_pages(17);
    assert_eq!(pages, vec![3, 2]);
    assert_eq!(c.num_free_pages(), 2);
    // pages up to index 3 now exist: 4 pages of 1 * 2 * 16 values, keys and values
    assert_eq!(c.get_kv_cache_size(), 4 * 32 * 2);
    // more than is free: what there is
    assert_eq!(c.allocate_pages(100), vec![1, 0]);
    assert_eq!(c.num_free_pages(), 0);
    assert!(c.allocate_pages(1).is_empty());
    assert!(c.allocate_pages(0).is_empty());
}

#[test]
fn paged_cache_write_read_free() {
    // one head of one value per token; a page holds 16 tokens: 16 values, keys then values
    let mut c: PagedAttentionCache<i32> = PagedAttentionCache::new(1, 1, 64, 2, -1);
    let pages = c.allocate_pages(16);
    assert_eq!(pages, vec![1]);
    assert_eq!(c.allocate_pages(16), vec![0]);
    assert!(c.read_kv(7, 1).is_none());
    c.write_kv(7, &[0], &[10, 20], &[30, 40]);
    // keys sit in the first half of page 0, values in the second
    let (rk, rv) = c.read_kv(7, 2).unwrap();
    assert_eq!(rk, vec![10, 20]);
    assert_eq!(rv, vec![30, 40]);
    // tokens never written read as the fill value
    let (rk3, rv3) = c.read_kv(7, 3).unwrap();
    assert_eq!(rk3, vec![10, 20, -1]);
    assert_eq!(rv3, vec![30, 40, -1]);
    // pages are returned to the free list on free
    assert_eq!(c.num_free_pages(), 0);
    c.free_sequence(7);
    assert_eq!(c.num_free_pages(), 1);
    assert!(c.read_kv(7, 1).is_none());
    assert_eq!(c.allocate_pages(1), vec![0]);
    // freeing an unknown sequence changes nothing
    c.free_sequence(99);
    assert_eq!(c.num_free_pages(), 0);
}

#[test]
fn paged_cache_stores_one_value_per_head_and_token() {
    // with two values per head, a write stores the first value of each head's run
    let mut c: PagedAttentionCache<i32> = PagedAttentionCache::new(1, 2, 64, 1, -1);
    assert_eq!(c.allocate_pages(1), vec![0]);
    c.write_kv(1, &[0], &[10, 11, 20, 21], &[30, 31, 40, 41]);
    let (rk, rv) = c.read_kv(1, 2).unwrap();
    assert_eq!(rk, vec![10, -1, 20, -1]);
    assert_eq!(rv, vec![30, -1, 40, -1]);
}

#[test]
fn paged_cache_page_offsets_include_the_page_index() {
    // a block written to page 1 lands past the end of that page's own storage
    let mut c: PagedAttentionCache<i32> = PagedAttentionCache::new(1, 1, 64, 2, 0);
    c.allocate_pages(32);
    c.write_kv(3, &[1], &[5, 6], &[7, 8]);
    let (k, v) = c.read_kv(3, 2).unwrap();
    assert_eq!(k, vec![0, 0]);
    assert_eq!(v, vec![0, 0]);
    assert_eq!(PAGE_SIZE, 16);
    let p = Page::new(3, 9u8);
    assert_eq!(p.len(), 3);
    assert_eq!(p.data, vec![9, 9, 9]);
    assert!(!p.is_full);
}

#[test]
fn kv_entry_update_get_clear() {
    let mut e = KVCacheEntry::new(4, 1, 2, 0i32);
    assert_eq!(e.k_cache.len(), 8);
    e.update_k(&[1, 2, 3], 1, 1, 2);
    assert_eq!(e.k_cache, vec![0, 0, 1, 2, 3, 0, 0, 0]);
    assert_eq!(e.position, 1);
    // only what fits is written
    e.update_v(&[7, 8, 9, 10], 3, 1, 2);
    assert_eq!(e.v_cache, vec![0, 0, 0, 0, 0, 0, 7, 8]);
    // nothing fits past the end: nothing changes
    e.update_k(&[5], 4, 1, 2);
    assert_eq!(e.position, 1);
    assert_eq!(e.get_k(1, 2, 1, 2), vec![1, 2, 3, 0]);
    assert_eq!(e.get_v(3, 1, 1, 2), vec![7, 8]);
    assert!(e.get_k(3, 2, 1, 2).is_empty());
    e.clear();
    assert_eq!(e.k_cache, vec![0; 8]);
    assert_eq!(e.v_cache, vec![0; 8]);
    assert_eq!(e.position, 0);
}

#[test]
fn cpu_cache_registration_slots() {
    // two layers, three slots per layer
    let mut c: CpuKvCache<i32> = CpuKvCache::new(2, 1, 1, 4, 3, 0);
    assert_eq!(c.register_sequence(10), Some(0));
    assert_eq!(c.register_sequence(10), Some(0));
    // the second sequence gets slot 1 in the first layer and 2 in the second
    assert_eq!(c.register_sequence(11), Some(1));
    // a third one gets slot 2 in the first layer but finds no room in the second
    assert_eq!(c.register_sequence(12), None);
    // it keeps the slot it got
    assert_eq!(c.register_sequence(12), Some(2));
    // no room at all
    assert_eq!(c.register_sequence(13), None);
    assert_eq!(c.memory_usage(), 4 * 2 * 4 * 2 * 3);
}

#[test]
fn cpu_cache_update_and_unregister() {
    let mut c: CpuKvCache<i32> = CpuKvCache::new(2, 1, 2, 4, 2, 0);
    assert_eq!(c.register_sequence(5), Some(0));
    c.update_k(0, 5, &[1, 2], 0);
    c.update_v(1, 5, &[3, 4], 1);
    assert_eq!(c.get_k(0, 5, 0, 1), vec![1, 2]);
    // the sequence holds slot 1 in the second layer
    assert_eq!(c.get_v(1, 5, 1, 1), vec![3, 4]);
    // unknown sequences and layers read nothing
    assert!(c.get_k(0, 6, 0, 1).is_empty());
    assert!(c.get_k(2, 5, 0, 1).is_empty());
    c.unregister_sequence(5);
    assert!(c.get_k(0, 5, 0, 1).is_empty());
    // its slots were emptied
    assert_eq!(c.register_sequence(6), Some(0));
    assert_eq!(c.get_k(0, 6, 0, 1), vec![0, 0]);
}

#[test]
fn offload_manager_plans_the_accelerator_copy() {
    // 2 layers * 1 sequence * (1 head * 2 values * 4 tokens * 2 * 4 bytes) = 128 bytes
    let mut m: KvOffloadManager<i32> = KvOffloadManager::new(2, 1, 2, 4, 1, 128, 0);
    assert!(m.is_layer_on_gpu(0));
    assert!(m.is_layer_on_gpu(1));
    assert!(!m.is_layer_on_gpu(2));
    assert_eq!(m.memory_usage(), 64 * 2 + 128);
    m.swap_layer_to_cpu(1);
    assert!(!m.is_layer_on_gpu(1));
    m.swap_layer_to_gpu(1);
    assert!(m.is_layer_on_gpu(1));
    // one slot per layer: the sequence gets slot 0 in the first layer and none in the second
    assert_eq!(m.register_sequence(1), None);
    m.update_k(0, 1, &[4, 5], 0);
    // reads come from the host cache
    assert_eq!(m.get_k(0, 1, 0, 1), vec![4, 5]);
    m.update_v(0, 1, &[6, 7], 0);
    assert_eq!(m.get_v(0, 1, 0, 1), vec![6, 7]);
    m.unregister_sequence(1);
    assert!(m.get_k(0, 1, 0, 1).is_empty());

    let mut small: KvOffloadManager<i32> = KvOffloadManager::new(2, 1, 2, 4, 1, 127, 0);
    assert!(!small.is_layer_on_gpu(0));
    small.swap_layer_to_gpu(0);
    assert!(!small.is_layer_on_gpu(0));
    assert_eq!(small.memory_usage(), 64 * 2);
}

#[test]
fn swap_kv_copies_what_fits() {
    let mut dst = [0u8; 3];
    swap_kv_async(&[1, 2, 3, 4], &mut dst, 10);
    assert_eq!(dst, [1, 2, 3]);
    let mut dst2 = [9u8; 4];
    swap_kv_async(&[1, 2, 3, 4], &mut dst2, 2);
    assert_eq!(dst2, [1, 2, 9, 9]);
}

#[test]
fn prompt_cache_insert_get_stats() {
    let mut c: PromptCache<u8> = PromptCache::new(2);
    assert!(c.get(1).is_none());
    c.insert(1, vec![10, 11], vec![1, 2]);
    let got = c.get(1).unwrap();
    assert_eq!(got.prompt_hash, 1);
    assert_eq!(got.tokens, vec![10, 11]);
    assert_eq!(got.kv_cache, vec![1, 2]);
    assert_eq!(got.use_count, 2);
    // the kept prompt itself is not updated by a read
    assert_eq!(c.get(1).unwrap().use_count, 2);
    c.insert(2, vec![20], vec![]);
    let s = c.stats();
    assert_eq!(s.num_cached, 2);
    assert_eq!(s.total_uses, 2);
    assert_eq!(s.max_size, 2);
    // a third prompt replaces one of the others
    c.insert(3, vec![30], vec![]);
    assert_eq!(c.stats().num_cached, 2);
    assert!(c.get(3).is_some());
    c.invalidate(3);
    assert!(c.get(3).is_none());
    c.clear();
    assert_eq!(c.stats().num_cached, 0);
}

#[test]
fn prompt_hash_is_deterministic() {
    let a = PromptCache::<u8>::hash_prompt("hello");
    let b = PromptCache::<u8>::hash_prompt("hello");
    let c = PromptCache::<u8>::hash_prompt("hellp");
    assert_eq!(a, b);
    assert_ne!(a, c);
}

#[test]
fn chunked_prefill_returns_last_chunk_result() {
    let p: ChunkedPrefill<u8> = ChunkedPrefill::new(2, 4);
    let tokens = [1, 2, 3, 4, 5];
    let out = p.process_prompt(&tokens, |c: &[i32]| c.to_vec());
    assert_eq!(out, vec![5]);
    let single = p.process_prompt(&tokens[..2], |c: &[i32]| c.to_vec());
    assert_eq!(single, vec![1, 2]);
    let none: Vec<i32> = p.process_prompt(&[], |c: &[i32]| c.to_vec());
    assert!(none.is_empty());
    assert_eq!(p.get_cache().stats().max_size, 4);
}

#[test]
fn split_fuse_processes_when_a_slot_is_free() {
    let mut s = SplitFuse::new(1);
    let r = s.process_prompt(vec![1, 2, 3], |c: &[i32]| vec![c.len()]);
    assert_eq!(r, Some(vec![3]));
    assert!(s.can_accept());
    assert!(s.acquire_slot());
    assert_eq!(s.process_prompt(vec![1], |c: &[i32]| vec![c.len()]), None);
}

#[test]
fn tensor_parallel_gather_and_scatter() {
    let tp = TensorParallelism::new(3, 1);
    assert_eq!(tp.all_gather(&[1, 2]), vec![1, 2, 1, 2, 1, 2]);
    assert!(tp.all_gather::<u8>(&[]).is_empty());
    // 7 values over 3 devices: chunks of 2; rank 1 holds values 2..4
    assert_eq!(tp.reduce_scatter(&[0, 1, 2, 3, 4, 5, 6], 0), vec![2, 3]);
    // the last rank's shard takes the remainder; its chunk is 4..6, the rest is fill
    let last = TensorParallelism::new(3, 2);
    assert_eq!(last.reduce_scatter(&[0, 1, 2, 3, 4, 5, 6], -1), vec![4, 5, -1]);
}

#[test]
fn paged_cache_reads_back_half_a_page_of_two_heads() {
    let mut c: PagedAttentionCache<i32> = PagedAttentionCache::new(2, 1, 64, 1, 0);
    assert_eq!(c.allocate_pages(8), vec![0]);
    let k: Vec<i32> = (1..=16).collect();
    let v: Vec<i32> = (101..=116).collect();
    c.write_kv(5, &[0], &k, &v);
    let (rk, rv) = c.read_kv(5, 8).unwrap();
    assert_eq!(rk, k);
    assert_eq!(rv, v);
    let (rk5, rv5) = c.read_kv(5, 5).unwrap();
    assert_eq!(rk5, k[..10].to_vec());
    assert_eq!(rv5, v[..10].to_vec());
}

#[test]
fn paged_cache_reads_back_a_page_of_keys() {
    let mut c: PagedAttentionCache<i32> = PagedAttentionCache::new(1, 1, 64, 1, 0);
    assert_eq!(c.allocate_pages(16), vec![0]);
    let k: Vec<i32> = (1..=16).collect();
    let v: Vec<i32> = (101..=116).collect();
    c.write_kv(9, &[0], &k, &v);
    let (rk, rv) = c.read_kv(9, 16).unwrap();
    assert_eq!(rk, k);
    // the keys of tokens 8 to 15 took the places of the values of tokens 0 to 7, and the
    // values of tokens 8 to 15 fell past the page
    let mut want_v: Vec<i32> = (9..=16).collect();
    want_v.extend(vec![0; 8]);
    assert_eq!(rv, want_v);
}
