use mlx_lm::cache::KvCache;
use mlx_lm::prompt_cache::{common_prefix_len, PromptCache};

fn cache_with_offset(offset: i32) -> Vec<KvCache<u64>> {
    vec![KvCache::from_parts(None, None, offset)]
}

#[test]
fn prompt_cache_fetches_exact_and_shorter_entries() {
    let mut cache = PromptCache::new(10);
    cache.insert(vec![1, 2], cache_with_offset(2));

    let (exact, exact_rest) = cache.fetch_nearest(&[1, 2]);
    assert!(exact_rest.is_empty());
    assert_eq!(exact.unwrap()[0].offset(), 2);

    let (shorter, shorter_rest) = cache.fetch_nearest(&[1, 2, 3]);
    assert_eq!(shorter_rest, [3]);
    assert_eq!(shorter.unwrap()[0].offset(), 2);
}

#[test]
fn prompt_cache_trims_longer_entry_but_preserves_hidden_preseed_token() {
    let mut cache = PromptCache::new(10);
    cache.insert(vec![1, 2, 3, 4], cache_with_offset(5));

    let (nearest, rest) = cache.fetch_nearest(&[1, 2, 9]);
    assert_eq!(rest, [9]);
    assert_eq!(nearest.unwrap()[0].offset(), 3);
}

#[test]
fn prompt_cache_removes_prefixes_and_evicts_oldest_entry() {
    let mut cache = PromptCache::new(2);
    cache.insert(vec![1, 2], cache_with_offset(2));
    cache.insert(vec![1, 2, 3], cache_with_offset(3));
    assert_eq!(cache.len(), 1);

    cache.insert(vec![4], cache_with_offset(1));
    cache.insert(vec![5], cache_with_offset(1));
    assert_eq!(cache.len(), 2);
    assert!(cache.fetch_nearest(&[1, 2, 3]).0.is_none());
}

#[test]
fn common_prefix_counts_equal_leading_tokens() {
    assert_eq!(common_prefix_len(&[], &[1]), 0);
    assert_eq!(common_prefix_len(&[1, 2, 3], &[1, 2, 4]), 2);
    assert_eq!(common_prefix_len(&[1, 2], &[1, 2, 4]), 2);
    assert_eq!(common_prefix_len(&[2], &[1]), 0);
}

#[test]
fn fetch_without_a_match_returns_the_whole_prompt() {
    let mut cache = PromptCache::new(3);
    let (none, rest) = cache.fetch_nearest(&[1, 2]);
    assert!(none.is_none());
    assert_eq!(rest, [1, 2]);
    cache.insert(vec![7, 8], cache_with_offset(2));
    let (none, rest) = cache.fetch_nearest(&[1, 2]);
    assert!(none.is_none());
    assert_eq!(rest, [1, 2]);
    let (none, rest) = cache.fetch_nearest(&[]);
    assert!(none.is_none());
    assert!(rest.is_empty());
}

#[test]
fn fetch_of_an_inner_prompt_leaves_one_token_to_feed() {
    let mut cache = PromptCache::new(3);
    cache.insert(vec![1, 2, 3, 4], cache_with_offset(4));
    let (nearest, rest) = cache.fetch_nearest(&[1, 2]);
    assert_eq!(rest, [2]);
    assert_eq!(nearest.unwrap()[0].offset(), 1);
}

#[test]
fn fetch_prefers_the_entry_that_spares_most() {
    let mut cache = PromptCache::new(5);
    cache.insert(vec![1, 2, 3, 9, 9], cache_with_offset(5));
    cache.insert(vec![1, 2], cache_with_offset(2));
    let (nearest, rest) = cache.fetch_nearest(&[1, 2, 3, 4]);
    assert_eq!(rest, [4]);
    assert_eq!(nearest.unwrap()[0].offset(), 3);

    let (nearest, rest) = cache.fetch_nearest(&[1, 2, 7]);
    assert_eq!(rest, [7]);
    assert_eq!(nearest.unwrap()[0].offset(), 2);
}

#[test]
fn a_one_token_entry_serves_a_longer_prompt() {
    let mut cache = PromptCache::new(5);
    cache.insert(vec![1], cache_with_offset(1));
    let (nearest, rest) = cache.fetch_nearest(&[1, 2]);
    assert_eq!(rest, [2]);
    assert_eq!(nearest.unwrap()[0].offset(), 1);
}

#[test]
fn inserting_the_same_prompt_replaces_it_and_fetch_gives_it_back() {
    let mut cache = PromptCache::new(2);
    cache.insert(vec![1, 2], cache_with_offset(2));
    cache.insert(vec![1, 2], cache_with_offset(7));
    assert_eq!(cache.len(), 1);
    let (exact, rest) = cache.fetch_nearest(&[1, 2]);
    assert!(rest.is_empty());
    assert_eq!(exact.unwrap()[0].offset(), 7);
}
