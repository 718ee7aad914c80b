use cache_router::router::{PolicyConfig, Router, FRACTION_DENOM};

fn urls(v: &[&str]) -> Vec<String> {
    v.iter().map(|s| s.to_string()).collect()
}

fn cache_aware(
    cache_threshold: u32,
    cache_routing_prob: u32,
    enable_fairness: bool,
    fairness_fill_size: usize,
) -> PolicyConfig {
    PolicyConfig::CacheAwareConfig {
        cache_threshold,
        cache_routing_prob,
        eviction_interval_secs: 60,
        max_tree_size: 1000,
        enable_fairness,
        fairness_fill_size,
    }
}

#[test]
fn round_robin_cycles_a_b_a() {
    let mut r = Router::new(urls(&["http://a", "http://b"]), PolicyConfig::RoundRobinConfig);
    assert_eq!(r.select_worker("x", "u"), Some(0));
    assert_eq!(r.select_worker("x", "u"), Some(1));
    assert_eq!(r.select_worker("x", "u"), Some(0));
}

#[test]
fn round_robin_balances_five_over_two() {
    let mut r = Router::new(urls(&["a", "b"]), PolicyConfig::RoundRobinConfig);
    let mut counts = [0usize; 2];
    for _ in 0..5 {
        counts[r.select_worker("x", "u").unwrap()] += 1;
    }
    assert_eq!(counts, [3, 2]);
}

#[test]
fn empty_worker_list_yields_no_selection() {
    let mut r = Router::new(urls(&[]), PolicyConfig::RoundRobinConfig);
    assert_eq!(r.select_worker("x", "u"), None);
    assert_eq!(r.get_first(), None);
}

#[test]
fn get_first_returns_first_url() {
    let r = Router::new(urls(&["http://a", "http://b"]), PolicyConfig::RandomConfig);
    assert_eq!(r.get_first(), Some("http://a".to_string()));
}

#[test]
fn random_with_one_worker_is_deterministic() {
    let mut r = Router::new(urls(&["http://a"]), PolicyConfig::RandomConfig);
    assert_eq!(r.select_worker("hi", "u"), Some(0));
}

#[test]
fn cache_aware_routes_matching_prefix_to_owner() {
    // always consult the cache, threshold one half, no fairness
    let mut r = Router::new(
        urls(&["http://a", "http://b"]),
        cache_aware(FRACTION_DENOM / 2, FRACTION_DENOM, false, 1),
    );
    // first request: empty match, goes to the smallest tenant (tie: first)
    assert_eq!(r.select_worker("hello world", "u"), Some(0));
    // "hello " matches 6 of 11 characters: above the threshold, stays on A
    assert_eq!(r.select_worker("hello there", "u"), Some(0));
}

#[test]
fn cache_aware_routes_low_match_to_smallest_tenant() {
    let mut r = Router::new(
        urls(&["http://a", "http://b"]),
        cache_aware(FRACTION_DENOM / 2, FRACTION_DENOM, false, 1),
    );
    assert_eq!(r.select_worker("hello world", "u"), Some(0));
    // no shared prefix: rate zero, B owns fewer nodes
    assert_eq!(r.select_worker("xyz", "u"), Some(1));
}

#[test]
fn cache_aware_counts_processed_dispatches() {
    let mut r = Router::new(
        urls(&["a", "b"]),
        cache_aware(FRACTION_DENOM / 2, FRACTION_DENOM, false, 1),
    );
    assert_eq!(r.select_worker("hello world", "u"), Some(0));
    assert_eq!(r.select_worker("hello there", "u"), Some(0));
    assert_eq!(r.select_worker("xyz", "u"), Some(1));
    match &r {
        Router::CacheAware { state, .. } => {
            assert_eq!(state.counters.processed, vec![2u64, 1]);
            assert_eq!(state.counters.running, vec![2u64, 1]);
        }
        _ => panic!("expected a cache-aware router"),
    }
}

#[test]
fn running_counters_balance_on_completion() {
    let mut r = Router::new(
        urls(&["a", "b"]),
        cache_aware(FRACTION_DENOM / 2, FRACTION_DENOM, false, 1),
    );
    let w1 = r.select_worker("one", "u").unwrap();
    let w2 = r.select_worker("two", "u").unwrap();
    r.finish_request(w1);
    r.finish_request(w2);
    match &r {
        Router::CacheAware { state, .. } => {
            let total: u64 = state.counters.running.iter().sum();
            assert_eq!(total, 0);
            let processed: u64 = state.counters.processed.iter().sum();
            assert_eq!(processed, 2);
        }
        _ => panic!("expected a cache-aware router"),
    }
}

#[test]
fn completion_never_drops_below_zero() {
    let mut r = Router::new(
        urls(&["a"]),
        cache_aware(0, FRACTION_DENOM, false, 1),
    );
    r.finish_request(0);
    match &r {
        Router::CacheAware { state, .. } => assert_eq!(state.counters.running, vec![0u64]),
        _ => panic!("expected a cache-aware router"),
    }
}

#[test]
fn fairness_deducts_and_falls_over() {
    // fill 10, two workers, texts of length 4
    let mut r = Router::new(urls(&["a", "b"]), cache_aware(0, 0, true, 10));
    // first two selections stay on the preferred worker: 10 -> 6 -> 2
    assert_eq!(r.select_worker("aaaa", "u1"), Some(0));
    assert_eq!(r.select_worker("aaaa", "u1"), Some(0));
    // credit 2 no longer exceeds 4: falls over to the other worker
    assert_eq!(r.select_worker("aaaa", "u1"), Some(1));
    match &r {
        Router::CacheAware { state, .. } => {
            assert_eq!(state.fairness.credits[0], vec![2i128, 6]);
        }
        _ => panic!("expected a cache-aware router"),
    }
}

#[test]
fn fairness_refills_when_exhausted() {
    let mut r = Router::new(urls(&["a", "b"]), cache_aware(0, 0, true, 10));
    for _ in 0..4 {
        r.select_worker("aaaa", "u1").unwrap();
    }
    // both workers are down to 2 credits; the fifth request forces a refill
    let w = r.select_worker("aaaa", "u1").unwrap();
    assert!(w < 2);
    match &r {
        Router::CacheAware { state, .. } => {
            // refilled to 12 each, then 4 deducted from the selected worker
            let row = &state.fairness.credits[0];
            assert_eq!(row.iter().sum::<i128>(), 12 + 12 - 4);
        }
        _ => panic!("expected a cache-aware router"),
    }
}

#[test]
fn fairness_tracks_users_separately() {
    let mut r = Router::new(urls(&["a", "b"]), cache_aware(0, 0, true, 10));
    r.select_worker("aaaa", "u1").unwrap();
    r.select_worker("bb", "u2").unwrap();
    match &r {
        Router::CacheAware { state, .. } => {
            assert_eq!(state.fairness.users.len(), 2);
        }
        _ => panic!("expected a cache-aware router"),
    }
}

#[test]
fn eviction_bounds_the_tree() {
    let mut r = Router::new(urls(&["a"]), cache_aware(0, FRACTION_DENOM, false, 1));
    r.select_worker("abcdefghij", "u").unwrap();
    r.evict_tenant_data(5);
    match &r {
        Router::CacheAware { state, .. } => assert_eq!(state.tree.nodes.len(), 5),
        _ => panic!("expected a cache-aware router"),
    }
}

#[test]
fn eviction_config_is_exposed() {
    let r = Router::new(urls(&["a"]), cache_aware(0, 0, false, 1));
    assert_eq!(r.eviction_config(), Some((60u64, 1000usize)));
    let rr = Router::new(urls(&["a"]), PolicyConfig::RoundRobinConfig);
    assert_eq!(rr.eviction_config(), None);
}
