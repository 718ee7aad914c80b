//! Routing policy engine.
//!
//! A router selects, per request, the worker that should serve it. Three
//! interchangeable policies exist: round-robin, uniformly random, and
//! cache-aware. The cache-aware policy mixes prefix-cache affinity (via
//! the approximate prefix tree), shortest-queue balancing (via the
//! pending-request counters) and, optionally, the per-user fairness
//! accountant; after every selection it records the dispatch and splices
//! the request text into the tree.
//!
//! Probabilities and the cache threshold are fractions with denominator
//! `FRACTION_DENOM`.

use vstd::prelude::*;
use crate::counters::{WorkerCounters, sat_add1, sat_sub1};
use crate::fairness::{FairnessAccountant, scored_select_post};
use crate::tree::Tree;
use crate::text::chars_vec;

verus! {

pub const FRACTION_DENOM: u32 = 1_000_000;

pub enum PolicyConfig {
    RandomConfig,
    RoundRobinConfig,
    CacheAwareConfig {
        cache_threshold: u32,
        cache_routing_prob: u32,
        eviction_interval_secs: u64,
        max_tree_size: usize,
        enable_fairness: bool,
        fairness_fill_size: usize,
    },
}

impl PolicyConfig {
    /// The documented ranges of the cache-aware parameters: both fractions
    /// lie in the unit interval, the eviction interval, tree bound and
    /// fairness fill are at least one.
    pub open spec fn wf(self) -> bool {
        match self {
            PolicyConfig::CacheAwareConfig {
                cache_threshold,
                cache_routing_prob,
                eviction_interval_secs,
                max_tree_size,
                enable_fairness,
                fairness_fill_size,
            } => {
                &&& cache_threshold <= FRACTION_DENOM
                &&& cache_routing_prob <= FRACTION_DENOM
                &&& eviction_interval_secs >= 1
                &&& max_tree_size >= 1
                &&& fairness_fill_size >= 1
            },
            _ => true,
        }
    }
}

/// The mutable state of a cache-aware router.
pub struct CacheAwareState {
    pub tree: Tree,
    pub counters: WorkerCounters,
    pub fairness: FairnessAccountant,
    pub cache_threshold: u32,
    pub cache_routing_prob: u32,
    pub eviction_interval_secs: u64,
    pub max_tree_size: usize,
    pub enable_fairness: bool,
    pub clock: u64,
}

impl CacheAwareState {
    pub open spec fn wf(self, n: nat) -> bool {
        &&& self.tree.wf()
        &&& self.tree.num_workers == n
        &&& self.counters.wf()
        &&& self.counters.num_workers() == n
        &&& self.fairness.wf()
        &&& self.fairness.num_workers == n
        &&& self.cache_threshold <= FRACTION_DENOM
        &&& self.cache_routing_prob <= FRACTION_DENOM
        &&& self.max_tree_size >= 1
        &&& self.eviction_interval_secs >= 1
    }

    /// The configuration fields of two states agree.
    pub open spec fn same_config(self, other: CacheAwareState) -> bool {
        &&& self.cache_threshold == other.cache_threshold
        &&& self.cache_routing_prob == other.cache_routing_prob
        &&& self.eviction_interval_secs == other.eviction_interval_secs
        &&& self.max_tree_size == other.max_tree_size
        &&& self.enable_fairness == other.enable_fairness
        &&& self.fairness.fill_size == other.fairness.fill_size
    }
}

/// `l` is the length of the longest prefix of `text` stored on a path
/// that `w` is a tenant of throughout.
pub open spec fn best_tenant_match_len(tree: Tree, text: Seq<char>, w: int, l: int) -> bool {
    &&& exists|q: Seq<char>|
        #![auto]
        q.is_prefix_of(text) && tree.is_tenant(q, w) && q.len() == l
    &&& forall|q: Seq<char>|
        #![auto]
        tree.is_tenant(q, w) && q.is_prefix_of(text) ==> q.len() <= l
}

/// `w` is the worker owning the fewest tree nodes, ties to the lowest
/// index.
pub open spec fn smallest_tenant_choice(tree: Tree, n: nat, w: int) -> bool {
    &&& 0 <= w < n
    &&& forall|w2: int| 0 <= w2 < n ==> #[trigger] tree.tenant_count(w2) >= tree.tenant_count(w)
    &&& forall|w2: int| 0 <= w2 < w ==> #[trigger] tree.tenant_count(w2) > tree.tenant_count(w)
}

/// `w` is the first worker with the fewest in-flight requests.
pub open spec fn shortest_queue_choice(running: Seq<u64>, w: int) -> bool {
    &&& 0 <= w < running.len()
    &&& forall|j: int| 0 <= j < running.len() ==> (#[trigger] running[j]) >= running[w]
    &&& forall|j: int| 0 <= j < w ==> (#[trigger] running[j]) > running[w]
}

/// The cache-consulting branch: `(m, wm)` is the longest stored prefix of
/// `text` with its lowest-numbered tenant; `w` is `wm` when the match rate
/// exceeds the threshold, and the smallest tenant otherwise.
pub open spec fn cache_branch_choice(tree: Tree, n: nat, threshold: u32, text: Seq<char>, w: int) -> bool {
    exists|m: Seq<char>, wm: int|
        #![trigger tree.is_tenant(m, wm)]
        {
            &&& m.is_prefix_of(text)
            &&& tree.has_path(m)
            &&& forall|q: Seq<char>|
                #![auto]
                tree.has_path(q) && q.is_prefix_of(text) ==> q.len() <= m.len()
            &&& 0 <= wm < n
            &&& tree.is_tenant(m, wm)
            &&& forall|w2: int| 0 <= w2 < wm ==> !(#[trigger] tree.is_tenant(m, w2))
            &&& if m.len() * (FRACTION_DENOM as int) > (threshold as int) * text.len() {
                w == wm
            } else {
                smallest_tenant_choice(tree, n, w)
            }
        }
}

/// A fresh credit row: every worker holds `fill` credits.
pub open spec fn fill_row(n: nat, fill: int) -> Seq<i128> {
    Seq::new(n, |i: int| fill as i128)
}

/// The fairness branch: the workers are scored by their longest tenanted
/// prefix match, and the accountant picks the best-scoring worker whose
/// credit covers the text length, refilling when none qualifies. The row
/// consumed is the user's existing one, or a fresh fill row for a user
/// seen for the first time.
pub open spec fn fairness_choice(
    pre: CacheAwareState,
    post: CacheAwareState,
    n: nat,
    text: Seq<char>,
    uid: Seq<char>,
    w: int,
) -> bool {
    exists|scores: Seq<usize>, k: int, idx: int|
        {
            &&& scores.len() == n
            &&& forall|w2: int|
                0 <= w2 < n ==> #[trigger] best_tenant_match_len(
                    pre.tree,
                    text,
                    w2,
                    scores[w2] as int,
                )
            &&& 0 <= idx < post.fairness.users@.len()
            &&& post.fairness.users@[idx]@ == uid
            &&& (pre.fairness.has_user(uid) ==> idx < pre.fairness.users@.len()
                && pre.fairness.users@[idx]@ == uid && #[trigger] scored_select_post(
                pre.fairness.credits@[idx]@,
                post.fairness.credits@[idx]@,
                scores,
                text.len() as int,
                pre.fairness.fill_size as int,
                k,
                w,
            ))
            &&& (!pre.fairness.has_user(uid) ==> idx == pre.fairness.users@.len()
                && scored_select_post(
                fill_row(n, pre.fairness.fill_size as int),
                post.fairness.credits@[idx]@,
                scores,
                text.len() as int,
                pre.fairness.fill_size as int,
                k,
                w,
            ))
        }
}

/// Everything one cache-aware selection with sampled fraction `p` does:
/// picks `w` by the documented rule, records the dispatch on `w`, and
/// splices the text into the tree for `w`.
pub open spec fn cache_select_post(
    pre: CacheAwareState,
    post: CacheAwareState,
    n: nat,
    text: Seq<char>,
    uid: Seq<char>,
    p: u32,
    w: int,
) -> bool {
    &&& 0 <= w < n
    &&& pre.same_config(post)
    &&& forall|q: Seq<char>|
        #![auto]
        post.tree.has_path(q) <==> (pre.tree.has_path(q) || q.is_prefix_of(text))
    &&& forall|q: Seq<char>, w2: int|
        #![auto]
        post.tree.is_tenant(q, w2) <==> (pre.tree.is_tenant(q, w2) || (w2 == w && q.is_prefix_of(
            text,
        )))
    &&& post.counters.running@ == pre.counters.running@.update(
        w,
        sat_add1(pre.counters.running@[w]),
    )
    &&& post.counters.processed@ == pre.counters.processed@.update(
        w,
        sat_add1(pre.counters.processed@[w]),
    )
    &&& if pre.enable_fairness {
        fairness_choice(pre, post, n, text, uid, w)
    } else {
        &&& post.fairness == pre.fairness
        &&& if p < pre.cache_routing_prob {
            cache_branch_choice(pre.tree, n, pre.cache_threshold, text, w)
        } else {
            shortest_queue_choice(pre.counters.running@, w)
        }
    }
}

/// Relies on rand::random: a uniformly sampled value; nothing is assumed
/// of which value comes back.
pub assume_specification<T>[ rand::random::<T> ]() -> (r: T)
    where rand::distributions::Standard: rand::distributions::Distribution<T>,
;

impl CacheAwareState {
    /// One cache-aware selection, deterministic in the sampled fraction
    /// `sample`.
    #[verifier::loop_isolation(false)]
    pub fn select_with_sample(&mut self, n: usize, text: &str, user_id: &str, sample: u32) -> (w:
        usize)
        requires
            old(self).wf(n as nat),
            n >= 1,
            sample < FRACTION_DENOM,
        ensures
            final(self).wf(n as nat),
            w < n,
            cache_select_post(
                *old(self),
                *final(self),
                n as nat,
                text@,
                user_id@,
                sample,
                w as int,
            ),
    {
        let tv = chars_vec(text);
        if self.clock < u64::MAX {
            self.clock = self.clock + 1;
        }
        let ts = self.clock;
        let w: usize = if self.enable_fairness {
            let uv = chars_vec(user_id);
            let ghost pre_fairness = self.fairness;
            let idx = self.fairness.ensure_user(&uv);
            let ghost fam = self.fairness;
            let mut scores: Vec<usize> = Vec::new();
            let mut w2: usize = 0;
            while w2 < n
                invariant
                    scores@.len() == w2,
                    w2 <= n,
                    forall|q: int|
                        0 <= q < w2 ==> #[trigger] best_tenant_match_len(
                            self.tree,
                            tv@,
                            q,
                            scores@[q] as int,
                        ),
                decreases n - w2,
            {
                let m = self.tree.prefix_match_tenant(&tv, w2);
                proof {
                    assert(m@.is_prefix_of(tv@) && self.tree.is_tenant(m@, w2 as int));
                }
                scores.push(m.len());
                w2 += 1;
            }
            let picked = self.fairness.select_scored(idx, tv.len(), &scores);
            proof {
                let k0 = choose|k: int|
                    #[trigger] scored_select_post(
                        fam.credits@[idx as int]@,
                        self.fairness.credits@[idx as int]@,
                        scores@,
                        tv@.len() as int,
                        fam.fill_size as int,
                        k,
                        picked as int,
                    );
                if !pre_fairness.has_user(uv@) {
                    assert(fam.credits@[idx as int]@ =~= fill_row(
                        n as nat,
                        pre_fairness.fill_size as int,
                    ));
                    assert(scored_select_post(
                        fill_row(n as nat, pre_fairness.fill_size as int),
                        self.fairness.credits@[idx as int]@,
                        scores@,
                        tv@.len() as int,
                        pre_fairness.fill_size as int,
                        k0,
                        picked as int,
                    ));
                }
                // name the instantiation of the accountant's contract that
                // the fairness_choice existential is matched against
                let ghost seen = scored_select_post(
                    pre_fairness.credits@[idx as int]@,
                    self.fairness.credits@[idx as int]@,
                    scores@,
                    tv@.len() as int,
                    pre_fairness.fill_size as int,
                    k0,
                    picked as int,
                );
                assert(self.fairness.users@[idx as int]@ == user_id@);
                assert(fairness_choice(*old(self), *self, n as nat, tv@, user_id@, picked as int));
            }
            picked
        } else if sample < self.cache_routing_prob {
            let (m, wm) = self.tree.prefix_match(&tv);
            let ml = m.len();
            let tl = tv.len();
            proof {
                assert((ml as int) * (FRACTION_DENOM as int) <= (usize::MAX as int) * (
                FRACTION_DENOM as int)) by (nonlinear_arith)
                    requires
                        0 <= ml as int <= usize::MAX as int,
                ;
                assert((self.cache_threshold as int) * (tl as int) <= (FRACTION_DENOM as int) * (
                usize::MAX as int)) by (nonlinear_arith)
                    requires
                        0 <= self.cache_threshold as int <= FRACTION_DENOM as int,
                        0 <= tl as int <= usize::MAX as int,
                ;
            }
            let lhs: u128 = (ml as u128) * (FRACTION_DENOM as u128);
            let rhs: u128 = (self.cache_threshold as u128) * (tl as u128);
            if lhs > rhs {
                wm
            } else {
                self.tree.get_smallest_tenant()
            }
        } else {
            let mut best: usize = 0;
            let mut j: usize = 1;
            while j < n
                invariant
                    1 <= j <= n,
                    best < j,
                    forall|q: int|
                        0 <= q < j ==> (#[trigger] self.counters.running@[q])
                            >= self.counters.running@[best as int],
                    forall|q: int|
                        0 <= q < best ==> (#[trigger] self.counters.running@[q])
                            > self.counters.running@[best as int],
                decreases n - j,
            {
                if self.counters.running[j] < self.counters.running[best] {
                    best = j;
                }
                j += 1;
            }
            best
        };
        self.counters.record_dispatch(w);
        self.tree.insert(&tv, w, ts);
        w
    }
}

/// The round-robin selection stream: starting from index zero, selection
/// `i` picks worker `i % n`. `rr_count(k, n, w)` is how many of the first
/// `k` selections pick worker `w`.
pub open spec fn rr_count(k: nat, n: int, w: int) -> int
    decreases k,
{
    if k == 0 {
        0
    } else {
        rr_count((k - 1) as nat, n, w) + if (k as int - 1) % n == w {
            1int
        } else {
            0int
        }
    }
}

/// Law: round-robin over `n` workers and `k` requests gives each worker
/// its floor share `k / n` of the selections, plus exactly one more for
/// the first `k % n` workers — so every worker is selected either
/// `k / n` or `k / n + 1` times.
pub proof fn lemma_round_robin_balanced(k: nat, n: int, w: int)
    requires
        0 <= w < n,
    ensures
        rr_count(k, n, w) == k as int / n + if w < k as int % n {
            1int
        } else {
            0int
        },
    decreases k,
{
    let ki = k as int;
    if k == 0 {
        assert(0int == 0 * n + 0) by (nonlinear_arith);
        vstd::arithmetic::div_mod::lemma_fundamental_div_mod_converse(0, n, 0, 0);
    } else {
        lemma_round_robin_balanced((k - 1) as nat, n, w);
        let km = ki - 1;
        vstd::arithmetic::div_mod::lemma_fundamental_div_mod(km, n);
        vstd::arithmetic::div_mod::lemma_mod_division_less_than_divisor(km, n);
        let q = km / n;
        let r = km % n;
        if r == n - 1 {
            assert(ki == (q + 1) * n + 0) by (nonlinear_arith)
                requires
                    km == n * q + r,
                    r == n - 1,
                    ki == km + 1,
            ;
            vstd::arithmetic::div_mod::lemma_fundamental_div_mod_converse(ki, n, q + 1, 0);
        } else {
            assert(ki == q * n + (r + 1)) by (nonlinear_arith)
                requires
                    km == n * q + r,
                    ki == km + 1,
            ;
            vstd::arithmetic::div_mod::lemma_fundamental_div_mod_converse(ki, n, q, r + 1);
        }
    }
}

/// A router: the selection policy fixed at construction, the worker URL
/// list, and the policy's mutable state.
pub enum Router {
    RoundRobin { worker_urls: Vec<String>, current_index: usize },
    Random { worker_urls: Vec<String> },
    CacheAware { worker_urls: Vec<String>, state: CacheAwareState },
}

/// What one round-robin selection does: the current index is returned and
/// advanced by one, wrapping around the worker list.
pub open spec fn round_robin_post(pre: Router, post: Router, r: Option<usize>) -> bool {
    pre matches Router::RoundRobin { worker_urls: us, current_index: ci } ==> if us@.len() == 0 {
        post == pre && r is None
    } else {
        &&& r == Some(ci)
        &&& post == (Router::RoundRobin {
            worker_urls: us,
            current_index: (((ci + 1) as int % us@.len() as int) as usize),
        })
    }
}

impl Router {
    /// The worker URL list, whatever the policy.
    pub open spec fn spec_worker_urls(self) -> Seq<String> {
        match self {
            Router::RoundRobin { worker_urls, .. } => worker_urls@,
            Router::Random { worker_urls } => worker_urls@,
            Router::CacheAware { worker_urls, .. } => worker_urls@,
        }
    }

    /// The cache-aware state; meaningful only for a cache-aware router.
    pub open spec fn spec_state(self) -> CacheAwareState {
        match self {
            Router::CacheAware { state, .. } => state,
            _ => vstd::pervasive::arbitrary(),
        }
    }

    pub open spec fn wf(self) -> bool {
        match self {
            Router::RoundRobin { worker_urls, current_index } => worker_urls@.len() == 0
                || current_index < worker_urls@.len(),
            Router::Random { .. } => true,
            Router::CacheAware { worker_urls, state } => state.wf(worker_urls@.len()),
        }
    }

    /// A router over the given workers with the given policy. A cache-aware
    /// router starts with a tree holding only the root (owned by every
    /// worker), zeroed counters and no fairness rows.
    pub fn new(worker_urls: Vec<String>, policy_config: PolicyConfig) -> (r: Router)
        requires
            policy_config.wf(),
        ensures
            r.wf(),
            r.spec_worker_urls() == worker_urls@,
            policy_config is RandomConfig ==> r is Random,
            policy_config is RoundRobinConfig ==> (r matches Router::RoundRobin {
                current_index: ci,
                ..
            } && ci == 0),
            policy_config matches PolicyConfig::CacheAwareConfig {
                cache_threshold,
                cache_routing_prob,
                eviction_interval_secs,
                max_tree_size,
                enable_fairness,
                fairness_fill_size,
            } ==> (r matches Router::CacheAware { state, .. } && {
                &&& state.cache_threshold == cache_threshold
                &&& state.cache_routing_prob == cache_routing_prob
                &&& state.eviction_interval_secs == eviction_interval_secs
                &&& state.max_tree_size == max_tree_size
                &&& state.enable_fairness == enable_fairness
                &&& state.fairness.fill_size == fairness_fill_size
                &&& state.tree.node_count() == 1
                &&& forall|p: Seq<char>, w: int|
                    #![auto]
                    state.tree.is_tenant(p, w) <==> (p.len() == 0 && 0 <= w
                        < worker_urls@.len())
                &&& forall|w: int|
                    0 <= w < worker_urls@.len() ==> (#[trigger] state.counters.running@[w]) == 0
                        && state.counters.processed@[w] == 0
                &&& state.fairness.users@.len() == 0
            }),
    {
        match policy_config {
            PolicyConfig::RandomConfig => Router::Random { worker_urls },
            PolicyConfig::RoundRobinConfig => Router::RoundRobin {
                worker_urls,
                current_index: 0,
            },
            PolicyConfig::CacheAwareConfig {
                cache_threshold,
                cache_routing_prob,
                eviction_interval_secs,
                max_tree_size,
                enable_fairness,
                fairness_fill_size,
            } => {
                let n = worker_urls.len();
                let state = CacheAwareState {
                    tree: Tree::new(n),
                    counters: WorkerCounters::new(n),
                    fairness: FairnessAccountant::new(fairness_fill_size, n),
                    cache_threshold,
                    cache_routing_prob,
                    eviction_interval_secs,
                    max_tree_size,
                    enable_fairness,
                    clock: 0,
                };
                Router::CacheAware { worker_urls, state }
            },
        }
    }

    /// The first configured worker, if any.
    pub fn get_first(&self) -> (r: Option<String>)
        ensures
            match r {
                Some(u) => self.spec_worker_urls().len() > 0 && u@ == self.spec_worker_urls()[0]@,
                None => self.spec_worker_urls().len() == 0,
            },
    {
        match self {
            Router::RoundRobin { worker_urls, .. } => {
                if worker_urls.len() == 0 {
                    None
                } else {
                    Some(worker_urls[0].clone())
                }
            },
            Router::Random { worker_urls } => {
                if worker_urls.len() == 0 {
                    None
                } else {
                    Some(worker_urls[0].clone())
                }
            },
            Router::CacheAware { worker_urls, .. } => {
                if worker_urls.len() == 0 {
                    None
                } else {
                    Some(worker_urls[0].clone())
                }
            },
        }
    }

    /// Selects the worker for one request carrying `text` from `user_id`,
    /// and updates the policy state: round-robin advances its index, the
    /// cache-aware policy records the dispatch and splices the text into
    /// its tree. Yields a worker exactly when the worker list is
    /// non-empty.
    pub fn select_worker(&mut self, text: &str, user_id: &str) -> (r: Option<usize>)
        requires
            old(self).wf(),
        ensures
            final(self).wf(),
            final(self).spec_worker_urls() == old(self).spec_worker_urls(),
            (r is Some) <==> old(self).spec_worker_urls().len() > 0,
            r matches Some(w) ==> (w as int) < old(self).spec_worker_urls().len(),
            (*old(self)) is RoundRobin ==> round_robin_post(*old(self), *final(self), r),
            (*old(self)) is Random ==> *final(self) == *old(self),
            (*old(self)) is CacheAware ==> ((*final(self)) is CacheAware && (r matches Some(w)
                ==> exists|p: u32|
                p < FRACTION_DENOM && #[trigger] cache_select_post(
                    old(self).spec_state(),
                    final(self).spec_state(),
                    old(self).spec_worker_urls().len(),
                    text@,
                    user_id@,
                    p,
                    w as int,
                ))),
    {
        let ghost mut gp: u32 = 0u32;
        let r: Option<usize> = match self {
            Router::RoundRobin { worker_urls, current_index } => {
                if worker_urls.len() == 0 {
                    None
                } else {
                    let i = *current_index;
                    *current_index = (i + 1) % worker_urls.len();
                    Some(i)
                }
            },
            Router::Random { worker_urls } => {
                if worker_urls.len() == 0 {
                    None
                } else {
                    let x = rand::random::<usize>();
                    Some(x % worker_urls.len())
                }
            },
            Router::CacheAware { worker_urls, state } => {
                if worker_urls.len() == 0 {
                    None
                } else {
                    let p = rand::random::<u32>() % FRACTION_DENOM;
                    let n = worker_urls.len();
                    let ghost pre_state = *state;
                    let w = state.select_with_sample(n, text, user_id, p);
                    proof {
                        gp = p;
                        assert(old(self).spec_state() == pre_state);
                        assert(old(self).spec_worker_urls().len() == n as nat);
                        assert(cache_select_post(
                            pre_state,
                            *state,
                            n as nat,
                            text@,
                            user_id@,
                            p,
                            w as int,
                        ));
                    }
                    Some(w)
                }
            },
        };
        proof {
            if (*old(self)) is CacheAware && r is Some {
                let w0 = choose|w0: usize| r == Some(w0);
                assert(cache_select_post(
                    old(self).spec_state(),
                    self.spec_state(),
                    old(self).spec_worker_urls().len(),
                    text@,
                    user_id@,
                    gp,
                    w0 as int,
                ));
            }
        }
        r
    }

    /// Records that the response for a request dispatched to worker `w`
    /// has fully completed (delivered or failed): the cache-aware policy
    /// releases one in-flight slot on `w`, never dropping below zero.
    pub fn finish_request(&mut self, w: usize)
        requires
            old(self).wf(),
            (w as int) < old(self).spec_worker_urls().len(),
        ensures
            final(self).wf(),
            final(self).spec_worker_urls() == old(self).spec_worker_urls(),
            !((*old(self)) is CacheAware) ==> *final(self) == *old(self),
            (*old(self)) is CacheAware ==> ((*final(self)) is CacheAware && {
                let pre = old(self).spec_state();
                let post = final(self).spec_state();
                &&& post.counters.running@ == pre.counters.running@.update(
                    w as int,
                    sat_sub1(pre.counters.running@[w as int]),
                )
                &&& post.counters.processed@ == pre.counters.processed@
                &&& post.tree == pre.tree
                &&& post.fairness == pre.fairness
                &&& pre.same_config(post)
            }),
    {
        match self {
            Router::CacheAware { state, .. } => {
                state.counters.record_completion(w);
            },
            _ => {},
        }
    }

    /// Runs one eviction pass on a cache-aware router's tree; any other
    /// policy is untouched. Within-bound trees are untouched, so repeated
    /// eviction converges.
    pub fn evict_tenant_data(&mut self, max_tree_size: usize)
        requires
            old(self).wf(),
        ensures
            final(self).wf(),
            final(self).spec_worker_urls() == old(self).spec_worker_urls(),
            !((*old(self)) is CacheAware) ==> *final(self) == *old(self),
            (*old(self)) is CacheAware ==> ((*final(self)) is CacheAware && {
                let pre = old(self).spec_state();
                let post = final(self).spec_state();
                &&& forall|p: Seq<char>|
                    #![auto]
                    post.tree.has_path(p) ==> pre.tree.has_path(p)
                &&& (pre.tree.node_count() <= max_tree_size ==> post.tree == pre.tree)
                &&& (post.tree.node_count() <= max_tree_size || (post.tree.node_count() == 1
                    && max_tree_size == 0))
                &&& (pre.tree.node_count() > max_tree_size ==> post.tree.node_count()
                    >= max_tree_size)
                &&& post.counters == pre.counters
                &&& post.fairness == pre.fairness
                &&& pre.same_config(post)
            }),
    {
        match self {
            Router::CacheAware { state, .. } => {
                state.tree.evict_tenant_data(max_tree_size);
            },
            _ => {},
        }
    }

    /// The eviction interval and tree bound of a cache-aware router, for
    /// the caller's background evictor.
    pub fn eviction_config(&self) -> (r: Option<(u64, usize)>)
        ensures
            (*self) is CacheAware ==> r == Some(
                (self.spec_state().eviction_interval_secs, self.spec_state().max_tree_size),
            ),
            !((*self) is CacheAware) ==> r is None,
    {
        match self {
            Router::CacheAware { state, .. } => Some(
                (state.eviction_interval_secs, state.max_tree_size),
            ),
            _ => None,
        }
    }
}

} // verus!
