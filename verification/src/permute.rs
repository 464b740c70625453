//! Permutation sequencer: enumerates fixed-length orderings over a shuffled
//! token pool, truncated to a requested count.
//!
//! A permutation of length `k` picks `k` distinct positions of the pool, so
//! whenever the pool itself holds no duplicate tokens, no permutation does
//! either. The number of such orderings of an `n`-token pool is
//! `n * (n-1) * ... * (n-k+1)`, and the sequencer never yields more than the
//! lesser of that and the requested count.

use vstd::prelude::*;

verus! {

/// The number of `k`-permutations of `n` distinct items:
/// `n * (n-1) * ... * (n-k+1)`, which is `0` when `k > n` and `1` when `k == 0`.
pub open spec fn perm_count(n: nat, k: nat) -> nat
    decreases k,
{
    if k == 0 {
        1
    } else if k > n {
        0
    } else {
        n * perm_count((n - 1) as nat, (k - 1) as nat)
    }
}

/// `idx` lists distinct positions of `pool`, and `perm` reads `pool` at them.
pub open spec fn selection_witness(idx: Seq<int>, perm: Seq<Seq<char>>, pool: Seq<Seq<char>>) -> bool {
    &&& idx.len() == perm.len()
    &&& (forall|a: int| 0 <= a < idx.len() ==> 0 <= #[trigger] idx[a] < pool.len())
    &&& idx.no_duplicates()
    &&& (forall|a: int| 0 <= a < idx.len() ==> #[trigger] perm[a] == pool[idx[a]])
}

/// `perm` reads distinct positions of `pool`: a selection without replacement.
pub open spec fn is_distinct_selection(perm: Seq<Seq<char>>, pool: Seq<Seq<char>>) -> bool {
    exists|idx: Seq<int>| selection_witness(idx, perm, pool)
}

/// A selection without replacement from a duplicate-free pool is itself
/// duplicate-free, and every entry comes from the pool.
pub proof fn lemma_selection_distinct(perm: Seq<Seq<char>>, pool: Seq<Seq<char>>)
    requires
        is_distinct_selection(perm, pool),
        pool.no_duplicates(),
    ensures
        perm.no_duplicates(),
        forall|a: int| 0 <= a < perm.len() ==> pool.contains(#[trigger] perm[a]),
{
    let idx = choose|idx: Seq<int>| selection_witness(idx, perm, pool);
    assert forall|i: int, j: int| 0 <= i < j < perm.len() implies perm[i] != perm[j] by {
        assert(idx[i] != idx[j]);
    }
    assert forall|a: int| 0 <= a < perm.len() implies pool.contains(perm[a]) by {
        assert(perm[a] == pool[idx[a]]);
    }
}

/// Relies on itertools' `Itertools::permutations` (with `Iterator::take`):
/// it yields every `k`-permutation of the source — each item a `Vec` of the
/// values at `k` distinct source positions — `n!/(n-k)!` of them in all, none
/// when `k` exceeds the source length; `take` truncates to `limit`.
#[verifier::external_body]
fn permutations_up_to(pool: &Vec<String>, k: usize, limit: usize) -> (r: Vec<Vec<String>>)
    ensures
        r.deep_view().len() == vstd::math::min(
            limit as int,
            perm_count(pool.deep_view().len(), k as nat) as int,
        ),
        forall|i: int| 0 <= i < r.deep_view().len() ==> (#[trigger] r.deep_view()[i]).len()
            == k as nat,
        forall|i: int| 0 <= i < r.deep_view().len() ==> is_distinct_selection(
            #[trigger] r.deep_view()[i],
            pool.deep_view(),
        ),
{
    itertools::Itertools::permutations(pool.iter().cloned(), k).take(limit).collect()
}

/// A configuration the sequencer must refuse before any task is generated.
#[derive(Debug)]
pub enum ConfigError {
    /// The token pool holds no tokens at all.
    EmptyPool,
    /// More tokens per task were requested than the pool holds.
    PermutationTooLong,
}

impl ConfigError {
    /// A human-readable account of the configuration error.
    pub fn message(&self) -> (r: &'static str)
        ensures
            *self is EmptyPool ==> r@ == "the token pool is empty"@,
            *self is PermutationTooLong ==> r@
                == "more tokens per task than the pool holds"@,
    {
        match self {
            ConfigError::EmptyPool => "the token pool is empty",
            ConfigError::PermutationTooLong => "more tokens per task than the pool holds",
        }
    }
}

/// Enumerates at most `limit` permutations of `k` tokens over `pool`.
///
/// An empty pool, or a `k` larger than the pool, would yield no tasks at all
/// and is refused as a configuration error instead of being silently
/// tolerated.
pub fn sequence(pool: &Vec<String>, k: usize, limit: usize) -> (r: Result<
    Vec<Vec<String>>,
    ConfigError,
>)
    ensures
        pool@.len() == 0 ==> r matches Err(ConfigError::EmptyPool),
        pool@.len() > 0 && k > pool@.len() ==> r matches Err(ConfigError::PermutationTooLong),
        0 < pool@.len() && k <= pool@.len() ==> (r matches Ok(perms) && {
            &&& perms.deep_view().len() == vstd::math::min(
                limit as int,
                perm_count(pool.deep_view().len(), k as nat) as int,
            )
            &&& (forall|i: int| 0 <= i < perms.deep_view().len()
                ==> (#[trigger] perms.deep_view()[i]).len() == k as nat)
            &&& (forall|i: int| 0 <= i < perms.deep_view().len() ==> is_distinct_selection(
                #[trigger] perms.deep_view()[i],
                pool.deep_view(),
            ))
            &&& (pool.deep_view().no_duplicates() ==> forall|i: int|
                0 <= i < perms.deep_view().len() ==> (#[trigger] perms.deep_view()[i]).no_duplicates())
        }),
{
    if pool.len() == 0 {
        Err(ConfigError::EmptyPool)
    } else if k > pool.len() {
        Err(ConfigError::PermutationTooLong)
    } else {
        let perms = permutations_up_to(pool, k, limit);
        proof {
            if pool.deep_view().no_duplicates() {
                assert forall|i: int| 0 <= i < perms.deep_view().len() implies
                    (#[trigger] perms.deep_view()[i]).no_duplicates() by {
                    lemma_selection_distinct(perms.deep_view()[i], pool.deep_view());
                }
            }
        }
        Ok(perms)
    }
}

} // verus!
