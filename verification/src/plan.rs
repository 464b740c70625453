//! The generation pipeline: corpus to dispatchable tasks.
//!
//! This is everything the tool decides before anything touches the network:
//! read the corpus into the pool, shuffle it, enumerate permutations, and
//! encode one task per permutation. The caller is left with launching the
//! tasks and classifying what comes back.

use vstd::prelude::*;

use crate::lines::lines_of;
use crate::payload::make_tasks;
use crate::payload::Task;
use crate::permute::perm_count;
use crate::permute::sequence;
use crate::permute::ConfigError;
use crate::pool::lemma_same_multiset_keeps_distinct;
use crate::pool::load_tokens;
use crate::random::shuffled;

verus! {

/// Builds at most `limit` tasks of `k` tokens each over the corpus: the pool
/// is shuffled once, the permutations are enumerated in order over that
/// shuffle, and every task's body encodes its permutation — with one token
/// replaced by an anagram where the corruption coin said so.
pub fn plan_tasks(corpus: &str, k: usize, limit: usize) -> (r: Result<Vec<Task>, ConfigError>)
    requires
        k >= 1,
    ensures
        lines_of(corpus@).len() == 0 ==> r matches Err(ConfigError::EmptyPool),
        0 < lines_of(corpus@).len() < k ==> r matches Err(ConfigError::PermutationTooLong),
        0 < lines_of(corpus@).len() && k <= lines_of(corpus@).len() ==> (r matches Ok(ts) && {
            &&& ts@.len() == vstd::math::min(
                limit as int,
                perm_count(lines_of(corpus@).len(), k as nat) as int,
            )
            &&& (forall|i: int| 0 <= i < ts@.len() ==> (#[trigger] ts@[i]).index == i)
            &&& (forall|i: int| 0 <= i < ts@.len() ==> (#[trigger] ts@[i]).wf())
            &&& (forall|i: int| 0 <= i < ts@.len() ==> (#[trigger] ts@[i]).tokens.deep_view().len()
                == k as nat)
            &&& (lines_of(corpus@).no_duplicates() ==> forall|i: int|
                0 <= i < ts@.len() && !(#[trigger] ts@[i]).corrupted
                    ==> ts@[i].tokens.deep_view().no_duplicates())
        }),
{
    let loaded = load_tokens(corpus);
    let pool = shuffled(loaded);
    proof {
        assert(pool.deep_view().len() == lines_of(corpus@).len());
        assert(pool@.len() == pool.deep_view().len());
        if lines_of(corpus@).no_duplicates() {
            lemma_same_multiset_keeps_distinct(lines_of(corpus@), pool.deep_view());
        }
    }
    match sequence(&pool, k, limit) {
        Err(e) => Err(e),
        Ok(perms) => {
            proof {
                assert forall|i: int| 0 <= i < perms@.len() implies (#[trigger] perms@[i])@.len()
                    > 0 by {
                    assert(perms.deep_view()[i].len() == k as nat);
                    assert(perms.deep_view()[i].len() == perms@[i]@.len());
                }
            }
            let ts = make_tasks(perms);
            proof {
                assert forall|i: int| 0 <= i < ts@.len() implies
                    (#[trigger] ts@[i]).tokens.deep_view().len() == k as nat by {
                    assert(perms.deep_view()[i].len() == k as nat);
                }
                if lines_of(corpus@).no_duplicates() {
                    assert forall|i: int| 0 <= i < ts@.len() && !(#[trigger] ts@[i]).corrupted
                        implies ts@[i].tokens.deep_view().no_duplicates() by {
                        assert(ts@[i].tokens.deep_view() == perms.deep_view()[i]);
                    }
                }
            }
            Ok(ts)
        },
    }
}

} // verus!
