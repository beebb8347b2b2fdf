//! Laws of the ledger that relate several operations: hashing is a
//! function of a block's content, and conflict resolution adopts the
//! longest qualifying chain.

use vstd::prelude::*;

use crate::ledger::{spec_hash_block, spec_resolve, spec_window_valid};
use crate::model::BlockModel;

verus! {

/// Hash determinism: the digest of a block depends on its recorded content
/// alone, so two blocks that agree field by field hash to the same digest
/// string.
pub proof fn lemma_hash_block_deterministic(a: BlockModel, b: BlockModel)
    requires
        a.index == b.index,
        a.timestamp_secs == b.timestamp_secs,
        a.timestamp_nanos == b.timestamp_nanos,
        a.transactions == b.transactions,
        a.proof == b.proof,
        a.previous_hash == b.previous_hash,
    ensures
        spec_hash_block(a) == spec_hash_block(b),
{
    assert(a =~= b);
}

/// Conflict resolution adopts the longest qualifying chain. A candidate
/// qualifies when it is strictly longer than the local chain and its window
/// up to the local length validates. When the scan adopts nothing, no
/// candidate qualifies; when it adopts a chain, that chain is one of the
/// candidates, qualifies, and no qualifying candidate is longer.
pub proof fn lemma_resolve_adopts_longest(candidates: Seq<Seq<BlockModel>>, local_len: nat)
    ensures
        ({
            let best = spec_resolve(candidates, local_len);
            &&& (best.len() == 0 ==> forall|j: int|
                0 <= j < candidates.len() ==> !((#[trigger] candidates[j]).len() > local_len
                    && spec_window_valid(candidates[j].take(local_len as int))))
            &&& (best.len() > 0 ==> {
                &&& candidates.contains(best)
                &&& best.len() > local_len
                &&& spec_window_valid(best.take(local_len as int))
                &&& forall|j: int|
                    0 <= j < candidates.len() && (#[trigger] candidates[j]).len() > local_len
                        && spec_window_valid(candidates[j].take(local_len as int))
                        ==> candidates[j].len() <= best.len()
            })
        }),
    decreases candidates.len(),
{
    if candidates.len() > 0 {
        let shorter = candidates.drop_last();
        lemma_resolve_adopts_longest(shorter, local_len);
        let prev = spec_resolve(shorter, local_len);
        let best = spec_resolve(candidates, local_len);
        let last = candidates.last();
        let max_len: nat = if prev.len() == 0 {
            local_len
        } else {
            prev.len()
        };
        assert(forall|j: int|
            0 <= j < candidates.len() - 1 ==> (#[trigger] candidates[j]) == shorter[j]);
        assert(last == candidates[candidates.len() - 1]);
        assert(max_len >= local_len);
        if last.len() > max_len && spec_window_valid(last.take(local_len as int)) {
            assert(best == last);
            assert(candidates.contains(best)) by {
                assert(candidates[candidates.len() - 1] == best);
            }
            assert(best.len() > local_len);
            assert forall|j: int|
                0 <= j < candidates.len() && (#[trigger] candidates[j]).len() > local_len
                    && spec_window_valid(
                    candidates[j].take(local_len as int),
                ) implies candidates[j].len() <= best.len() by {
                if j < candidates.len() - 1 {
                    assert(shorter[j] == candidates[j]);
                    assert(shorter[j].len() <= prev.len());
                }
            }
        } else {
            assert(best == prev);
            if prev.len() == 0 {
                assert forall|j: int| 0 <= j < candidates.len() implies !((
                #[trigger] candidates[j]).len() > local_len && spec_window_valid(
                    candidates[j].take(local_len as int),
                )) by {
                    if j < candidates.len() - 1 {
                        assert(shorter[j] == candidates[j]);
                    } else {
                        assert(candidates[j] == last);
                    }
                }
            } else {
                assert(candidates.contains(best)) by {
                    let i = choose|i: int| 0 <= i < shorter.len() && shorter[i] == best;
                    assert(candidates[i] == best);
                }
                assert forall|j: int|
                    0 <= j < candidates.len() && (#[trigger] candidates[j]).len() > local_len
                        && spec_window_valid(
                        candidates[j].take(local_len as int),
                    ) implies candidates[j].len() <= best.len() by {
                    if j < candidates.len() - 1 {
                        assert(shorter[j] == candidates[j]);
                        assert(shorter[j].len() <= prev.len());
                    } else {
                        assert(candidates[j] == last);
                        assert(last.len() <= max_len);
                    }
                }
            }
        }
    }
}

} // verus!
