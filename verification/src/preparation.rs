//! Why text preparation declined, and the identity of one preparation request.
use vstd::prelude::*;

use std::sync::Arc;

verus! {

/// Maximum retained allocation in one prepared entry, independent of its wire encoding.
pub const MAX_PREPARED_BYTES: usize = 1048576;

/// Maximum number of source snapshots in one owned preparation batch.
pub const MAX_BATCH_ITEMS: usize = 16;

/// Maximum accounted prepared allocation admitted as one completion.
pub const MAX_BATCH_BYTES: usize = 2097152;

/// A complete batch did not fit. The owner may retry a smaller batch, never truncate entries.
#[derive(Clone, Copy, Debug, PartialEq, Eq, Structural)]
pub enum BatchRefusal {
    /// The entry count or aggregate prepared allocation exceeded the batch bound.
    Capacity,
}

/// A visible degradation reason, distinct from a corrupt or disconnected process protocol.
#[derive(Clone, Copy, Debug, PartialEq, Eq, Structural)]
pub enum Refusal {
    /// The identity or dimensions are not a coherent preparation request.
    InvalidRequest,
    /// The complete prepared entry exceeds retention limits; it is never silently truncated.
    Capacity,
    /// The owned worker could not prepare the entry; the rest of the workspace stays usable.
    Unavailable,
}

/// The total of `sizes`.
pub open spec fn sum_of(sizes: Seq<usize>) -> int
    decreases sizes.len(),
{
    if sizes.len() == 0 {
        0
    } else {
        sum_of(sizes.drop_last()) + sizes.last()
    }
}

/// Whether a batch whose prepared entries retain `sizes` bytes is admitted as one completion:
/// one to sixteen entries, whose retained bytes never pass the batch bound as they accumulate.
pub open spec fn batch_admitted(sizes: Seq<usize>) -> bool {
    &&& 0 < sizes.len() <= MAX_BATCH_ITEMS
    &&& forall|k: int| 0 < k <= sizes.len() ==> #[trigger] sum_of(sizes.take(k)) <= MAX_BATCH_BYTES
}

/// Admits or refuses a batch by the bytes its prepared entries retain, in order.
pub fn admit_batch(sizes: &[usize]) -> (admitted: Result<(), BatchRefusal>)
    ensures
        admitted is Ok == batch_admitted(sizes@),
{
    if sizes.len() == 0 || sizes.len() > MAX_BATCH_ITEMS {
        return Err(BatchRefusal::Capacity);
    }
    let mut retained: usize = 0;
    let mut i: usize = 0;
    proof {
        assert(sizes@.take(0) =~= Seq::<usize>::empty());
    }
    while i < sizes.len()
        invariant
            0 < sizes@.len() <= MAX_BATCH_ITEMS,
            i <= sizes@.len(),
            retained == sum_of(sizes@.take(i as int)),
            retained <= MAX_BATCH_BYTES,
            forall|k: int| 0 < k <= i ==> #[trigger] sum_of(sizes@.take(k)) <= MAX_BATCH_BYTES,
        decreases sizes@.len() - i,
    {
        proof {
            assert(sizes@.take(i + 1).drop_last() =~= sizes@.take(i as int));
        }
        if sizes[i] > MAX_BATCH_BYTES - retained {
            proof {
                assert(sum_of(sizes@.take(i + 1)) > MAX_BATCH_BYTES);
            }
            return Err(BatchRefusal::Capacity);
        }
        retained = retained + sizes[i];
        i = i + 1;
    }
    Ok(())
}

/// A workspace-local request identity: the generation of the workspace that issued it, and its
/// place in that workspace's sequence.
#[derive(Clone, Debug)]
pub struct Token {
    pub generation: Arc<()>,
    pub sequence: u64,
}

/// `Arc::ptr_eq`: whether two handles share one allocation.
#[verifier::external_body]
fn same_allocation(a: &Arc<()>, b: &Arc<()>) -> (same: bool)
{
    Arc::ptr_eq(a, b)
}

/// Whether two tokens name the same request, given whether their generations are one: the same
/// generation and the same place in its sequence.
pub fn same_token(same_generation: bool, a: u64, b: u64) -> (same: bool)
    ensures
        same == (same_generation && a == b),
{
    same_generation && a == b
}

impl Token {
    /// Whether two tokens name the same request: one generation, one place in its sequence.
    pub fn same(&self, other: &Self) -> (same: bool)
        ensures
            same ==> self.sequence == other.sequence,
    {
        let shared = same_allocation(&self.generation, &other.generation);
        same_token(shared, self.sequence, other.sequence)
    }
}

} // verus!
