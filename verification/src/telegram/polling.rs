//! The update poller's bookkeeping of the next update offset.

use vstd::prelude::*;
use crate::telegram::models::{GetUpdates, Update};

verus! {

/// The offset to ask for after seeing an update: one past the update's ID when that is not below
/// the current offset.
pub open spec fn offset_after(next_offset: u64, update_id: u64) -> int {
    if update_id >= next_offset { update_id + 1 } else { next_offset as int }
}

/// The offset after seeing the given update IDs in order.
pub open spec fn offset_after_all(next_offset: u64, ids: Seq<u64>) -> int
    decreases ids.len(),
{
    if ids.len() == 0 {
        next_offset as int
    } else {
        let before = offset_after_all(next_offset, ids.drop_last());
        if ids.last() >= before { ids.last() + 1 } else { before }
    }
}

/// The IDs of the given updates.
pub open spec fn update_ids(updates: Seq<Update>) -> Seq<u64> {
    updates.map_values(|u: Update| u.update_id)
}

/// Advances the offset past one update.
pub fn advance_offset(next_offset: u64, update_id: u64) -> (r: u64)
    requires
        update_id >= next_offset ==> update_id < u64::MAX,
    ensures
        r == offset_after(next_offset, update_id),
{
    if update_id >= next_offset {
        update_id + 1
    } else {
        next_offset
    }
}

proof fn lemma_offset_after_all(next_offset: u64, ids: Seq<u64>)
    ensures
        offset_after_all(next_offset, ids) >= next_offset,
        forall|i: int| 0 <= i < ids.len() ==> offset_after_all(next_offset, ids) > #[trigger] ids[i],
        offset_after_all(next_offset, ids) == next_offset
            || exists|i: int| 0 <= i < ids.len() && offset_after_all(next_offset, ids) == #[trigger] ids[i] + 1,
    decreases ids.len(),
{
    if ids.len() > 0 {
        lemma_offset_after_all(next_offset, ids.drop_last());
        assert forall|i: int| 0 <= i < ids.len() implies offset_after_all(next_offset, ids) > #[trigger] ids[i] by {
            if i < ids.len() - 1 {
                assert(ids.drop_last()[i] == ids[i]);
            }
        }
        let before = offset_after_all(next_offset, ids.drop_last());
        if before != next_offset && ids.last() < before {
            let i = choose|i: int| 0 <= i < ids.drop_last().len() && before == #[trigger] ids.drop_last()[i] + 1;
            assert(ids[i] == ids.drop_last()[i]);
        }
        if ids.last() >= before {
            assert(ids[ids.len() - 1] == ids.last());
        }
    }
}

/// The offset after a batch of updates is not below the current one and lies past every ID of
/// the batch.
pub proof fn law_offset_passes_every_update(next_offset: u64, ids: Seq<u64>)
    ensures
        offset_after_all(next_offset, ids) >= next_offset,
        forall|i: int| 0 <= i < ids.len() ==> offset_after_all(next_offset, ids) > #[trigger] ids[i],
{
    lemma_offset_after_all(next_offset, ids);
}

/// The offset to use once the given updates have been received.
pub fn offset_after_updates(next_offset: u64, updates: &Vec<Update>) -> (r: u64)
    requires
        forall|i: int| 0 <= i < updates@.len() ==> #[trigger] updates@[i].update_id < u64::MAX,
    ensures
        r == offset_after_all(next_offset, update_ids(updates@)),
{
    let ghost ids = update_ids(updates@);
    let mut r = next_offset;
    let mut k: usize = 0;
    while k < updates.len()
        invariant
            k <= updates@.len(),
            ids == update_ids(updates@),
            forall|i: int| 0 <= i < updates@.len() ==> #[trigger] updates@[i].update_id < u64::MAX,
            r == offset_after_all(next_offset, ids.take(k as int)),
        decreases updates@.len() - k,
    {
        proof {
            let next = ids.take(k + 1);
            assert(next.drop_last() =~= ids.take(k as int));
            assert(next.last() == ids[k as int]);
        }
        r = advance_offset(r, updates[k].update_id);
        k = k + 1;
    }
    assert(ids.take(updates@.len() as int) =~= ids);
    r
}

/// The getUpdates request for the current offset. The offset is sent as a signed integer.
pub fn get_updates_request(next_offset: u64, duration_seconds: u16) -> (r: GetUpdates)
    ensures
        r.offset == next_offset as i64,
        r.timeout == duration_seconds,
{
    GetUpdates { offset: next_offset as i64, timeout: duration_seconds }
}

} // verus!
