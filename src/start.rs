use crate::ipc::{
    registry_wf, selected, swept_rows, window, IpcService, IpcView, Selection, Sweep, MAX_ROWS,
};
use crate::my_actor::Intent;
use vstd::prelude::*;

verus! {

/// How long the retry loop waits after process start before its first sweep,
/// so that resume-on-start can settle.
pub const WARM_UP_MS: u64 = 60000;

/// How often the status-check loop runs.
pub const STATUS_INTERVAL_MS: u64 = 30000;

/// A start intent for each identity, in order.
pub open spec fn start_intents(ids: Seq<i32>) -> Seq<Intent> {
    ids.map_values(|id: i32| Intent { id, desired: 1 })
}

/// The identities of the first `MAX_ROWS` records that `sel` takes.
pub open spec fn listed_ids(rows: Seq<IpcView>, sel: Selection) -> Seq<i32> {
    window(selected(rows, sel), 0, MAX_ROWS as int).map_values(|x: IpcView| x.id)
}

fn to_start_intents(ids: &Vec<i32>) -> (r: Vec<Intent>)
    ensures
        r@ == start_intents(ids@),
{
    let mut r: Vec<Intent> = Vec::new();
    let mut i: usize = 0;
    while i < ids.len()
        invariant
            i <= ids.len(),
            r@ == start_intents(ids@.take(i as int)),
        decreases ids.len() - i,
    {
        r.push(Intent { id: ids[i], desired: 1 });
        assert(start_intents(ids@.take(i + 1)) =~= start_intents(ids@.take(i as int)).push(
            Intent { id: ids[i as int], desired: 1 },
        ));
        i = i + 1;
    }
    assert(ids@.take(ids.len() as int) =~= ids@);
    r
}

/// Resume-on-start: one start intent for each record wanted running (as the
/// bounded listing returns them), and none for any other record.
pub fn start_undone(registry: &IpcService) -> (r: Vec<Intent>)
    ensures
        r@ == start_intents(listed_ids(registry@.rows, Selection::Enabled)),
{
    let list = registry.get_enable_list();
    let mut ids: Vec<i32> = Vec::new();
    let mut i: usize = 0;
    while i < list.len()
        invariant
            i <= list.len(),
            crate::ipc::views(list@) == window(
                selected(registry@.rows, Selection::Enabled),
                0,
                MAX_ROWS as int,
            ),
            ids@ == crate::ipc::views(list@).take(i as int).map_values(|x: IpcView| x.id),
        decreases list.len() - i,
    {
        assert(crate::ipc::views(list@)[i as int] == list[i as int]@);
        ids.push(list[i].id);
        assert(ids@ =~= crate::ipc::views(list@).take(i + 1).map_values(|x: IpcView| x.id));
        i = i + 1;
    }
    assert(crate::ipc::views(list@).take(list.len() as int) =~= crate::ipc::views(list@));
    to_start_intents(&ids)
}

/// One step of the retry-abnormal loop, `elapsed_ms` after process start.
/// During the warm-up it does nothing. After it, each record stopped with a
/// failure and a retry count under `max_retry_count` (the first `MAX_ROWS`)
/// counts one more retry, is wanted running again with its failure cleared
/// and stamped with `now`, and gets a start intent, in order.
pub fn retry_abnormal(registry: &mut IpcService, max_retry_count: u32, elapsed_ms: u64, now: i64) -> (r:
    Vec<Intent>)
    requires
        registry_wf(old(registry)@),
    ensures
        registry_wf(final(registry)@),
        elapsed_ms < WARM_UP_MS ==> r@.len() == 0 && final(registry)@ == old(registry)@,
        elapsed_ms >= WARM_UP_MS ==> {
            &&& final(registry)@.rows == swept_rows(
                old(registry)@.rows,
                Selection::Abnormal(max_retry_count),
                Sweep::Retry(now),
            )
            &&& final(registry)@.next_id == old(registry)@.next_id
            &&& r@ == start_intents(
                listed_ids(old(registry)@.rows, Selection::Abnormal(max_retry_count)),
            )
        },
{
    if elapsed_ms < WARM_UP_MS {
        return Vec::new();
    }
    let ids = registry.sweep(&Selection::Abnormal(max_retry_count), Sweep::Retry(now));
    to_start_intents(&ids)
}

/// One status-check sweep: each record wanted running (the first
/// `MAX_ROWS`) gets a zero retry count and no failure. Returns the
/// identities of the records it changed, in order.
pub fn status_check(registry: &mut IpcService) -> (r: Vec<i32>)
    requires
        registry_wf(old(registry)@),
    ensures
        registry_wf(final(registry)@),
        final(registry)@.rows == swept_rows(old(registry)@.rows, Selection::Enabled, Sweep::Clear),
        final(registry)@.next_id == old(registry)@.next_id,
        r@ == listed_ids(old(registry)@.rows, Selection::Enabled),
{
    registry.sweep(&Selection::Enabled, Sweep::Clear)
}

} // verus!
