use crate::ipc::{
    has_id, index_of_id, key_taken_by_other, lemma_unique_id_index, lemma_updated_keeps_order,
    lookup_id, registry_wf, updated, IpcService, IpcView, RegistryView, StorageError,
};
use crate::publisher::Publisher;
use std::sync::Arc;
use vstd::prelude::*;

verus! {

/// The reply to an intent for a stream that the registry does not hold.
pub const NOT_FOUND: i32 = -2;

/// A request for the desired state of one stream: 1 to run, 0 to stop.
#[derive(Clone, Copy, PartialEq, Eq, Structural, Debug)]
pub struct Intent {
    pub id: i32,
    pub desired: i32,
}

/// A pipeline that the supervisor has registered and that its caller must
/// now run: the handle, and the record's URLs at the time of the intent.
pub struct Launch {
    pub publisher: Arc<Publisher>,
    pub input_url: String,
    pub output_url: String,
}

/// The handles as (stream identity, run number) pairs.
pub open spec fn handle_keys(list: Seq<Arc<Publisher>>) -> Seq<(i32, u64)> {
    list.map_values(|p: Arc<Publisher>| (p.id, p.run))
}

pub open spec fn has_handle(hs: Seq<(i32, u64)>, id: i32) -> bool {
    exists|i: int| 0 <= i < hs.len() && (#[trigger] hs[i]).0 == id
}

pub open spec fn handle_index(hs: Seq<(i32, u64)>, id: i32) -> int {
    choose|i: int| 0 <= i < hs.len() && (#[trigger] hs[i]).0 == id
}

/// The run number after `run`; it wraps, since a new run is only handed
/// to a stream that has no pipeline.
pub open spec fn next_run_after(run: u64) -> u64 {
    if run == u64::MAX {
        0
    } else {
        (run + 1) as u64
    }
}

/// An intent starts a pipeline: the stream is known, the intent is a start,
/// and the stream has no pipeline yet.
pub open spec fn intent_launches(hs: Seq<(i32, u64)>, rows: Seq<IpcView>, msg: Intent) -> bool {
    has_id(rows, msg.id) && msg.desired == 1 && !has_handle(hs, msg.id)
}

/// The handles after an intent: a stop for a stream with a pipeline removes
/// its handle, a start that launches appends a handle of run `run`, and
/// anything else leaves the handles as they are.
pub open spec fn intent_handles(hs: Seq<(i32, u64)>, rows: Seq<IpcView>, msg: Intent, run: u64) -> Seq<
    (i32, u64),
> {
    if !has_id(rows, msg.id) {
        hs
    } else if msg.desired == 0 && has_handle(hs, msg.id) {
        hs.remove(handle_index(hs, msg.id))
    } else if intent_launches(hs, rows, msg) {
        hs.push((msg.id, run))
    } else {
        hs
    }
}

/// The supervisor: the single owner of the live pipelines, at most one per
/// stream, and the run number that the next pipeline gets.
pub struct MyActor {
    pub publisher_list: Vec<Arc<Publisher>>,
    pub next_run: u64,
}

impl MyActor {
    /// At most one handle per stream.
    pub open spec fn wf(&self) -> bool {
        let hs = handle_keys(self.publisher_list@);
        &&& forall|i: int, j: int|
            0 <= i < j < hs.len() ==> (#[trigger] hs[i]).0 != (#[trigger] hs[j]).0
    }

    pub open spec fn handles(&self) -> Seq<(i32, u64)> {
        handle_keys(self.publisher_list@)
    }

    /// A supervisor with no pipelines.
    pub fn new() -> (r: Self)
        ensures
            r.wf(),
            r.handles().len() == 0,
    {
        let r = MyActor { publisher_list: Vec::new(), next_run: 0 };
        assert(r.handles() =~= Seq::empty());
        r
    }

    /// The position of the handle of stream `id`, if there is one.
    pub fn get_index(&self, id: i32) -> (r: Option<usize>)
        ensures
            r matches Some(k) ==> k < self.handles().len() && self.handles()[k as int].0 == id,
            r is None ==> !has_handle(self.handles(), id),
    {
        let mut i: usize = 0;
        while i < self.publisher_list.len()
            invariant
                i <= self.publisher_list.len(),
                forall|j: int| 0 <= j < i ==> self.publisher_list[j].id != id,
            decreases self.publisher_list.len() - i,
        {
            if self.publisher_list[i].id == id {
                return Some(i);
            }
            i = i + 1;
        }
        assert forall|j: int| 0 <= j < self.handles().len() implies (
        #[trigger] self.handles()[j]).0 != id by {
            assert(self.handles()[j].0 == self.publisher_list[j].id);
        }
        None
    }

    /// Handles one intent against the registry. An unknown stream gets
    /// `NOT_FOUND` and changes nothing. Stop (0) raises the stop signal of the
    /// stream's pipeline and forgets it; without one it does nothing. Start (1)
    /// registers a new handle before anything runs and hands back the launch,
    /// unless the stream already has a pipeline. Other values change nothing.
    /// Every intent for a known stream is answered with its identity.
    pub fn handle(&mut self, registry: &IpcService, msg: Intent) -> (r: (i32, Option<Launch>))
        requires
            old(self).wf(),
            registry_wf(registry@),
        ensures
            final(self).wf(),
            r.0 == if has_id(registry@.rows, msg.id) {
                msg.id
            } else {
                NOT_FOUND
            },
            final(self).handles() == intent_handles(
                old(self).handles(),
                registry@.rows,
                msg,
                old(self).next_run,
            ),
            r.1 is Some <==> intent_launches(old(self).handles(), registry@.rows, msg),
            final(self).next_run == if intent_launches(old(self).handles(), registry@.rows, msg) {
                next_run_after(old(self).next_run)
            } else {
                old(self).next_run
            },
            r.1 matches Some(l) ==> l.publisher.id == msg.id && l.publisher.run == old(self).next_run
                && l.input_url@ == lookup_id(registry@.rows, msg.id)->0.rtsp && l.output_url@
                == lookup_id(registry@.rows, msg.id)->0.rtmp,
    {
        let id = msg.id;
        let ipc = match registry.get(id) {
            None => {
                return (NOT_FOUND, None);
            },
            Some(ipc) => ipc,
        };
        if msg.desired == 0 {
            match self.get_index(id) {
                None => {},
                Some(index) => {
                    let ghost before = self.handles();
                    proof {
                        self.lemma_handle_index(id, index as int);
                    }
                    let stopped = self.publisher_list[index].stop();
                    if stopped {
                        self.publisher_list.remove(index);
                        assert(self.handles() =~= before.remove(index as int));
                        assert forall|i: int, j: int|
                            0 <= i < j < self.handles().len() implies (
                            #[trigger] self.handles()[i]).0 != (#[trigger] self.handles()[j]).0 by {
                            let bi = if i < index { i } else { i + 1 };
                            let bj = if j < index { j } else { j + 1 };
                            assert(self.handles()[i] == before[bi]);
                            assert(self.handles()[j] == before[bj]);
                        }
                    }
                },
            }
            (id, None)
        } else if msg.desired == 1 {
            if let Some(index) = self.get_index(id) {
                return (id, None);
            }
            let ghost before = self.handles();
            let run = self.next_run;
            let cmd = Arc::new(Publisher::for_run(id, run));
            self.publisher_list.push(cmd.clone());
            self.next_run = if run == u64::MAX {
                0
            } else {
                run + 1
            };
            assert(self.handles() =~= before.push((id, run)));
            assert forall|i: int, j: int|
                0 <= i < j < self.handles().len() implies (#[trigger] self.handles()[i]).0 != (
            #[trigger] self.handles()[j]).0 by {
                if j == before.len() {
                    assert(self.handles()[i] == before[i]);
                }
            }
            (id, Some(Launch { publisher: cmd, input_url: ipc.rtsp, output_url: ipc.rtmp }))
        } else {
            (id, None)
        }
    }

    proof fn lemma_handle_index(&self, id: i32, k: int)
        requires
            self.wf(),
            0 <= k < self.handles().len(),
            self.handles()[k].0 == id,
        ensures
            has_handle(self.handles(), id),
            handle_index(self.handles(), id) == k,
    {
        let hs = self.handles();
        let j = handle_index(hs, id);
        if j != k {
            if j < k {
                assert(hs[j].0 != hs[k].0);
            } else {
                assert(hs[k].0 != hs[j].0);
            }
        }
    }

    /// Forgets the handle of run `run` of stream `id` once its worker has
    /// returned; a handle of another run of the stream stays.
    pub fn finish(&mut self, id: i32, run: u64) -> (removed: bool)
        requires
            old(self).wf(),
        ensures
            final(self).wf(),
            final(self).next_run == old(self).next_run,
            removed == old(self).handles().contains((id, run)),
            removed ==> final(self).handles() == old(self).handles().remove(
                handle_index(old(self).handles(), id),
            ),
            !removed ==> final(self).handles() == old(self).handles(),
    {
        match self.get_index(id) {
            None => {
                assert(!old(self).handles().contains((id, run)));
                false
            },
            Some(index) => {
                proof {
                    self.lemma_handle_index(id, index as int);
                }
                if self.publisher_list[index].run != run {
                    assert forall|i: int| 0 <= i < self.handles().len() implies self.handles()[i]
                        != (id, run) by {
                        if self.handles()[i].0 == id {
                            self.lemma_handle_index(id, i);
                        }
                    }
                    return false;
                }
                let ghost before = self.handles();
                self.publisher_list.remove(index);
                assert(before[index as int] == (id, run));
                assert(self.handles() =~= before.remove(index as int));
                assert forall|i: int, j: int|
                    0 <= i < j < self.handles().len() implies (#[trigger] self.handles()[i]).0 != (
                #[trigger] self.handles()[j]).0 by {
                    let bi = if i < index { i } else { i + 1 };
                    let bj = if j < index { j } else { j + 1 };
                    assert(self.handles()[i] == before[bi]);
                    assert(self.handles()[j] == before[bj]);
                }
                true
            },
        }
    }
}

/// The value of a pipeline outcome: `Err` carries the failure's text.
pub open spec fn outcome_view(o: Result<(), String>) -> Result<(), Seq<char>> {
    match o {
        Ok(_) => Ok(()),
        Err(m) => Err(m@),
    }
}

/// A record after its pipeline returned: no longer wanted running, stamped
/// with `now`; a clean end clears the failure and the retry count, a failure
/// is recorded and the retry count kept.
pub open spec fn settled(x: IpcView, outcome: Result<(), Seq<char>>, now: i64) -> IpcView {
    match outcome {
        Ok(_) => IpcView { enable: 0, update_time: Some(now), reason: None, retry_count: 0, ..x },
        Err(m) => IpcView { enable: 0, update_time: Some(now), reason: Some(m), ..x },
    }
}

/// Records the outcome of a pipeline run of stream `id` in the registry,
/// re-reading the record first. Returns the number of records updated: 0
/// where the record is gone.
pub fn settle(registry: &mut IpcService, id: i32, outcome: &Result<(), String>, now: i64) -> (r:
    Result<usize, StorageError>)
    requires
        registry_wf(old(registry)@),
    ensures
        registry_wf(final(registry)@),
        !has_id(old(registry)@.rows, id) ==> r == Ok::<usize, StorageError>(0) && final(registry)@
            == old(registry)@,
        has_id(old(registry)@.rows, id) ==> r == Ok::<usize, StorageError>(1) && final(registry)@
            == updated(
            old(registry)@,
            settled(lookup_id(old(registry)@.rows, id)->0, outcome_view(*outcome), now),
        ),
{
    let mut ipc = match registry.get(id) {
        None => {
            return Ok(0);
        },
        Some(ipc) => ipc,
    };
    let ghost v = registry@;
    let ghost k = index_of_id(v.rows, id);
    ipc.enable = 0;
    ipc.update_time = Some(now);
    match outcome {
        Ok(()) => {
            ipc.reason = None;
            ipc.retry_count = 0;
        },
        Err(m) => {
            ipc.reason = Some(m.clone());
        },
    }
    assert(ipc@ == settled(lookup_id(v.rows, id)->0, outcome_view(*outcome), now));
    assert(!key_taken_by_other(v.rows, id, ipc.key@)) by {
        assert forall|i: int| 0 <= i < v.rows.len() && #[trigger] v.rows[i].key == ipc.key@ implies v.rows[i].id == id by {
            if i < k {
                assert(v.rows[i].key != v.rows[k].key);
            } else if k < i {
                assert(v.rows[k].key != v.rows[i].key);
            }
        }
    }
    registry.update(ipc)
}

/// Outcome to reason: after a run of stream `id` is recorded, the stream is
/// no longer wanted running; a failure's text is its reason and its retry
/// count is unchanged, a clean end leaves no reason and a zero retry count.
pub proof fn lemma_outcome_recorded(
    v: RegistryView,
    id: i32,
    outcome: Result<(), Seq<char>>,
    now: i64,
)
    requires
        registry_wf(v),
        has_id(v.rows, id),
    ensures
        ({
            let before = lookup_id(v.rows, id)->0;
            let after = updated(v, settled(before, outcome, now));
            &&& registry_wf(after)
            &&& lookup_id(after.rows, id) matches Some(x) && x.enable == 0 && match outcome {
                Ok(_) => x.reason is None && x.retry_count == 0,
                Err(m) => x.reason == Some(m) && x.retry_count == before.retry_count,
            }
        }),
{
    let k = index_of_id(v.rows, id);
    let before = v.rows[k];
    let s = settled(before, outcome, now);
    assert(!key_taken_by_other(v.rows, id, s.key)) by {
        assert forall|i: int| 0 <= i < v.rows.len() && #[trigger] v.rows[i].key == s.key implies v.rows[i].id == id by {
            if i < k {
                assert(v.rows[i].key != v.rows[k].key);
            } else if k < i {
                assert(v.rows[k].key != v.rows[i].key);
            }
        }
    }
    lemma_updated_keeps_order(v, s);
    let after = updated(v, s);
    assert(after.rows[k].id == id);
    lemma_unique_id_index(after.rows, after.next_id, id, k);
}

/// At most one handle per stream.
pub open spec fn handles_unique(hs: Seq<(i32, u64)>) -> bool {
    forall|i: int, j: int| 0 <= i < j < hs.len() ==> (#[trigger] hs[i]).0 != (#[trigger] hs[j]).0
}

/// Supervisor idempotence: a stop intent for a stream without a pipeline
/// changes nothing; of two start intents in succession for a stream, the
/// second launches nothing and changes nothing, and afterwards a known
/// stream has its one pipeline.
pub proof fn lemma_intent_idempotent(hs: Seq<(i32, u64)>, rows: Seq<IpcView>, id: i32, run: u64)
    requires
        handles_unique(hs),
    ensures
        !has_handle(hs, id) ==> intent_handles(hs, rows, Intent { id, desired: 0 }, run) == hs
            && !intent_launches(hs, rows, Intent { id, desired: 0 }),
        ({
            let start = Intent { id, desired: 1 };
            let h1 = intent_handles(hs, rows, start, run);
            let run1: u64 = if intent_launches(hs, rows, start) {
                next_run_after(run)
            } else {
                run
            };
            &&& !intent_launches(h1, rows, start)
            &&& intent_handles(h1, rows, start, run1) == h1
            &&& handles_unique(h1)
            &&& has_id(rows, id) ==> has_handle(h1, id)
        }),
{
    let start = Intent { id, desired: 1 };
    let h1 = intent_handles(hs, rows, start, run);
    if intent_launches(hs, rows, start) {
        assert(h1 == hs.push((id, run)));
        assert(h1[hs.len() as int].0 == id);
        assert forall|i: int, j: int| 0 <= i < j < h1.len() implies (#[trigger] h1[i]).0 != (
        #[trigger] h1[j]).0 by {
            if j == hs.len() {
                assert(h1[i] == hs[i]);
            } else {
                assert(h1[i] == hs[i] && h1[j] == hs[j]);
            }
        }
    }
}

} // verus!
