use std::sync::atomic::{AtomicI32, Ordering};
use vstd::prelude::*;

verus! {

/// The handle of one pipeline run: the stream's identity, the number that
/// tells this run from earlier runs of the same stream, and the shared stop
/// signal that the worker observes before each read.
pub struct Publisher {
    pub id: i32,
    pub run: u64,
    pub exit_code: AtomicI32,
}

impl Publisher {
    /// A handle for stream `id`, not yet asked to stop.
    pub fn new(id: i32) -> (r: Self)
        ensures
            r.id == id,
            r.run == 0,
    {
        Publisher { id, run: 0, exit_code: AtomicI32::new(0) }
    }

    /// A handle for run `run` of stream `id`, not yet asked to stop.
    pub fn for_run(id: i32, run: u64) -> (r: Self)
        ensures
            r.id == id,
            r.run == run,
    {
        Publisher { id, run, exit_code: AtomicI32::new(0) }
    }

    /// Raises the stop signal and returns at once.
    pub fn stop(&self) -> (r: bool)
        ensures
            r,
    {
        self.exit_code.store(1, Ordering::SeqCst);
        true
    }

    /// Whether the stop signal has been raised.
    pub fn stop_requested(&self) -> bool {
        self.exit_code.load(Ordering::SeqCst) == 1
    }
}

} // verus!
