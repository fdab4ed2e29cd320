//! Lock diagnostics when lock instrumentation is compiled out: nothing is
//! tracked, so there is nothing to report.

use vstd::prelude::*;
use crate::model::GraphSnapshot;
use crate::wait_edges::LockSnapshot;

verus! {

/// The snapshot of the tracked locks: empty, since none are tracked.
pub fn snapshot_lock_diagnostics() -> (s: LockSnapshot)
    ensures
        s.locks@.len() == 0,
{
    LockSnapshot { locks: Vec::new() }
}

/// The text dump of the tracked locks: empty, since none are tracked.
pub fn dump_lock_diagnostics() -> (s: String)
    ensures
        s@.len() == 0,
{
    String::new()
}

/// The lock graph of a process: the empty snapshot, since no lock is tracked.
pub fn emit_lock_graph(process_name: &str, proc_key: &str) -> (g: GraphSnapshot)
    ensures
        g.process_name@.len() == 0,
        g.proc_key@.len() == 0,
        g.nodes@.len() == 0,
        g.edges@.len() == 0,
        g.events is None,
{
    GraphSnapshot::empty()
}

} // verus!
