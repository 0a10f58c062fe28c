//! Process-identity bookkeeping: a process id with explicit set-once
//! semantics, held by its owner instead of living in global mutable state.

use vstd::prelude::*;

verus! {

/// The identity of the running process, as assigned by the platform.
pub struct ProcessId {
    value: u32,
}

impl ProcessId {
    pub closed spec fn spec_id(self) -> u32 {
        self.value
    }

    /// An identity that has not been assigned yet.
    pub fn new() -> (r: ProcessId)
        ensures
            r.spec_id() == 0,
    {
        ProcessId { value: 0 }
    }

    /// The current process id.
    pub fn id(&self) -> (r: u32)
        ensures
            r == self.spec_id(),
    {
        self.value
    }

    /// Records the process id assigned by the platform.
    pub fn set_id(&mut self, id: u32)
        ensures
            final(self).spec_id() == id,
    {
        self.value = id;
    }
}

} // verus!
