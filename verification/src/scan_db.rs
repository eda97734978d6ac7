//! The scan task's durable rows: the next block to scan, and outputs queued
//! to surface once a later block is reached.

use vstd::prelude::*;

use crate::keyed::KeyedStore;

verus! {

/// One received output awaiting its block, in its canonical encoded form.
#[derive(Clone, PartialEq, Eq, Debug)]
pub struct QueuedOutput(pub Vec<u8>);

/// Copy a list of queued outputs, byte for byte.
fn clone_outputs(v: &Vec<QueuedOutput>) -> (r: Vec<QueuedOutput>)
    ensures
        r@.len() == v@.len(),
        forall|k: int| 0 <= k < v@.len() ==> (#[trigger] r@[k]).0@ == v@[k].0@,
{
    let mut r: Vec<QueuedOutput> = Vec::new();
    let mut i: usize = 0;
    while i < v.len()
        invariant
            i <= v@.len(),
            r@.len() == i,
            forall|k: int| 0 <= k < i ==> (#[trigger] r@[k]).0@ == v@[k].0@,
        decreases v@.len() - i,
    {
        let bytes = vstd::slice::slice_to_vec(v[i].0.as_slice());
        r.push(QueuedOutput(bytes));
        i += 1;
    }
    r
}

/// The scan task's durable rows.
pub struct ScanDb {
    next_to_scan_for_outputs_block: Option<u64>,
    queued_outputs: KeyedStore<u64, Vec<QueuedOutput>>,
}

impl ScanDb {
    /// The keyed store is well formed.
    pub closed spec fn wf(self) -> bool {
        self.queued_outputs.wf()
    }

    /// The next block to scan for received outputs.
    pub closed spec fn spec_next_to_scan(self) -> Option<u64> {
        self.next_to_scan_for_outputs_block
    }

    /// The outputs queued until a block.
    pub closed spec fn spec_queued(self, block: u64) -> Seq<QueuedOutput> {
        match self.queued_outputs.spec_get(block) {
            Some(v) => v@,
            None => Seq::empty(),
        }
    }

    /// Create empty rows.
    pub fn new() -> (r: ScanDb)
        ensures
            r.wf(),
            r.spec_next_to_scan() is None,
            forall|b: u64| r.spec_queued(b) == Seq::<QueuedOutput>::empty(),
    {
        ScanDb { next_to_scan_for_outputs_block: None, queued_outputs: KeyedStore::new() }
    }

    /// Record the next block to scan.
    pub fn set_next_to_scan_for_outputs_block(&mut self, block: u64)
        requires
            old(self).wf(),
        ensures
            final(self).wf(),
            final(self).spec_next_to_scan() == Some(block),
            forall|b: u64| final(self).spec_queued(b) == old(self).spec_queued(b),
    {
        self.next_to_scan_for_outputs_block = Some(block);
    }

    /// The next block to scan.
    pub fn next_to_scan_for_outputs_block(&self) -> (r: Option<u64>)
        ensures
            r == self.spec_next_to_scan(),
    {
        self.next_to_scan_for_outputs_block
    }

    /// Queue an output to surface once the given block is reached.
    pub fn queue_output_until_block(&mut self, queue_for_block: u64, output: QueuedOutput)
        requires
            old(self).wf(),
        ensures
            final(self).wf(),
            final(self).spec_queued(queue_for_block) == old(self).spec_queued(
                queue_for_block,
            ).push(output),
            forall|b: u64| b != queue_for_block ==> final(self).spec_queued(b) == old(
                self,
            ).spec_queued(b),
            final(self).spec_next_to_scan() == old(self).spec_next_to_scan(),
    {
        let existing = self.queued_outputs.remove(queue_for_block);
        let mut list = match existing {
            Some(v) => v,
            None => Vec::new(),
        };
        list.push(output);
        self.queued_outputs.set(queue_for_block, list);
        proof {
            if old(self).queued_outputs.spec_get(queue_for_block) is None {
                assert(final(self).spec_queued(queue_for_block) =~= old(self).spec_queued(
                    queue_for_block,
                ).push(output));
            }
        }
    }

    /// Read every output queued for a block, in queue order. Despite the
    /// name, the queued outputs stay stored: the scan advances past the
    /// block and never asks for it again, so nothing reclaims the row here.
    pub fn take_queued_outputs(&self, block_number: u64) -> (r: Vec<QueuedOutput>)
        requires
            self.wf(),
        ensures
            r@.len() == self.spec_queued(block_number).len(),
            forall|k: int|
                0 <= k < r@.len() ==> (#[trigger] r@[k]).0@ == self.spec_queued(
                    block_number,
                )[k].0@,
    {
        match self.queued_outputs.get(block_number) {
            Some(v) => clone_outputs(v),
            None => Vec::new(),
        }
    }
}

} // verus!
