//! Batching of decoded rows: rows accumulate into a bounded chunk of row
//! numbers and row data, handed out whole once full (or at the end of the
//! stream, as a final partial chunk).
use vstd::prelude::*;

use crate::cell::CellValue;
use crate::RowNum;

verus! {

/// A bounded accumulator of decoded rows.
pub struct RowBatch {
    /// The chunk size; a full batch holds this many rows.
    pub cap: usize,
    /// The accumulated row numbers.
    pub nums: Vec<RowNum>,
    /// The accumulated row data, aligned with `nums`.
    pub rows: Vec<Vec<CellValue>>,
}

impl RowBatch {
    /// The numbers and the data stay aligned.
    pub open spec fn wf(&self) -> bool {
        self.nums@.len() == self.rows@.len()
    }

    /// An empty batch of the given chunk size.
    pub fn new(cap: usize) -> (r: RowBatch)
        ensures
            r.cap == cap,
            r.nums@ == Seq::<RowNum>::empty(),
            r.rows@ == Seq::<Vec<CellValue>>::empty(),
            r.wf(),
    {
        RowBatch { cap, nums: Vec::new(), rows: Vec::new() }
    }

    /// How many rows the batch holds.
    pub fn len(&self) -> (r: usize)
        ensures
            r == self.nums@.len(),
    {
        self.nums.len()
    }

    /// Append one row; reports whether the batch is now full.
    pub fn push(&mut self, num: RowNum, row: Vec<CellValue>) -> (full: bool)
        requires
            old(self).wf(),
        ensures
            final(self).wf(),
            final(self).cap == old(self).cap,
            final(self).nums@ == old(self).nums@.push(num),
            final(self).rows@ == old(self).rows@.push(row),
            full == (old(self).nums@.len() + 1 >= old(self).cap),
    {
        self.nums.push(num);
        self.rows.push(row);
        self.nums.len() >= self.cap
    }

    /// Hand the accumulated chunk out and reset; `None` when nothing has
    /// accumulated.
    pub fn take(&mut self) -> (r: Option<(Vec<RowNum>, Vec<Vec<CellValue>>)>)
        ensures
            final(self).cap == old(self).cap,
            final(self).nums@ == Seq::<RowNum>::empty(),
            final(self).rows@ == Seq::<Vec<CellValue>>::empty(),
            final(self).wf(),
            match r {
                Some(p) => old(self).nums@.len() > 0 && p.0@ == old(self).nums@ && p.1@ == old(
                    self,
                ).rows@,
                None => old(self).nums@.len() == 0,
            },
    {
        if self.nums.len() == 0 {
            self.nums = Vec::new();
            self.rows = Vec::new();
            return None;
        }
        let nums = self.nums.split_off(0);
        let rows = self.rows.split_off(0);
        proof {
            assert(nums@ =~= old(self).nums@);
            assert(rows@ =~= old(self).rows@);
            assert(self.nums@ =~= Seq::<RowNum>::empty());
            assert(self.rows@ =~= Seq::<Vec<CellValue>>::empty());
        }
        Some((nums, rows))
    }
}

} // verus!
