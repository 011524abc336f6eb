//! The page table: where each column's page for each batch lies.
//!
//! A file stores, at a position derivable from the schema and batch count, a
//! block of `2 * num_columns * num_batches` little-endian signed 64-bit
//! integers, column-major: for column `c` and batch `b`, the integers at
//! flat index `(c * num_batches + b) * 2` and the one after are the page's
//! byte position and its element count.

use vstd::prelude::*;

verus! {

use crate::Error;
use crate::num::{read_i64_le, spec_i64_le};

/// Byte position and element count of one page.
#[derive(Debug, Clone, Copy, PartialEq, Eq, Structural)]
pub struct PageInfo(pub i64, pub i64);

/// All page positions and lengths of one file, column-major.
pub struct PageTable {
    /// One `PageInfo` per (column, batch) pair, column-major.
    pub entries: Vec<PageInfo>,
    /// Number of columns the table was built for.
    pub num_columns: usize,
    /// Number of batches the table was built for.
    pub num_batches: usize,
}

/// The two integers at flat entry `k` of the block at `position` spell out
/// the page described by `e`.
pub open spec fn entry_ok(file: Seq<u8>, position: int, k: int, e: PageInfo) -> bool {
    &&& e.0 as int == spec_i64_le(file.subrange(position + 16 * k, position + 16 * k + 8))
    &&& e.1 as int == spec_i64_le(file.subrange(position + 16 * k + 8, position + 16 * k + 16))
}

impl PageTable {
    /// One entry per (column, batch) pair.
    pub open spec fn wf(self) -> bool {
        self.entries@.len() == self.num_columns * self.num_batches
    }

    /// The number of columns the table was built for.
    pub open spec fn spec_num_columns(self) -> int {
        self.num_columns as int
    }

    /// The number of batches the table was built for.
    pub open spec fn spec_num_batches(self) -> int {
        self.num_batches as int
    }

    /// The entry stored for column `c` and batch `b`.
    pub open spec fn spec_entry(self, c: int, b: int) -> PageInfo {
        self.entries@[c * self.num_batches + b]
    }

    /// Reads the whole page table block that starts at byte `position`.
    ///
    /// Fails exactly when the file cannot hold `2 * num_columns *
    /// num_batches` little-endian 64-bit integers from `position` on.
    pub fn make(file: &Vec<u8>, position: usize, num_columns: usize, num_batches: usize) -> (r:
        Result<PageTable, Error>)
        ensures
            match r {
                Ok(t) => {
                    &&& t.wf()
                    &&& t.spec_num_columns() == num_columns
                    &&& t.spec_num_batches() == num_batches
                    &&& position + 16 * (num_columns * num_batches) <= file@.len()
                    &&& forall|k: int|
                        0 <= k < num_columns * num_batches ==> entry_ok(
                            file@,
                            position as int,
                            k,
                            #[trigger] t.entries@[k],
                        )
                },
                Err(e) => {
                    &&& e == Error::TruncatedRead
                    &&& position + 16 * (num_columns * num_batches) > file@.len()
                },
            },
    {
        let n = file.len();
        let total = match num_columns.checked_mul(num_batches) {
            Some(t) => t,
            None => {
                return Err(Error::TruncatedRead);
            },
        };
        if position > n {
            return Err(Error::TruncatedRead);
        }
        let mut entries: Vec<PageInfo> = Vec::new();
        let mut pos = position;
        while entries.len() < total
            invariant
                n == file@.len(),
                entries@.len() <= total,
                total == num_columns * num_batches,
                pos == position + 16 * entries@.len(),
                pos <= n,
                forall|k: int|
                    0 <= k < entries@.len() ==> entry_ok(
                        file@,
                        position as int,
                        k,
                        #[trigger] entries@[k],
                    ),
            decreases total - entries@.len(),
        {
            if pos > n || n - pos < 16 {
                return Err(Error::TruncatedRead);
            }
            let lo = read_i64_le(file, pos);
            let hi = read_i64_le(file, pos + 8);
            entries.push(PageInfo(lo, hi));
            pos = pos + 16;
        }
        proof {
            assert(16 * (num_columns * num_batches) == 16 * total as int);
        }
        Ok(PageTable { entries, num_columns, num_batches })
    }

    /// Overwrites the entry of column `col` and batch `batch`.
    pub fn set_page_info(&mut self, col: usize, batch: usize, position: i64, length: i64)
        requires
            old(self).wf(),
            col < old(self).spec_num_columns(),
            batch < old(self).spec_num_batches(),
        ensures
            final(self).wf(),
            final(self).spec_num_columns() == old(self).spec_num_columns(),
            final(self).spec_num_batches() == old(self).spec_num_batches(),
            final(self).entries@ == old(self).entries@.update(
                col * old(self).spec_num_batches() + batch,
                PageInfo(position, length),
            ),
    {
        let bound = self.entries.len();
        proof {
            assert(col * self.num_batches + batch < self.num_columns * self.num_batches)
                by (nonlinear_arith)
                requires
                    col < self.num_columns,
                    batch < self.num_batches,
            ;
        }
        let idx = col * self.num_batches + batch;
        self.entries[idx] = PageInfo(position, length);
    }
}

/// A built table answers a lookup of column `c` and batch `b` with exactly
/// the integer pair written at flat entry `c * num_batches + b` of the
/// on-disk block, for every in-range pair.
pub proof fn lemma_lookup_reads_block(file: Seq<u8>, position: int, t: PageTable, c: int, b: int)
    requires
        t.wf(),
        0 <= c < t.spec_num_columns(),
        0 <= b < t.spec_num_batches(),
        forall|k: int|
            0 <= k < t.spec_num_columns() * t.spec_num_batches() ==> entry_ok(
                file,
                position,
                k,
                #[trigger] t.entries@[k],
            ),
    ensures
        entry_ok(file, position, c * t.spec_num_batches() + b, t.spec_entry(c, b)),
{
    assert(0 <= c * t.spec_num_batches() + b < t.spec_num_columns() * t.spec_num_batches())
        by (nonlinear_arith)
        requires
            0 <= c < t.spec_num_columns(),
            0 <= b < t.spec_num_batches(),
    ;
}

/// The page of column `column_id` in batch `batch_id`.
///
/// The caller must already have validated both indices against the table's
/// dimensions.
pub fn get_page_info(table: &PageTable, column_id: usize, batch_id: usize) -> (r: PageInfo)
    requires
        table.wf(),
        column_id < table.spec_num_columns(),
        batch_id < table.spec_num_batches(),
    ensures
        r == table.spec_entry(column_id as int, batch_id as int),
{
    let bound = table.entries.len();
    proof {
        assert(column_id * table.num_batches + batch_id < table.num_columns * table.num_batches)
            by (nonlinear_arith)
            requires
                column_id < table.num_columns,
                batch_id < table.num_batches,
        ;
    }
    let idx = column_id * table.num_batches + batch_id;
    table.entries[idx]
}

} // verus!
