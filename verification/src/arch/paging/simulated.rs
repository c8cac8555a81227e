//! Table memory that is no hardware: what was written is remembered and read
//! back. A mapper can be run against it, and afterwards every write that it
//! made is there to be looked at.

use super::model::{put, Change, Flush, Memory};
use super::TableAccess;
use vstd::prelude::*;

verus! {

/// One entry that was written.
#[derive(Debug, Clone, Copy, PartialEq, Eq, Structural)]
pub struct TableWrite {
    pub table: u64,
    pub index: usize,
    pub value: u64,
}

/// Memory after some writes, with nothing in it before.
pub open spec fn written(writes: Seq<TableWrite>) -> Memory
    decreases writes.len(),
{
    if writes.len() == 0 {
        |table: u64, index: int| 0u64
    } else {
        put(
            written(writes.drop_last()),
            writes.last().table,
            writes.last().index as int,
            writes.last().value,
        )
    }
}

/// The last write counts for its own entry and for no other; before any write
/// there is nothing.
pub proof fn the_last_write_counts(writes: Seq<TableWrite>, last: TableWrite, table: u64, index: int)
    ensures
        written(Seq::empty())(table, index) == 0,
        written(writes.push(last))(table, index) == if last.table == table && last.index == index {
            last.value
        } else {
            written(writes)(table, index)
        },
{
    assert(writes.push(last).drop_last() =~= writes);
}

/// Table memory made of the writes to it.
pub struct SimulatedMemory {
    pub writes: Vec<TableWrite>,
    pub window: u64,
    /// The pages whose translation was dropped, in order.
    pub flushed: Vec<u64>,
    /// Everything that was dropped, whole caches too.
    pub log: Ghost<Seq<Flush>>,
}

impl SimulatedMemory {
    pub fn new() -> (r: Self)
        ensures
            r.memory() == written(Seq::empty()),
            r.base() == 0,
            r.flushes() == Seq::<Flush>::empty(),
    {
        SimulatedMemory {
            writes: Vec::new(),
            window: 0,
            flushed: Vec::new(),
            log: Ghost(Seq::empty()),
        }
    }
}

impl TableAccess for SimulatedMemory {
    open spec fn memory(&self) -> Memory {
        written(self.writes@)
    }

    open spec fn base(&self) -> u64 {
        self.window
    }

    open spec fn changes(&self) -> Seq<Change> {
        self.writes@.map_values(
            |write: TableWrite|
                Change { table: write.table, index: write.index as int, value: write.value },
        )
    }

    open spec fn flushes(&self) -> Seq<Flush> {
        self.log@
    }

    fn window(&self) -> (r: u64) {
        self.window
    }

    fn set_window(&mut self, base: u64) {
        self.window = base;
    }

    fn read(&self, table: u64, index: usize) -> (r: u64) {
        let mut n: usize = self.writes.len();
        assert(self.writes@.take(n as int) =~= self.writes@);
        while n > 0
            invariant
                n <= self.writes@.len(),
                self.memory()(table, index as int) == written(self.writes@.take(n as int))(
                    table,
                    index as int,
                ),
            decreases n,
        {
            let write = self.writes[n - 1];
            assert(self.writes@.take(n as int).drop_last() =~= self.writes@.take(n - 1));
            if write.table == table && write.index == index {
                return write.value;
            }
            n -= 1;
        }
        0
    }

    fn write(&mut self, table: u64, index: usize, value: u64) {
        let write = TableWrite { table, index, value };
        let ghost before = self.writes@;
        self.writes.push(write);
        assert(self.writes@.drop_last() =~= before);
        assert(self.changes() =~= old(self).changes().push(
            Change { table, index: index as int, value },
        ));
    }

    fn flush(&mut self, va: u64) {
        self.flushed.push(va);
        self.log = Ghost(self.log@.push(Flush::Page(va)));
    }

    fn flush_all(&mut self) {
        self.log = Ghost(self.log@.push(Flush::All));
    }
}

} // verus!
