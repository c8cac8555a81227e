//! Configuration space that is no hardware: a table of what answers where,
//! and a record of every read.

use super::{Address, ConfigSpace, Space};
use vstd::prelude::*;

verus! {

/// One dword of configuration space.
#[derive(Debug, Clone, Copy, PartialEq, Eq, Structural)]
pub struct Dword {
    pub at: Address,
    pub offset: u8,
    pub value: u32,
}

/// What a table of dwords answers, whichever byte of a dword the offset is.
/// Where a dword is listed more than once the first counts; where it is not listed nobody claims the read, so every line
/// is high.
pub open spec fn answer(dwords: Seq<Dword>, at: Address, offset: u8) -> u32
    decreases dwords.len(),
{
    if dwords.len() == 0 {
        0xFFFF_FFFF
    } else if dwords[0].at == at && dwords[0].offset / 4 == offset / 4 {
        dwords[0].value
    } else {
        answer(dwords.drop_first(), at, offset)
    }
}

/// The low two bits of an offset are ignored.
proof fn a_dword_answers_at_each_of_its_bytes(dwords: Seq<Dword>, at: Address, offset: u8)
    ensures
        answer(dwords, at, offset) == answer(dwords, at, (offset - offset % 4) as u8),
    decreases dwords.len(),
{
    if dwords.len() > 0 {
        a_dword_answers_at_each_of_its_bytes(dwords.drop_first(), at, offset);
    }
}

/// A dword that is listed first answers wherever its function and its dword
/// are asked for, and nowhere else.
pub proof fn the_first_dword_listed_answers(dwords: Seq<Dword>, one: Dword, at: Address, offset: u8)
    ensures
        answer(Seq::empty(), at, offset) == 0xFFFF_FFFF,
        answer(seq![one] + dwords, at, offset) == if one.at == at && one.offset / 4 == offset / 4 {
            one.value
        } else {
            answer(dwords, at, offset)
        },
{
    assert((seq![one] + dwords).drop_first() =~= dwords);
}

pub struct SimulatedSpace {
    pub dwords: Vec<Dword>,
    /// Every read that was made, in order.
    pub log: Vec<(Address, u8)>,
}

impl SimulatedSpace {
    pub fn new(dwords: Vec<Dword>) -> (r: Self)
        ensures
            r.dwords == dwords,
            r.reads() == Seq::<(Address, u8)>::empty(),
    {
        SimulatedSpace { dwords, log: Vec::new() }
    }
}

impl ConfigSpace for SimulatedSpace {
    open spec fn space(&self) -> Space {
        |at: Address, offset: u8| answer(self.dwords@, at, offset)
    }

    open spec fn reads(&self) -> Seq<(Address, u8)> {
        self.log@
    }

    fn read_dword(&mut self, at: Address, offset: u8) -> (r: u32) {
        proof {
            a_dword_answers_at_each_of_its_bytes(self.dwords@, at, offset);
        }
        self.log.push((at, offset));
        let mut i: usize = 0;
        assert(self.dwords@.skip(0) =~= self.dwords@);
        while i < self.dwords.len()
            invariant
                i <= self.dwords@.len(),
                self.dwords == old(self).dwords,
                self.log@ == old(self).log@.push((at, offset)),
                answer(self.dwords@, at, offset) == answer(
                    self.dwords@,
                    at,
                    (offset - offset % 4) as u8,
                ),
                answer(self.dwords@, at, offset) == answer(
                    self.dwords@.skip(i as int),
                    at,
                    offset,
                ),
            decreases self.dwords.len() - i,
        {
            let dword = self.dwords[i];
            assert(self.dwords@.skip(i as int).drop_first() =~= self.dwords@.skip(i + 1));
            if dword.at == at && dword.offset / 4 == offset / 4 {
                return dword.value;
            }
            i += 1;
        }
        0xFFFF_FFFF
    }
}

} // verus!
