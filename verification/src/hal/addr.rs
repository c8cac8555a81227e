//! Physical and virtual addresses, kept apart by the type system.
//!
//! Mixing the two is the classic kernel bug: writing a physical address
//! where the code meant a virtual one, and finding out only when the machine
//! faults. They are both 64-bit numbers, so nothing but a type can tell them
//! apart.

use crate::hal::hex::{alternate_hex, lower_hex};
use vstd::prelude::*;
use vstd::std_specs::ops::AddSpec;
use vstd::string::*;

verus! {

use crate::hal::hex::{hex_digits, prefixed_hex};

/// A physical address.
#[derive(Debug, Clone, Copy, PartialEq, Eq, Structural, PartialOrd, Ord, Hash)]
pub struct PhysAddr(pub u64);

impl PhysAddr {
    pub fn new(addr: u64) -> (r: Self)
        returns
            PhysAddr(addr),
    {
        PhysAddr(addr)
    }

    pub fn as_u64(self) -> (r: u64)
        returns
            self.0,
    {
        self.0
    }

    /// Whether the address is a multiple of `align`. Only address zero is a
    /// multiple of zero.
    pub fn is_aligned_to(self, align: u64) -> (r: bool)
        ensures
            r == if align == 0 {
                self.0 == 0
            } else {
                self.0 % align == 0
            },
    {
        self.0.is_multiple_of(align)
    }

    /// Rounds down to a multiple of `align`.
    pub fn align_down(self, align: u64) -> (r: Self)
        requires
            align != 0,
        ensures
            r.0 == self.0 - self.0 % align,
            r.0 % align == 0,
            r.0 <= self.0 < r.0 + align,
    {
        proof {
            let a = self.0 as int;
            let d = align as int;
            vstd::arithmetic::div_mod::lemma_fundamental_div_mod(a, d);
            vstd::arithmetic::div_mod::lemma_mod_bound(a, d);
            vstd::arithmetic::div_mod::lemma_mod_multiples_basic(a / d, d);
            vstd::arithmetic::mul::lemma_mul_is_commutative(a / d, d);
        }
        PhysAddr(self.0 - self.0 % align)
    }

    /// `None` on overflow: addresses come from firmware data and from
    /// arithmetic that must not wrap.
    pub fn checked_add(self, offset: u64) -> (r: Option<Self>)
        ensures
            r == if self.0 + offset <= u64::MAX {
                Some(PhysAddr((self.0 + offset) as u64))
            } else {
                None
            },
    {
        match self.0.checked_add(offset) {
            Some(addr) => Some(PhysAddr(addr)),
            None => None,
        }
    }

    /// How far `self` is past `earlier`, or 0 if it is not.
    pub fn saturating_sub(self, earlier: Self) -> (r: u64)
        ensures
            r == if self.0 >= earlier.0 {
                self.0 - earlier.0
            } else {
                0
            },
    {
        self.0.saturating_sub(earlier.0)
    }

    /// The bare number in hexadecimal.
    pub fn to_lower_hex(self) -> (r: String)
        ensures
            r@ == hex_digits(self.0 as nat),
    {
        lower_hex(self.0)
    }

    /// How the address reads in a log: hexadecimal, with its prefix.
    pub fn to_display(self) -> (r: String)
        ensures
            r@ == prefixed_hex(self.0 as nat),
    {
        alternate_hex(self.0)
    }

    /// The same, saying which kind of address it is.
    pub fn to_debug(self) -> (r: String)
        ensures
            r@ == "PhysAddr("@ + prefixed_hex(self.0 as nat) + ")"@,
    {
        let mut text = String::from_str("PhysAddr(");
        let number = alternate_hex(self.0);
        text.append(number.as_str());
        text.append(")");
        text
    }
}

impl core::ops::Add<u64> for PhysAddr {
    type Output = PhysAddr;

    fn add(self, offset: u64) -> (r: PhysAddr) {
        PhysAddr(self.0 + offset)
    }
}

impl vstd::std_specs::ops::AddSpecImpl<u64> for PhysAddr {
    open spec fn obeys_add_spec() -> bool {
        true
    }

    open spec fn add_req(self, offset: u64) -> bool {
        self.0 + offset <= u64::MAX
    }

    open spec fn add_spec(self, offset: u64) -> PhysAddr {
        PhysAddr((self.0 + offset) as u64)
    }
}

/// A virtual address.
#[derive(Debug, Clone, Copy, PartialEq, Eq, Structural, PartialOrd, Ord, Hash)]
pub struct VirtAddr(pub u64);

impl VirtAddr {
    pub fn new(addr: u64) -> (r: Self)
        returns
            VirtAddr(addr),
    {
        VirtAddr(addr)
    }

    pub fn as_u64(self) -> (r: u64)
        returns
            self.0,
    {
        self.0
    }

    /// Whether the address is a multiple of `align`. Only address zero is a
    /// multiple of zero.
    pub fn is_aligned_to(self, align: u64) -> (r: bool)
        ensures
            r == if align == 0 {
                self.0 == 0
            } else {
                self.0 % align == 0
            },
    {
        self.0.is_multiple_of(align)
    }

    /// Rounds down to a multiple of `align`.
    pub fn align_down(self, align: u64) -> (r: Self)
        requires
            align != 0,
        ensures
            r.0 == self.0 - self.0 % align,
            r.0 % align == 0,
            r.0 <= self.0 < r.0 + align,
    {
        proof {
            let a = self.0 as int;
            let d = align as int;
            vstd::arithmetic::div_mod::lemma_fundamental_div_mod(a, d);
            vstd::arithmetic::div_mod::lemma_mod_bound(a, d);
            vstd::arithmetic::div_mod::lemma_mod_multiples_basic(a / d, d);
            vstd::arithmetic::mul::lemma_mul_is_commutative(a / d, d);
        }
        VirtAddr(self.0 - self.0 % align)
    }

    /// `None` on overflow: addresses come from firmware data and from
    /// arithmetic that must not wrap.
    pub fn checked_add(self, offset: u64) -> (r: Option<Self>)
        ensures
            r == if self.0 + offset <= u64::MAX {
                Some(VirtAddr((self.0 + offset) as u64))
            } else {
                None
            },
    {
        match self.0.checked_add(offset) {
            Some(addr) => Some(VirtAddr(addr)),
            None => None,
        }
    }

    /// How far `self` is past `earlier`, or 0 if it is not.
    pub fn saturating_sub(self, earlier: Self) -> (r: u64)
        ensures
            r == if self.0 >= earlier.0 {
                self.0 - earlier.0
            } else {
                0
            },
    {
        self.0.saturating_sub(earlier.0)
    }

    /// The bare number in hexadecimal.
    pub fn to_lower_hex(self) -> (r: String)
        ensures
            r@ == hex_digits(self.0 as nat),
    {
        lower_hex(self.0)
    }

    /// How the address reads in a log: hexadecimal, with its prefix.
    pub fn to_display(self) -> (r: String)
        ensures
            r@ == prefixed_hex(self.0 as nat),
    {
        alternate_hex(self.0)
    }

    /// The same, saying which kind of address it is.
    pub fn to_debug(self) -> (r: String)
        ensures
            r@ == "VirtAddr("@ + prefixed_hex(self.0 as nat) + ")"@,
    {
        let mut text = String::from_str("VirtAddr(");
        let number = alternate_hex(self.0);
        text.append(number.as_str());
        text.append(")");
        text
    }
}

impl core::ops::Add<u64> for VirtAddr {
    type Output = VirtAddr;

    fn add(self, offset: u64) -> (r: VirtAddr) {
        VirtAddr(self.0 + offset)
    }
}

impl vstd::std_specs::ops::AddSpecImpl<u64> for VirtAddr {
    open spec fn obeys_add_spec() -> bool {
        true
    }

    open spec fn add_req(self, offset: u64) -> bool {
        self.0 + offset <= u64::MAX
    }

    open spec fn add_spec(self, offset: u64) -> VirtAddr {
        VirtAddr((self.0 + offset) as u64)
    }
}

/// An address and an offset are as far apart as the offset, and nothing else
/// is.
pub proof fn an_offset_is_a_distance(a: PhysAddr, b: VirtAddr, offset: u64)
    requires
        a.0 + offset <= u64::MAX,
        b.0 + offset <= u64::MAX,
    ensures
        a.add_spec(offset).0 - a.0 == offset,
        b.add_spec(offset).0 - b.0 == offset,
        a.add_req(offset) && b.add_req(offset),
{
}

} // verus!
