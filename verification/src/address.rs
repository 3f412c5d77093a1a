//! Virtual addresses and virtual page numbers of the SV39 scheme.

use vstd::prelude::*;
use crate::config::{PAGE_SIZE, VA_WIDTH_SV39};

verus! {

/// Number of distinct SV39 virtual addresses: addresses are kept modulo this.
pub open spec fn va_space() -> nat {
    0x80_0000_0000
}

/// The address that `VirtAddr::from_usize(v)` keeps: the low 39 bits of `v`.
pub open spec fn spec_va_from(v: usize) -> nat {
    (v as nat) % va_space()
}

/// The page that holds address `va`.
pub open spec fn spec_floor(va: nat) -> nat {
    va / (PAGE_SIZE as nat)
}

/// The first page at or above address `va`.
pub open spec fn spec_ceil(va: nat) -> nat {
    (va + (PAGE_SIZE - 1) as nat) / (PAGE_SIZE as nat)
}

/// Whether `va` is the first address of a page.
pub open spec fn spec_aligned(va: nat) -> bool {
    va % (PAGE_SIZE as nat) == 0
}

/// A virtual address.
#[derive(Clone, Copy, Debug, PartialEq, Eq, Structural)]
pub struct VirtAddr(pub usize);

/// A virtual page number.
#[derive(Clone, Copy, Debug, PartialEq, Eq, Structural)]
pub struct VirtPageNum(pub usize);

impl VirtAddr {
    /// Builds an address from an integer, keeping its low 39 bits.
    pub fn from_usize(v: usize) -> (va: VirtAddr)
        ensures
            va.0 == spec_va_from(v),
    {
        let w: u64 = v as u64;
        assert((1u64 << 39u64) == 0x80_0000_0000u64) by (bit_vector);
        let mask: u64 = (1u64 << (VA_WIDTH_SV39 as u64)) - 1;
        assert(w & 0x7f_ffff_ffffu64 == w % 0x80_0000_0000 && w & 0x7f_ffff_ffffu64 <= w)
            by (bit_vector);
        let r = (w & mask) as usize;
        VirtAddr(r)
    }

    /// The offset of the address inside its page.
    pub fn page_offset(&self) -> (off: usize)
        ensures
            off == (self.0 as nat) % (PAGE_SIZE as nat),
    {
        let v = self.0;
        assert(v & 0xfffusize == v % 4096) by (bit_vector);
        v & (PAGE_SIZE - 1)
    }

    /// Whether the address is the first address of a page.
    pub fn aligned(&self) -> (b: bool)
        ensures
            b == spec_aligned(self.0 as nat),
            b == (self.0 % 4096 == 0),
    {
        self.page_offset() == 0
    }

    /// The page that holds this address.
    pub fn floor(&self) -> (vpn: VirtPageNum)
        ensures
            vpn.0 == spec_floor(self.0 as nat),
    {
        VirtPageNum(self.0 / PAGE_SIZE)
    }

    /// The first page at or above this address.
    pub fn ceil(&self) -> (vpn: VirtPageNum)
        ensures
            vpn.0 == spec_ceil(self.0 as nat),
    {
        if self.0 == 0 {
            VirtPageNum(0)
        } else {
            let v = self.0;
            assert((v - 1) / 4096 + 1 == (v + 4095) / 4096) by (nonlinear_arith)
                requires v >= 1;
            VirtPageNum((self.0 - 1) / PAGE_SIZE + 1)
        }
    }
}

} // verus!
