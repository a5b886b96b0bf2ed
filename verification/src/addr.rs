//! Virtual addresses and page arithmetic.

use vstd::prelude::*;

verus! {

/// A virtual address in the emulated address space.
pub type VA = u64;

/// Size of a page, and of the frame that backs it, in bytes.
pub const PAGE_SIZE: usize = 0x1000;

pub const PAGE_SHIFT: usize = 12;

pub const PAGE_MASK: u64 = 0xFFF;

/// One past the highest virtual address.
pub open spec fn address_space_end() -> int {
    0x1_0000_0000_0000_0000
}

/// Whether `va` lies on a page boundary.
pub open spec fn aligned(va: VA) -> bool {
    va % 0x1000 == 0
}

/// The address of the page that holds `va`.
pub open spec fn page_of(va: VA) -> VA {
    (va - va % 0x1000) as VA
}

/// The distance of `va` from the start of its page.
pub open spec fn offset_of(va: VA) -> nat {
    (va % 0x1000) as nat
}

/// Whether an access of `len` bytes at `va` runs over the end of the page
/// that holds `va`.
pub open spec fn crosses_page(va: VA, len: nat) -> bool {
    offset_of(va) + len > PAGE_SIZE
}

/// Where the byte `i` places behind `va` lies: in the page of `va` as long
/// as the offset stays below the page size, and in the page behind it for
/// the next page's worth of bytes.
pub proof fn lemma_step(va: VA, i: nat)
    requires
        va + i < address_space_end(),
    ensures
        offset_of(va) + i < PAGE_SIZE ==> page_of((va + i) as VA) == page_of(va) && offset_of(
            (va + i) as VA,
        ) == offset_of(va) + i,
        PAGE_SIZE <= offset_of(va) + i < 2 * PAGE_SIZE ==> page_of((va + i) as VA) == page_of(va)
            + PAGE_SIZE && offset_of((va + i) as VA) == offset_of(va) + i - PAGE_SIZE,
{
}

/// A page lies on a page boundary, holds its address, and is the page of
/// each address on a boundary.
pub proof fn lemma_page_of(va: VA)
    ensures
        aligned(page_of(va)),
        page_of(va) <= va < page_of(va) + PAGE_SIZE,
        page_of(page_of(va)) == page_of(va),
        offset_of(page_of(va)) == 0,
        aligned(va) ==> page_of(va) == va && offset_of(va) == 0,
{
}

pub fn is_page_aligned(va: VA) -> (r: bool)
    ensures
        r == aligned(va),
{
    assert(va & 0xFFF == va % 0x1000) by (bit_vector);
    va & PAGE_MASK == 0x0
}

pub fn page_number(va: VA) -> (r: u64)
    ensures
        r == page_of(va),
        aligned(r),
        r <= va < r + PAGE_SIZE,
{
    assert((va >> 12) << 12 == va - va % 0x1000) by (bit_vector);
    (va >> PAGE_SHIFT) << PAGE_SHIFT
}

pub fn page_offset(va: VA) -> (r: usize)
    ensures
        r == offset_of(va),
        r < PAGE_SIZE,
{
    assert(va & 0xFFF == va % 0x1000) by (bit_vector);
    (va & PAGE_MASK) as usize
}

} // verus!
