//! The address space as its users see it: which pages are mapped, with what
//! flags and contents, and how many frames back them.

use vstd::prelude::*;
use crate::addr::{address_space_end, aligned, crosses_page, offset_of, page_of, PAGE_SIZE, VA};
use crate::error::MMUError;
use crate::flags::{PageFlags, Permissions};
use crate::frames::zero_page;

verus! {

/// One mapped page: its flags and the bytes that a read finds in it.
#[verifier::ext_equal]
pub struct Page {
    pub flags: PageFlags,
    pub bytes: Seq<u8>,
}

impl Page {
    /// A page holds a page's worth of bytes, and a lazy zero page holds
    /// zeroes.
    pub open spec fn valid(self) -> bool {
        &&& self.bytes.len() == PAGE_SIZE
        &&& self.flags.has(PageFlags::ZERO) ==> self.bytes == zero_page()
    }

    /// A page as a fresh mapping with `perms` makes it.
    pub open spec fn fresh(perms: Permissions) -> Page {
        Page { flags: PageFlags::lazy(perms), bytes: zero_page() }
    }

    /// The page once it has a frame of its own: the same bytes, without the
    /// markers `ZERO` and `COW`.
    pub open spec fn owned(self) -> Page {
        Page {
            flags: if self.flags.unbacked() {
                self.flags.backed()
            } else {
                self.flags
            },
            bytes: self.bytes,
        }
    }
}

/// `bytes` with `data` laid over it from index `at` on.
pub open spec fn overlay(bytes: Seq<u8>, at: int, data: Seq<u8>) -> Seq<u8> {
    Seq::new(
        bytes.len(),
        |i: int|
            if at <= i < at + data.len() {
                data[i - at]
            } else {
                bytes[i]
            },
    )
}

/// The address of the page behind the one that holds `va`.
pub open spec fn next_page(va: VA) -> VA {
    (page_of(va) + PAGE_SIZE) as VA
}

/// Whether `page` is a page of the range of `size` bytes that starts at
/// `addr`.
pub open spec fn in_range(page: VA, addr: VA, size: u64) -> bool {
    aligned(page) && addr <= page < addr + size
}

/// A range that grows by one page gains that page and no other.
pub proof fn lemma_range_step(page: VA, addr: VA, count: nat)
    requires
        aligned(addr),
        (count + 1) * 0x1000 <= u64::MAX,
        addr + (count + 1) * 0x1000 <= address_space_end(),
    ensures
        in_range(page, addr, ((count + 1) * 0x1000) as u64) <==> in_range(
            page,
            addr,
            (count * 0x1000) as u64,
        ) || page == addr + count * 0x1000,
{
}

/// The mapped pages, keyed by their address, and the number of frames in
/// use.
#[verifier::ext_equal]
pub struct AddressSpace {
    pub pages: Map<VA, Page>,
    pub frames_in_use: nat,
}

impl AddressSpace {
    /// The address space without mappings.
    pub open spec fn empty() -> AddressSpace {
        AddressSpace { pages: Map::empty(), frames_in_use: 0 }
    }

    /// Every mapped page lies on a page boundary and is valid.
    pub open spec fn valid(self) -> bool {
        forall|page: VA| #[trigger]
            self.pages.contains_key(page) ==> aligned(page) && self.pages[page].valid()
    }

    pub open spec fn is_mapped(self, va: VA) -> bool {
        self.pages.contains_key(page_of(va))
    }

    /// The flags of the page that holds `va`.
    pub open spec fn flags_at(self, va: VA) -> PageFlags {
        self.pages[page_of(va)].flags
    }

    /// The byte that a read at `va` finds.
    pub open spec fn byte_at(self, va: VA) -> u8 {
        self.pages[page_of(va)].bytes[offset_of(va) as int]
    }

    /// The `len` bytes that a read finds from `va` on.
    pub open spec fn bytes_at(self, va: VA, len: nat) -> Seq<u8> {
        Seq::new(len, |i: int| self.byte_at((va + i) as VA))
    }

    /// What stops a read of the page that holds `va`, if anything.
    pub open spec fn read_probe(self, va: VA) -> Option<MMUError> {
        if !self.is_mapped(va) {
            Some(MMUError::AddressNotMapped(va))
        } else if !self.flags_at(va).has(PageFlags::PERM_R) {
            Some(MMUError::AddressNotReadable(va))
        } else {
            None
        }
    }

    /// What stops a write to the page that holds `va`, if anything.
    pub open spec fn write_probe(self, va: VA) -> Option<MMUError> {
        if !self.is_mapped(va) {
            Some(MMUError::AddressNotMapped(va))
        } else if !self.flags_at(va).has(PageFlags::PERM_W) {
            Some(MMUError::AddressNotWritable(va))
        } else {
            None
        }
    }

    /// What stops a read of `len` bytes at `va`, if anything. The page that
    /// holds `va` is probed first, at `va`; where the read runs over its
    /// end, the page behind it is probed at its first address.
    pub open spec fn read_fault(self, va: VA, len: nat) -> Option<MMUError> {
        if self.read_probe(va) is Some {
            self.read_probe(va)
        } else if crosses_page(va, len) {
            self.read_probe(next_page(va))
        } else {
            None
        }
    }

    /// What stops a write of `len` bytes at `va`, if anything, in the order
    /// of `read_fault`.
    pub open spec fn write_fault(self, va: VA, len: nat) -> Option<MMUError> {
        if self.write_probe(va) is Some {
            self.write_probe(va)
        } else if crosses_page(va, len) {
            self.write_probe(next_page(va))
        } else {
            None
        }
    }

    /// How many frames a write to the page that holds `va` takes from the
    /// pool: one where the page has none of its own yet.
    pub open spec fn own_cost(self, va: VA) -> nat {
        if self.flags_at(va).unbacked() {
            1
        } else {
            0
        }
    }

    /// The address space after the page that holds `va` has been given a
    /// frame of its own.
    pub open spec fn own(self, va: VA) -> AddressSpace {
        AddressSpace {
            pages: self.pages.insert(page_of(va), self.pages[page_of(va)].owned()),
            frames_in_use: self.frames_in_use + self.own_cost(va),
        }
    }

    /// The address space after `data` has been laid over the bytes of the
    /// mapped page `page`, from offset `at` on.
    pub open spec fn patch(self, page: VA, at: int, data: Seq<u8>) -> AddressSpace {
        AddressSpace {
            pages: self.pages.insert(
                page,
                Page {
                    flags: self.pages[page].flags,
                    bytes: overlay(self.pages[page].bytes, at, data),
                },
            ),
            frames_in_use: self.frames_in_use,
        }
    }

    /// The address space after `data` has been written at `va`, into the
    /// one page that holds `va`: the page gets a frame of its own where it
    /// has none, and then the bytes.
    pub open spec fn store(self, va: VA, data: Seq<u8>) -> AddressSpace {
        self.own(va).patch(page_of(va), offset_of(va) as int, data)
    }

    /// How many bytes of a write of `len` bytes at `va` go to the page that
    /// holds `va`.
    pub open spec fn first_part(va: VA, len: nat) -> nat {
        if crosses_page(va, len) {
            (PAGE_SIZE - offset_of(va)) as nat
        } else {
            len
        }
    }

    /// How many frames a write of `len` bytes at `va` takes from the pool:
    /// one for each page that it reaches and that has none of its own yet.
    /// A write that stops at the first page takes none; one that stops at
    /// the second has reached the first.
    pub open spec fn write_cost(self, va: VA, len: nat) -> nat {
        if self.write_probe(va) is Some {
            0
        } else if crosses_page(va, len) && self.write_probe(next_page(va)) is None {
            self.own_cost(va) + self.own_cost(next_page(va))
        } else {
            self.own_cost(va)
        }
    }

    /// The address space after a write of `data` at `va`. A write that the
    /// first page stops changes nothing. A write that runs over the end of
    /// the first page and is stopped by the second has written its first
    /// part.
    pub open spec fn write_result(self, va: VA, data: Seq<u8>) -> AddressSpace {
        let first = AddressSpace::first_part(va, data.len()) as int;
        if self.write_probe(va) is Some {
            self
        } else if !crosses_page(va, data.len()) {
            self.store(va, data)
        } else if self.write_probe(next_page(va)) is Some {
            self.store(va, data.take(first))
        } else {
            self.store(va, data.take(first)).store(next_page(va), data.skip(first))
        }
    }

    /// The address space after the bytes of `data` have been written one at
    /// a time, at `va` and the addresses behind it.
    pub open spec fn write_each(self, va: VA, data: Seq<u8>) -> AddressSpace
        decreases data.len(),
    {
        if data.len() == 0 {
            self
        } else {
            self.write_each(va, data.drop_last()).write_result(
                (va + data.len() - 1) as VA,
                seq![data.last()],
            )
        }
    }

    /// No page of the range is mapped.
    pub open spec fn range_unmapped(self, addr: VA, size: u64) -> bool {
        forall|page: VA| #[trigger] in_range(page, addr, size) ==> !self.pages.contains_key(page)
    }

    /// Every page of the range is mapped.
    pub open spec fn range_mapped(self, addr: VA, size: u64) -> bool {
        forall|page: VA| #[trigger] in_range(page, addr, size) ==> self.pages.contains_key(page)
    }

    /// `page` is the lowest page of the range that is mapped.
    pub open spec fn first_mapped(self, addr: VA, size: u64, page: VA) -> bool {
        &&& in_range(page, addr, size)
        &&& self.pages.contains_key(page)
        &&& forall|below: VA| #[trigger]
            in_range(below, addr, size) && below < page ==> !self.pages.contains_key(below)
    }

    /// `page` is the lowest page of the range that is not mapped.
    pub open spec fn first_unmapped(self, addr: VA, size: u64, page: VA) -> bool {
        &&& in_range(page, addr, size)
        &&& !self.pages.contains_key(page)
        &&& forall|below: VA| #[trigger]
            in_range(below, addr, size) && below < page ==> self.pages.contains_key(below)
    }

    /// The address space after the range has been mapped with `perms`:
    /// each page of the range is a fresh lazy zero page, and no frame is
    /// taken.
    pub open spec fn map(self, addr: VA, size: u64, perms: Permissions) -> AddressSpace {
        AddressSpace {
            pages: Map::new(
                |page: VA| self.pages.contains_key(page) || in_range(page, addr, size),
                |page: VA|
                    if in_range(page, addr, size) {
                        Page::fresh(perms)
                    } else {
                        self.pages[page]
                    },
            ),
            frames_in_use: self.frames_in_use,
        }
    }

    /// How many of the `count` pages from `addr` on hold a frame.
    pub open spec fn frames_held(self, addr: VA, count: nat) -> nat
        decreases count,
    {
        if count == 0 {
            0
        } else {
            let page = (addr + (count - 1) * 0x1000) as VA;
            self.frames_held(addr, (count - 1) as nat) + if self.pages[page].flags.has(
                PageFlags::ZERO,
            ) {
                0nat
            } else {
                1nat
            }
        }
    }

    /// The address space after the range has been unmapped: its pages are
    /// gone, and the frames that they held are back in the pool.
    pub open spec fn unmap(self, addr: VA, size: u64) -> AddressSpace {
        AddressSpace {
            pages: Map::new(
                |page: VA| self.pages.contains_key(page) && !in_range(page, addr, size),
                |page: VA| self.pages[page],
            ),
            frames_in_use: (self.frames_in_use - self.frames_held(
                addr,
                (size / 0x1000) as nat,
            )) as nat,
        }
    }
}

} // verus!
