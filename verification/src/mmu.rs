//! The memory management unit: mapping and unmapping of page ranges, and
//! typed reads and writes at virtual addresses.

use std::collections::BTreeMap;
use vstd::prelude::*;
use crate::addr::{
    address_space_end, aligned, lemma_page_of, lemma_step, page_number, page_of, page_offset,
    PAGE_SIZE, VA,
};
use crate::codec::{
    le_bytes, le_read_u128, le_read_u16, le_read_u32, le_read_u64, le_value, le_write_u128,
    le_write_u16, le_write_u32, le_write_u64, lemma_le_bytes_len,
};
use crate::error::MMUError;
use crate::flags::{PageFlags, Permissions};
use crate::frames::{
    lemma_count_set_bound, max_frames, zero_page, PageFrame, PageFrames, INVALID_PFN, PFN,
};
use crate::model::{in_range, lemma_range_step, overlay, AddressSpace, Page};

verus! {

pub struct MMU {
    pages: PageFrames,
    mapping: BTreeMap<VA, (PFN, PageFlags)>,
}

impl View for MMU {
    type V = AddressSpace;

    closed spec fn view(&self) -> AddressSpace {
        AddressSpace {
            pages: Map::new(
                |page: VA| self.mapping@.contains_key(page),
                |page: VA| Page { flags: self.mapping@[page].1, bytes: self.bytes_of(page) },
            ),
            frames_in_use: self.pages@.in_use(),
        }
    }
}

/// `dst[at .. at + n]` becomes `src[from .. from + n]`.
fn copy_bytes(dst: &mut [u8], at: usize, src: &[u8], from: usize, n: usize)
    requires
        at + n <= old(dst)@.len(),
        from + n <= src@.len(),
    ensures
        final(dst)@ == overlay(old(dst)@, at as int, src@.subrange(from as int, from + n)),
{
    let dst_len: usize = dst.len();
    let src_len: usize = src.len();
    let mut i: usize = 0;
    while i < n
        invariant
            i <= n,
            at + n <= dst_len,
            from + n <= src_len,
            dst@.len() == dst_len,
            src@.len() == src_len,
            dst@.len() == old(dst)@.len(),
            forall|j: int| 0 <= j < dst@.len() ==> dst@[j] == if at <= j < at + i {
                src@[from + j - at]
            } else {
                old(dst)@[j]
            },
        decreases n - i,
    {
        dst[at + i] = src[from + i];
        i += 1;
    }
    assert(dst@ =~= overlay(old(dst)@, at as int, src@.subrange(from as int, from + n)));
}

/// `dst[at .. at + n]` becomes zero.
fn zero_bytes(dst: &mut [u8], at: usize, n: usize)
    requires
        at + n <= old(dst)@.len(),
    ensures
        final(dst)@ == overlay(old(dst)@, at as int, Seq::new(n as nat, |i: int| 0u8)),
{
    let dst_len: usize = dst.len();
    let mut i: usize = 0;
    while i < n
        invariant
            i <= n,
            at + n <= dst_len,
            dst@.len() == dst_len,
            dst@.len() == old(dst)@.len(),
            forall|j: int| 0 <= j < dst@.len() ==> dst@[j] == if at <= j < at + i {
                0u8
            } else {
                old(dst)@[j]
            },
        decreases n - i,
    {
        dst[at + i] = 0;
        i += 1;
    }
    assert(dst@ =~= overlay(old(dst)@, at as int, Seq::new(n as nat, |i: int| 0u8)));
}

/// the address of page `index` of the range that starts at `addr`.
fn page_at(addr: VA, index: u64) -> (page_va: VA)
    requires
        addr + index * 0x1000 < address_space_end(),
    ensures
        page_va == addr + index * 0x1000,
{
    assert(index * PAGE_SIZE == index * 0x1000) by (nonlinear_arith)
        requires
            PAGE_SIZE == 0x1000,
    ;
    addr + index * PAGE_SIZE as u64
}

impl Default for MMU {
    fn default() -> (r: Self)
        ensures
            r.wf(),
            r@ == AddressSpace::empty(),
    {
        let r = MMU { pages: Default::default(), mapping: BTreeMap::new() };
        assert(r@.pages =~= Map::<VA, Page>::empty());
        r
    }
}

impl Clone for MMU {
    /// a deep copy: every frame and every mapping is duplicated, and the
    /// two units share nothing afterwards.
    fn clone(&self) -> (r: Self)
        ensures
            r@ == self@,
            r.wf() == self.wf(),
    {
        let r = MMU { pages: self.pages.clone(), mapping: self.mapping.clone() };
        proof {
            assert(r@.pages =~= self@.pages);
            assert(r@ =~= self@);
        }
        r
    }
}

impl MMU {
    /// The bytes that a read finds in the mapped page `page`.
    closed spec fn bytes_of(&self, page: VA) -> Seq<u8> {
        if self.mapping@[page].1.has(PageFlags::ZERO) {
            zero_page()
        } else {
            self.pages@.frames[self.mapping@[page].0 as int]
        }
    }

    /// Whether the mapped page `page` holds a frame.
    closed spec fn holds_frame(&self, page: VA) -> bool {
        self.mapping@.contains_key(page) && !self.mapping@[page].1.has(PageFlags::ZERO)
    }

    /// The unit is well formed when the pool is, every mapped page lies on
    /// a page boundary, a lazy zero page holds no frame, every other page
    /// holds a frame that is in use, and no two pages hold the same frame.
    pub closed spec fn wf(&self) -> bool {
        &&& self.pages.wf()
        &&& forall|page: VA| #[trigger]
            self.mapping@.contains_key(page) ==> {
                &&& aligned(page)
                &&& self.mapping@[page].1.has(PageFlags::ZERO) ==> self.mapping@[page].0
                    == INVALID_PFN
                &&& !self.mapping@[page].1.has(PageFlags::ZERO) ==> self.pages@.allocated(
                    self.mapping@[page].0 as int,
                )
            }
        &&& forall|a: VA, b: VA|
            #![trigger self.mapping@[a], self.mapping@[b]]
            self.holds_frame(a) && self.holds_frame(b) && a != b ==> self.mapping@[a].0
                != self.mapping@[b].0
    }

    /// A well-formed unit shows a valid address space, with no more frames
    /// in use than a pool can hold.
    pub proof fn lemma_valid(&self)
        requires
            self.wf(),
        ensures
            self@.valid(),
            self@.frames_in_use <= max_frames(),
    {
        lemma_count_set_bound(self.pages@.used);
    }

    /// the number of page frames that the unit has taken from its pool.
    pub fn frames_in_use(&self) -> (count: usize)
        ensures
            count == self@.frames_in_use,
    {
        self.pages.in_use()
    }

    // map memory at the given virtual address, for the given size, with the given
    // perms. `addr` and `size` must be page aligned.
    pub fn mmap(&mut self, addr: VA, size: u64, perms: Permissions) -> (r: Result<(), MMUError>)
        requires
            old(self).wf(),
            aligned(addr),
            aligned(size),
            size / (PAGE_SIZE as u64) <= u32::MAX,
            addr + size <= address_space_end(),
        ensures
            final(self).wf(),
            match r {
                Ok(()) => {
                    &&& old(self)@.range_unmapped(addr, size)
                    &&& final(self)@ == old(self)@.map(addr, size, perms)
                },
                Err(MMUError::AddressAlreadyMapped(page)) => {
                    &&& old(self)@.first_mapped(addr, size, page)
                    &&& final(self)@ == old(self)@
                },
                Err(_) => false,
            },
    {
        let page_count: u64 = size / PAGE_SIZE as u64;

        // ensure none of the pages are already mapped.
        // Linux mmap updates any existing mappings.
        // I'm not sure if we'd prefer to go that route or not.
        // being conservative here will help us find bugs early on.
        //
        // do this all at once up front to avoid getting
        // half way through and needing to bail.
        let mut i: u64 = 0;
        while i < page_count
            invariant
                i <= page_count,
                *self == *old(self),
                self.wf(),
                aligned(addr),
                page_count * 0x1000 == size,
                addr + size <= address_space_end(),
                forall|page: VA| #[trigger]
                    in_range(page, addr, (i * 0x1000) as u64) ==> !self.mapping@.contains_key(
                        page,
                    ),
            decreases page_count - i,
        {
            let page_va: u64 = page_at(addr, i);
            if self.mapping.contains_key(&page_va) {
                proof {
                    assert forall|below: VA| #[trigger]
                        in_range(below, addr, size) && below < page_va
                            implies !self@.pages.contains_key(
                        below,
                    ) by {
                        assert(in_range(below, addr, (i * 0x1000) as u64));
                    }
                }
                return Err(MMUError::AddressAlreadyMapped(page_va));
            }
            proof {
                assert forall|page: VA| #[trigger]
                    in_range(page, addr, ((i + 1) * 0x1000) as u64)
                        implies !self.mapping@.contains_key(
                    page,
                ) by {
                    lemma_range_step(page, addr, i as nat);
                }
            }
            i += 1;
        }

        proof {
            assert((i * 0x1000) as u64 == size);
            assert forall|page: VA| #[trigger] in_range(page, addr, size)
                implies !self@.pages.contains_key(
                page,
            ) by {
                assert(in_range(page, addr, (i * 0x1000) as u64));
            }
        }

        self.pages.reserve(page_count as u32);

        let flags = PageFlags::from_bits_truncate(PageFlags::ZERO | perms.bits() as u32);
        proof {
            PageFlags::lemma_lazy(perms);
        }
        let mut i: u64 = 0;
        while i < page_count
            invariant
                i <= page_count,
                aligned(addr),
                page_count * 0x1000 == size,
                addr + size <= address_space_end(),
                old(self).wf(),
                self.pages@ == old(self).pages@,
                flags == PageFlags::lazy(perms),
                flags.has(PageFlags::ZERO),
                old(self)@.range_unmapped(addr, size),
                forall|page: VA|
                    self.mapping@.contains_key(page) <==> old(self).mapping@.contains_key(page)
                        || in_range(page, addr, (i * 0x1000) as u64),
                forall|page: VA| #[trigger]
                    old(self).mapping@.contains_key(page) ==> self.mapping@[page] == old(
                        self,
                    ).mapping@[page],
                forall|page: VA| #[trigger]
                    in_range(page, addr, (i * 0x1000) as u64) ==> self.mapping@[page] == (
                        INVALID_PFN,
                        flags,
                    ),
            decreases page_count - i,
        {
            let page_va: u64 = page_at(addr, i);

            // initially, don't allocate any page frames, just use zero pages.
            // only when written to should we allocate page on demand.
            // this should be just as fast, since we've reserved the pages above.
            self.mapping.insert(page_va, (INVALID_PFN, flags));
            proof {
                assert(in_range(page_va, addr, size));
                assert forall|page: VA|
                    self.mapping@.contains_key(page) <==> old(self).mapping@.contains_key(page)
                        || in_range(page, addr, ((i + 1) * 0x1000) as u64) by {
                    lemma_range_step(page, addr, i as nat);
                }
                assert forall|page: VA| #[trigger]
                    in_range(page, addr, ((i + 1) * 0x1000) as u64) implies self.mapping@[page]
                    == (INVALID_PFN, flags) by {
                    lemma_range_step(page, addr, i as nat);
                }
            }
            i += 1;
        }

        proof {
            assert forall|page: VA| #[trigger] self.mapping@.contains_key(page) implies {
                &&& aligned(page)
                &&& self.mapping@[page].1.has(PageFlags::ZERO) ==> self.mapping@[page].0
                    == INVALID_PFN
                &&& !self.mapping@[page].1.has(PageFlags::ZERO) ==> self.pages@.allocated(
                    self.mapping@[page].0 as int,
                )
            } by {
                if old(self).mapping@.contains_key(page) {
                    assert(!in_range(page, addr, size));
                } else {
                    assert(in_range(page, addr, size));
                }
            }
            assert forall|a: VA, b: VA|
                #![trigger self.mapping@[a], self.mapping@[b]]
                self.holds_frame(a) && self.holds_frame(b) && a != b implies self.mapping@[a].0
                != self.mapping@[b].0 by {
                assert(old(self).holds_frame(a)) by {
                    if !old(self).mapping@.contains_key(a) {
                        assert(in_range(a, addr, size));
                    }
                }
                assert(old(self).holds_frame(b)) by {
                    if !old(self).mapping@.contains_key(b) {
                        assert(in_range(b, addr, size));
                    }
                }
            }
            assert forall|page: VA| #[trigger] self.mapping@.contains_key(page)
                implies self@.pages[page]
                == old(self)@.map(addr, size, perms).pages[page] by {
                if in_range(page, addr, size) {
                } else {
                    assert(old(self).mapping@.contains_key(page));
                }
            }
            assert(self@.pages =~= old(self)@.map(addr, size, perms).pages);
            assert(self@ =~= old(self)@.map(addr, size, perms));
        }

        Ok(())
    }

    /// take one mapped page out of the table, and give back its frame
    /// where it holds one.
    fn release(&mut self, page_va: VA)
        requires
            old(self).wf(),
            old(self).mapping@.contains_key(page_va),
        ensures
            final(self).wf(),
            final(self).mapping@ == old(self).mapping@.remove(page_va),
            final(self).pages@ == if old(self).mapping@[page_va].1.has(PageFlags::ZERO) {
                old(self).pages@
            } else {
                old(self).pages@.deallocate(old(self).mapping@[page_va].0 as int)
            },
            final(self)@.pages == old(self)@.pages.remove(page_va),
            final(self)@.frames_in_use + (if old(self)@.pages[page_va].flags.has(PageFlags::ZERO) {
                0nat
            } else {
                1nat
            }) == old(self)@.frames_in_use,
    {
        let (pfn, flags) = self.mapping.remove(&page_va).unwrap();

        if !flags.intersects(PageFlags::ZERO) {
            proof {
                self.pages@.lemma_deallocate(pfn as int);
            }
            self.pages.deallocate(pfn);
        } else {
            assert(pfn == INVALID_PFN);
        }
        proof {
            assert forall|other: VA| #[trigger]
                self.mapping@.contains_key(other) implies self.bytes_of(other) == old(
                self,
            ).bytes_of(other) by {
                assert(old(self).mapping@.contains_key(other));
                assert(old(self).holds_frame(other) ==> old(self).holds_frame(other) && other
                    != page_va);
            }
            assert(self@.pages =~= old(self)@.pages.remove(page_va));
        }
    }

    pub fn munmap(&mut self, addr: VA, size: u64) -> (r: Result<(), MMUError>)
        requires
            old(self).wf(),
            aligned(addr),
            aligned(size),
            size / (PAGE_SIZE as u64) <= u32::MAX,
            addr + size <= address_space_end(),
        ensures
            final(self).wf(),
            match r {
                Ok(()) => {
                    &&& old(self)@.range_mapped(addr, size)
                    &&& final(self)@ == old(self)@.unmap(addr, size)
                    &&& final(self)@.frames_in_use + old(self)@.frames_held(
                        addr,
                        (size / 0x1000) as nat,
                    ) == old(self)@.frames_in_use
                },
                Err(MMUError::AddressNotMapped(page)) => {
                    &&& old(self)@.first_unmapped(addr, size, page)
                    &&& final(self)@ == old(self)@
                },
                Err(_) => false,
            },
    {
        let page_count: u64 = size / PAGE_SIZE as u64;

        // ensure all of the pages are already mapped.
        //
        // do this all at once up front to avoid getting
        // half way through and needing to bail.
        let mut i: u64 = 0;
        while i < page_count
            invariant
                i <= page_count,
                *self == *old(self),
                self.wf(),
                aligned(addr),
                page_count * 0x1000 == size,
                addr + size <= address_space_end(),
                forall|page: VA| #[trigger]
                    in_range(page, addr, (i * 0x1000) as u64) ==> self.mapping@.contains_key(
                        page,
                    ),
            decreases page_count - i,
        {
            let page_va: u64 = page_at(addr, i);
            if !self.mapping.contains_key(&page_va) {
                proof {
                    assert forall|below: VA| #[trigger]
                        in_range(below, addr, size) && below < page_va
                            implies self@.pages.contains_key(
                        below,
                    ) by {
                        assert(in_range(below, addr, (i * 0x1000) as u64));
                    }
                }
                return Err(MMUError::AddressNotMapped(page_va));
            }
            proof {
                assert forall|page: VA| #[trigger]
                    in_range(page, addr, ((i + 1) * 0x1000) as u64)
                        implies self.mapping@.contains_key(
                    page,
                ) by {
                    lemma_range_step(page, addr, i as nat);
                }
            }
            i += 1;
        }

        proof {
            assert((i * 0x1000) as u64 == size);
            assert forall|page: VA| #[trigger] in_range(page, addr, size)
                implies self@.pages.contains_key(
                page,
            ) by {
                assert(in_range(page, addr, (i * 0x1000) as u64));
            }
        }

        let mut i: u64 = 0;
        while i < page_count
            invariant
                i <= page_count,
                aligned(addr),
                page_count * 0x1000 == size,
                addr + size <= address_space_end(),
                self.wf(),
                old(self)@.range_mapped(addr, size),
                forall|page: VA|
                    self.mapping@.contains_key(page) <==> old(self).mapping@.contains_key(page)
                        && !in_range(page, addr, (i * 0x1000) as u64),
                forall|page: VA| #[trigger]
                    self.mapping@.contains_key(page)
                        ==> self@.pages[page] == old(self)@.pages[page],
                self@.frames_in_use + old(self)@.frames_held(addr, i as nat) == old(
                    self,
                )@.frames_in_use,
            decreases page_count - i,
        {
            let page_va: u64 = page_at(addr, i);
            proof {
                assert(in_range(page_va, addr, size));
                assert(!in_range(page_va, addr, (i * 0x1000) as u64));
            }
            let ghost before = *self;
            self.release(page_va);
            proof {
                assert forall|page: VA|
                    self.mapping@.contains_key(page) <==> old(self).mapping@.contains_key(page)
                        && !in_range(page, addr, ((i + 1) * 0x1000) as u64) by {
                    lemma_range_step(page, addr, i as nat);
                }
                assert forall|page: VA| #[trigger] self.mapping@.contains_key(page)
                    implies self@.pages[page]
                    == old(self)@.pages[page] by {
                    assert(before.mapping@.contains_key(page));
                }
                assert(before@.pages[page_va] == old(self)@.pages[page_va]);
            }
            i += 1;
        }

        proof {
            assert(self@.pages =~= old(self)@.unmap(addr, size).pages);
            assert(self@ =~= old(self)@.unmap(addr, size));
        }

        Ok(())
    }

    fn probe_read(&self, addr: VA) -> (r: Result<(PFN, PageFlags), MMUError>)
        requires
            self.wf(),
        ensures
            match r {
                Ok((pfn, flags)) => {
                    &&& self@.read_probe(addr) is None
                    &&& self.mapping@.contains_key(page_of(addr))
                    &&& self.mapping@[page_of(addr)] == (pfn, flags)
                },
                Err(e) => self@.read_probe(addr) == Some(e),
            },
    {
        let (pfn, flags) = match self.mapping.get(&page_number(addr)) {
            Some(entry) => *entry,
            None => return Err(MMUError::AddressNotMapped(addr)),
        };

        if !flags.intersects(PageFlags::PERM_R) {
            return Err(MMUError::AddressNotReadable(addr));
        }

        Ok((pfn, flags))
    }

    /// copy `n` bytes of a probed page, from offset `from` on, to
    /// `buf[at .. at + n]`. a zero page gives zeroes without touching the
    /// pool.
    fn fetch(
        &self,
        page: Ghost<VA>,
        pfn: PFN,
        flags: PageFlags,
        from: usize,
        buf: &mut [u8],
        at: usize,
        n: usize,
    )
        requires
            self.wf(),
            self.mapping@.contains_key(page@),
            self.mapping@[page@] == (pfn, flags),
            from + n <= PAGE_SIZE,
            at + n <= old(buf)@.len(),
        ensures
            final(buf)@ == overlay(
                old(buf)@,
                at as int,
                self@.pages[page@].bytes.subrange(from as int, from + n),
            ),
    {
        if flags.intersects(PageFlags::ZERO) {
            zero_bytes(buf, at, n);
            assert(Seq::new(n as nat, |i: int| 0u8) =~= zero_page().subrange(from as int, from + n));
        } else {
            copy_bytes(buf, at, self.pages.get(pfn), from, n);
        }
    }

    /// read up to one page worth of data from the given address.
    /// read will not span more than two pages.
    fn read(&self, addr: VA, buf: &mut [u8]) -> (r: Result<(), MMUError>)
        requires
            self.wf(),
            old(buf)@.len() <= PAGE_SIZE,
            addr + old(buf)@.len() <= address_space_end(),
        ensures
            final(buf)@.len() == old(buf)@.len(),
            match r {
                Ok(()) => {
                    &&& self@.read_fault(addr, old(buf)@.len()) is None
                    &&& final(buf)@ == self@.bytes_at(addr, old(buf)@.len())
                },
                Err(e) => self@.read_fault(addr, old(buf)@.len()) == Some(e),
            },
    {
        let read_size: usize = buf.len();
        let page_offset: usize = page_offset(addr);
        let ghost page = page_of(addr);

        if read_size > PAGE_SIZE - page_offset {
            // split read
            let first_size: usize = PAGE_SIZE - page_offset;
            let second_size: usize = read_size - first_size;

            let (first_pfn, first_flags) = self.probe_read(addr)?;
            self.fetch(Ghost(page), first_pfn, first_flags, page_offset, buf, 0, first_size);

            let next_page_addr: u64 = addr + first_size as u64;
            proof {
                lemma_step(addr, first_size as nat);
                lemma_page_of(next_page_addr);
            }
            let (second_pfn, second_flags) = match self.probe_read(next_page_addr) {
                Ok(entry) => entry,
                Err(e) => return Err(e),
            };
            self.fetch(
                Ghost(next_page_addr),
                second_pfn,
                second_flags,
                0,
                buf,
                first_size,
                second_size,
            );

            proof {
                let want = self@.bytes_at(addr, read_size as nat);
                assert forall|i: int| 0 <= i < read_size implies buf@[i] == want[i] by {
                    lemma_step(addr, i as nat);
                }
                assert(buf@ =~= want);
            }
        } else {
            // common case: all data in single page
            let (pfn, flags) = self.probe_read(addr)?;
            self.fetch(Ghost(page), pfn, flags, page_offset, buf, 0, read_size);

            proof {
                let want = self@.bytes_at(addr, read_size as nat);
                assert forall|i: int| 0 <= i < read_size implies buf@[i] == want[i] by {
                    lemma_step(addr, i as nat);
                }
                assert(buf@ =~= want);
            }
        }
        Ok(())
    }

    pub fn read_u8(&self, addr: VA) -> (r: Result<u8, MMUError>)
        requires
            self.wf(),
        ensures
            match r {
                Ok(value) => self@.read_fault(addr, 1) is None && value == self@.byte_at(addr),
                Err(e) => self@.read_fault(addr, 1) == Some(e),
            },
    {
        let mut buf = [0u8; 1];
        self.read(addr, &mut buf)?;
        Ok(buf[0])
    }

    pub fn read_u16(&self, addr: VA) -> (r: Result<u16, MMUError>)
        requires
            self.wf(),
            addr + 2 <= address_space_end(),
        ensures
            match r {
                Ok(value) => self@.read_fault(addr, 2) is None && value == le_value(
                    self@.bytes_at(addr, 2),
                ),
                Err(e) => self@.read_fault(addr, 2) == Some(e),
            },
    {
        let mut buf = [0u8; 2];
        self.read(addr, &mut buf)?;
        assert(buf@.take(2) =~= buf@);
        Ok(le_read_u16(&buf))
    }

    pub fn read_u32(&self, addr: VA) -> (r: Result<u32, MMUError>)
        requires
            self.wf(),
            addr + 4 <= address_space_end(),
        ensures
            match r {
                Ok(value) => self@.read_fault(addr, 4) is None && value == le_value(
                    self@.bytes_at(addr, 4),
                ),
                Err(e) => self@.read_fault(addr, 4) == Some(e),
            },
    {
        let mut buf = [0u8; 4];
        self.read(addr, &mut buf)?;
        assert(buf@.take(4) =~= buf@);
        Ok(le_read_u32(&buf))
    }

    pub fn read_u64(&self, addr: VA) -> (r: Result<u64, MMUError>)
        requires
            self.wf(),
            addr + 8 <= address_space_end(),
        ensures
            match r {
                Ok(value) => self@.read_fault(addr, 8) is None && value == le_value(
                    self@.bytes_at(addr, 8),
                ),
                Err(e) => self@.read_fault(addr, 8) == Some(e),
            },
    {
        let mut buf = [0u8; 8];
        self.read(addr, &mut buf)?;
        assert(buf@.take(8) =~= buf@);
        Ok(le_read_u64(&buf))
    }

    pub fn read_u128(&self, addr: VA) -> (r: Result<u128, MMUError>)
        requires
            self.wf(),
            addr + 16 <= address_space_end(),
        ensures
            match r {
                Ok(value) => self@.read_fault(addr, 16) is None && value == le_value(
                    self@.bytes_at(addr, 16),
                ),
                Err(e) => self@.read_fault(addr, 16) == Some(e),
            },
    {
        let mut buf = [0u8; 16];
        self.read(addr, &mut buf)?;
        assert(buf@.take(16) =~= buf@);
        Ok(le_read_u128(&buf))
    }

    // read one page worth of data from the given page-aligned address.
    pub fn read_page(&self, addr: VA) -> (r: Result<[u8; PAGE_SIZE], MMUError>)
        requires
            self.wf(),
            aligned(addr),
        ensures
            match r {
                Ok(page) => self@.read_probe(addr) is None && page@ == self@.pages[addr].bytes,
                Err(e) => self@.read_probe(addr) == Some(e),
            },
    {
        let mut buf = [0u8; PAGE_SIZE];
        self.read(addr, &mut buf)?;
        proof {
            self.lemma_valid();
            let want = self@.pages[addr].bytes;
            assert forall|i: int| 0 <= i < PAGE_SIZE implies buf@[i] == want[i] by {
                lemma_step(addr, i as nat);
            }
            assert(buf@ =~= want);
        }
        Ok(buf)
    }

    /// ensure that the given address can be written to, and if so,
    /// do any copies necessary due to COW/zero pages.
    fn probe_write(&mut self, addr: VA) -> (r: Result<(PFN, PageFlags), MMUError>)
        requires
            old(self).wf(),
            old(self)@.write_probe(addr) is None ==> old(self)@.frames_in_use + old(self)@.own_cost(
                addr,
            ) <= max_frames(),
        ensures
            final(self).wf(),
            match r {
                Ok((pfn, flags)) => {
                    &&& old(self)@.write_probe(addr) is None
                    &&& final(self)@ == old(self)@.own(addr)
                    &&& final(self).mapping@.contains_key(page_of(addr))
                    &&& final(self).mapping@[page_of(addr)] == (pfn, flags)
                    &&& !flags.has(PageFlags::ZERO)
                },
                Err(e) => old(self)@.write_probe(addr) == Some(e) && final(self)@ == old(self)@,
            },
            // every other page keeps its entry.
            forall|other: VA|
                other != page_of(addr) ==> #[trigger] final(self).mapping@.contains_key(other)
                    == old(self).mapping@.contains_key(other) && final(self).mapping@[other]
                    == old(self).mapping@[other],
            // a probe that fails, or one of a page that has its frame, is a
            // pure lookup: no entry and no frame changes.
            r is Err || !old(self)@.flags_at(addr).unbacked() ==> final(self).mapping@ == old(
                self,
            ).mapping@ && final(self).pages@ == old(self).pages@,
            // a page without a frame of its own gets the lowest free one,
            // filled with the bytes that the page held; no other frame
            // changes.
            r is Ok && old(self)@.flags_at(addr).unbacked() ==> {
                &&& final(self).mapping@[page_of(addr)].0 == old(self).pages@.next_free()
                &&& final(self).pages@ == old(self).pages@.allocate().with_frame(
                    old(self).pages@.next_free() as int,
                    old(self)@.pages[page_of(addr)].bytes,
                )
            },
    {
        let page: u64 = page_number(addr);
        let (pfn, flags) = match self.mapping.get(&page) {
            Some(entry) => *entry,
            None => return Err(MMUError::AddressNotMapped(addr)),
        };

        if !flags.intersects(PageFlags::PERM_W) {
            return Err(MMUError::AddressNotWritable(addr));
        }

        if flags.intersects(PageFlags::ZERO) || flags.intersects(PageFlags::COW) {
            // collect a copy of the existing page frame contents
            let pf: PageFrame = if flags.intersects(PageFlags::ZERO) {
                [0u8; PAGE_SIZE]
            } else {
                *self.pages.get(pfn)
            };
            assert(pf@ =~= old(self).bytes_of(page));

            // and write it into a newly allocated page frame
            proof {
                self.pages@.lemma_room();
                self.pages@.lemma_allocate();
            }
            let pfn = self.pages.allocate();
            *self.pages.get_mut(pfn) = pf;

            // now update the mapping to point to the new pf
            let mut flags = flags;
            flags.remove(PageFlags::ZERO);
            flags.remove(PageFlags::COW);

            self.mapping.insert(page, (pfn, flags));

            proof {
                old(self).mapping@[page].1.lemma_backed();
                old(self).pages@.allocate().lemma_with_frame(pfn as int, pf@);
                assert forall|other: VA| #[trigger]
                    self.mapping@.contains_key(other) && other != page implies self.bytes_of(other)
                    == old(self).bytes_of(other) by {
                    assert(old(self).mapping@.contains_key(other));
                }
                assert(self@.pages =~= old(self)@.own(addr).pages);
                assert(self@ =~= old(self)@.own(addr));
            }
            Ok((pfn, flags))
        } else {
            proof {
                assert(self@.pages =~= old(self)@.own(addr).pages);
                assert(self@ =~= old(self)@.own(addr));
            }
            Ok((pfn, flags))
        }
    }

    /// copy `buf[from .. from + n]` into the frame of a probed page, from
    /// offset `at` on.
    fn put(&mut self, page: Ghost<VA>, pfn: PFN, at: usize, buf: &[u8], from: usize, n: usize)
        requires
            old(self).wf(),
            old(self).mapping@.contains_key(page@),
            old(self).mapping@[page@].0 == pfn,
            !old(self).mapping@[page@].1.has(PageFlags::ZERO),
            at + n <= PAGE_SIZE,
            from + n <= buf@.len(),
        ensures
            final(self).wf(),
            final(self)@ == old(self)@.patch(
                page@,
                at as int,
                buf@.subrange(from as int, from + n),
            ),
            final(self).mapping@ == old(self).mapping@,
            final(self).pages@ == old(self).pages@.with_frame(
                pfn as int,
                overlay(
                    old(self).pages@.frames[pfn as int],
                    at as int,
                    buf@.subrange(from as int, from + n),
                ),
            ),
    {
        let frame = self.pages.get_mut(pfn);
        copy_bytes(frame, at, buf, from, n);
        proof {
            let data = buf@.subrange(from as int, from + n);
            assert forall|other: VA| #[trigger]
                self.mapping@.contains_key(other) && other != page@ implies self.bytes_of(other)
                == old(self).bytes_of(other) by {
                assert(old(self).mapping@.contains_key(other));
            }
            assert(self@.pages =~= old(self)@.patch(page@, at as int, data).pages);
            assert(self@ =~= old(self)@.patch(page@, at as int, data));
        }
    }

    /// write up to one page worth of data to the given address.
    ///
    /// a write that runs over the end of a page is not atomic: where the
    /// second page stops it, the first page has been written.
    fn write(&mut self, addr: VA, buf: &[u8]) -> (r: Result<(), MMUError>)
        requires
            old(self).wf(),
            buf@.len() <= PAGE_SIZE,
            addr + buf@.len() <= address_space_end(),
            old(self)@.frames_in_use + old(self)@.write_cost(addr, buf@.len()) <= max_frames(),
        ensures
            final(self).wf(),
            final(self)@ == old(self)@.write_result(addr, buf@),
            match r {
                Ok(()) => old(self)@.write_fault(addr, buf@.len()) is None,
                Err(e) => old(self)@.write_fault(addr, buf@.len()) == Some(e),
            },
    {
        let write_size: usize = buf.len();
        let page_offset: usize = page_offset(addr);
        let ghost page = page_of(addr);

        if write_size > PAGE_SIZE - page_offset {
            // split write
            let first_size: usize = PAGE_SIZE - page_offset;
            let second_size: usize = write_size - first_size;

            let (first_pfn, _) = match self.probe_write(addr) {
                Ok(entry) => entry,
                Err(e) => return Err(e),
            };
            // if we fail sometime after this,
            // then we'll potentially have done a bit of extra work,
            // if the `probe_write` call did a COW/zero page copy.
            // but we assume thats not much/common overhead.
            // it also doesn't affect correctness, just slight performance hit.
            self.put(Ghost(page), first_pfn, page_offset, buf, 0, first_size);
            assert(buf@.subrange(0, first_size as int) =~= buf@.take(first_size as int));

            let next_page_addr: u64 = addr + first_size as u64;
            proof {
                lemma_step(addr, first_size as nat);
                lemma_page_of(next_page_addr);
            }
            let (second_pfn, _) = match self.probe_write(next_page_addr) {
                Ok(entry) => entry,
                Err(e) => return Err(e),
            };

            self.put(Ghost(next_page_addr), second_pfn, 0, buf, first_size, second_size);
            assert(buf@.subrange(first_size as int, first_size + second_size) =~= buf@.skip(
                first_size as int,
            ));
        } else {
            // common case: all data in single page
            let (pfn, _) = match self.probe_write(addr) {
                Ok(entry) => entry,
                Err(e) => return Err(e),
            };

            self.put(Ghost(page), pfn, page_offset, buf, 0, write_size);
            assert(buf@.subrange(0, write_size as int) =~= buf@);
        }
        Ok(())
    }

    pub fn write_u8(&mut self, addr: VA, value: u8) -> (r: Result<(), MMUError>)
        requires
            old(self).wf(),
            old(self)@.frames_in_use + old(self)@.write_cost(addr, 1) <= max_frames(),
        ensures
            final(self).wf(),
            final(self)@ == old(self)@.write_result(addr, seq![value]),
            match r {
                Ok(()) => old(self)@.write_fault(addr, 1) is None,
                Err(e) => old(self)@.write_fault(addr, 1) == Some(e),
            },
    {
        let buf = [value];
        assert(buf@ =~= seq![value]);
        self.write(addr, &buf)
    }

    pub fn write_u16(&mut self, addr: VA, value: u16) -> (r: Result<(), MMUError>)
        requires
            old(self).wf(),
            addr + 2 <= address_space_end(),
            old(self)@.frames_in_use + old(self)@.write_cost(addr, 2) <= max_frames(),
        ensures
            final(self).wf(),
            final(self)@ == old(self)@.write_result(addr, le_bytes(value as nat, 2)),
            match r {
                Ok(()) => old(self)@.write_fault(addr, 2) is None,
                Err(e) => old(self)@.write_fault(addr, 2) == Some(e),
            },
    {
        let mut buf = [0u8; 2];
        le_write_u16(&mut buf, value);
        proof {
            lemma_le_bytes_len(value as nat, 2);
            assert(buf@ =~= le_bytes(value as nat, 2));
        }
        self.write(addr, &buf)
    }

    pub fn write_u32(&mut self, addr: VA, value: u32) -> (r: Result<(), MMUError>)
        requires
            old(self).wf(),
            addr + 4 <= address_space_end(),
            old(self)@.frames_in_use + old(self)@.write_cost(addr, 4) <= max_frames(),
        ensures
            final(self).wf(),
            final(self)@ == old(self)@.write_result(addr, le_bytes(value as nat, 4)),
            match r {
                Ok(()) => old(self)@.write_fault(addr, 4) is None,
                Err(e) => old(self)@.write_fault(addr, 4) == Some(e),
            },
    {
        let mut buf = [0u8; 4];
        le_write_u32(&mut buf, value);
        proof {
            lemma_le_bytes_len(value as nat, 4);
            assert(buf@ =~= le_bytes(value as nat, 4));
        }
        self.write(addr, &buf)
    }

    pub fn write_u64(&mut self, addr: VA, value: u64) -> (r: Result<(), MMUError>)
        requires
            old(self).wf(),
            addr + 8 <= address_space_end(),
            old(self)@.frames_in_use + old(self)@.write_cost(addr, 8) <= max_frames(),
        ensures
            final(self).wf(),
            final(self)@ == old(self)@.write_result(addr, le_bytes(value as nat, 8)),
            match r {
                Ok(()) => old(self)@.write_fault(addr, 8) is None,
                Err(e) => old(self)@.write_fault(addr, 8) == Some(e),
            },
    {
        let mut buf = [0u8; 8];
        le_write_u64(&mut buf, value);
        proof {
            lemma_le_bytes_len(value as nat, 8);
            assert(buf@ =~= le_bytes(value as nat, 8));
        }
        self.write(addr, &buf)
    }

    pub fn write_u128(&mut self, addr: VA, value: u128) -> (r: Result<(), MMUError>)
        requires
            old(self).wf(),
            addr + 16 <= address_space_end(),
            old(self)@.frames_in_use + old(self)@.write_cost(addr, 16) <= max_frames(),
        ensures
            final(self).wf(),
            final(self)@ == old(self)@.write_result(addr, le_bytes(value as nat, 16)),
            match r {
                Ok(()) => old(self)@.write_fault(addr, 16) is None,
                Err(e) => old(self)@.write_fault(addr, 16) == Some(e),
            },
    {
        let mut buf = [0u8; 16];
        le_write_u128(&mut buf, value);
        proof {
            lemma_le_bytes_len(value as nat, 16);
            assert(buf@ =~= le_bytes(value as nat, 16));
        }
        self.write(addr, &buf)
    }

    // write one page worth of data from the given page-aligned address.
    pub fn write_page(&mut self, addr: VA, value: &[u8]) -> (r: Result<(), MMUError>)
        requires
            old(self).wf(),
            aligned(addr),
            value@.len() == PAGE_SIZE,
            old(self)@.frames_in_use + old(self)@.write_cost(addr, PAGE_SIZE as nat)
                <= max_frames(),
        ensures
            final(self).wf(),
            final(self)@ == old(self)@.write_result(addr, value@),
            match r {
                Ok(()) => old(self)@.write_probe(addr) is None,
                Err(e) => old(self)@.write_probe(addr) == Some(e),
            },
    {
        self.write(addr, value)
    }
}

} // verus!
