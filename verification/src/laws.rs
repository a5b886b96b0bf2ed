//! What holds of every address space: how mapping, reading and writing
//! relate to each other.

use vstd::prelude::*;
use crate::addr::{
    address_space_end, aligned, crosses_page, lemma_page_of, lemma_step, offset_of, page_of,
    PAGE_SIZE, VA,
};
use crate::codec::{
    le_bytes, le_value, lemma_le_bytes_len, lemma_le_bytes_one, lemma_le_roundtrip,
    lemma_radix_values, radix,
};
use crate::flags::{PageFlags, Permissions};
use crate::model::{in_range, next_page, overlay, AddressSpace, Page};

verus! {

/// Once a range has been mapped, every address in it lies in a lazy zero
/// page: it reads as zero, it can be read exactly where `perms` allows
/// reading and written exactly where `perms` allows writing, and no frame
/// has been taken.
pub proof fn lemma_mapped_reads_zero(
    space: AddressSpace,
    addr: VA,
    size: u64,
    perms: Permissions,
    va: VA,
)
    requires
        space.valid(),
        aligned(addr),
        aligned(size),
        addr + size <= address_space_end(),
        space.range_unmapped(addr, size),
        addr <= va < addr + size,
    ensures
        space.map(addr, size, perms).valid(),
        space.map(addr, size, perms).is_mapped(va),
        space.map(addr, size, perms).pages[page_of(va)] == Page::fresh(perms),
        space.map(addr, size, perms).byte_at(va) == 0,
        space.map(addr, size, perms).read_probe(va) is None <==> perms.allows(PageFlags::PERM_R),
        space.map(addr, size, perms).write_probe(va) is None <==> perms.allows(
            PageFlags::PERM_W,
        ),
        space.map(addr, size, perms).frames_in_use == space.frames_in_use,
{
    let after = space.map(addr, size, perms);
    lemma_page_of(va);
    PageFlags::lemma_lazy(perms);
    assert(in_range(page_of(va), addr, size));
    assert forall|page: VA| #[trigger] after.pages.contains_key(page) implies aligned(page)
        && after.pages[page].valid() by {
        if !in_range(page, addr, size) {
            assert(space.pages.contains_key(page));
        }
    }
}

/// Mapping leaves every page outside the range as it was.
pub proof fn lemma_map_keeps_others(
    space: AddressSpace,
    addr: VA,
    size: u64,
    perms: Permissions,
    page: VA,
)
    requires
        !in_range(page, addr, size),
    ensures
        space.map(addr, size, perms).pages.contains_key(page) == space.pages.contains_key(page),
        space.pages.contains_key(page) ==> space.map(addr, size, perms).pages[page]
            == space.pages[page],
{
}

/// Once a range has been mapped, no range that overlaps it is free: a
/// second mapping over any of its pages finds a page that is mapped
/// already. Two ranges overlap when neither is empty and each starts
/// below the end of the other.
pub proof fn lemma_map_overlap(
    space: AddressSpace,
    addr: VA,
    size: u64,
    perms: Permissions,
    addr2: VA,
    size2: u64,
)
    requires
        aligned(addr),
        aligned(size),
        aligned(addr2),
        aligned(size2),
        addr + size <= address_space_end(),
        addr2 + size2 <= address_space_end(),
        size > 0,
        size2 > 0,
        addr2 < addr + size,
        addr < addr2 + size2,
    ensures
        !space.map(addr, size, perms).range_unmapped(addr2, size2),
{
    let shared: VA = if addr < addr2 {
        addr2
    } else {
        addr
    };
    assert(in_range(shared, addr, size));
    assert(in_range(shared, addr2, size2));
    assert(space.map(addr, size, perms).pages.contains_key(shared));
}

/// Unmapping takes the pages of the range away and leaves every other
/// page as it was.
pub proof fn lemma_unmap_pages(space: AddressSpace, addr: VA, size: u64, page: VA)
    requires
        space.valid(),
    ensures
        space.unmap(addr, size).valid(),
        in_range(page, addr, size) ==> !space.unmap(addr, size).pages.contains_key(page),
        !in_range(page, addr, size) ==> space.unmap(addr, size).pages.contains_key(page)
            == space.pages.contains_key(page),
        !in_range(page, addr, size) && space.pages.contains_key(page) ==> space.unmap(
            addr,
            size,
        ).pages[page] == space.pages[page],
{
    let after = space.unmap(addr, size);
    assert forall|p: VA| #[trigger] after.pages.contains_key(p) implies aligned(p)
        && after.pages[p].valid() by {
        assert(space.pages.contains_key(p));
    }
}

/// A page that has been given a frame of its own keeps its bytes and its
/// rights, needs no second frame, and is valid.
pub proof fn lemma_owned(page: Page)
    requires
        page.valid(),
    ensures
        page.owned().valid(),
        page.owned().bytes == page.bytes,
        !page.owned().flags.unbacked(),
        page.owned().owned() == page.owned(),
        page.owned().flags.has(PageFlags::PERM_R) == page.flags.has(PageFlags::PERM_R),
        page.owned().flags.has(PageFlags::PERM_W) == page.flags.has(PageFlags::PERM_W),
        page.owned().flags.has(PageFlags::PERM_X) == page.flags.has(PageFlags::PERM_X),
{
    page.flags.lemma_backed();
}

/// A write into one page changes the bytes written and nothing else in that
/// page, leaves every other page as it was, and keeps the rights of all.
pub proof fn lemma_store(space: AddressSpace, va: VA, data: Seq<u8>)
    requires
        space.valid(),
        space.is_mapped(va),
        offset_of(va) + data.len() <= PAGE_SIZE,
    ensures
        space.store(va, data).valid(),
        space.store(va, data).pages.dom() == space.pages.dom(),
        space.store(va, data).pages[page_of(va)].bytes == overlay(
            space.pages[page_of(va)].bytes,
            offset_of(va) as int,
            data,
        ),
        space.store(va, data).pages[page_of(va)].flags == space.pages[page_of(va)].owned().flags,
        space.store(va, data).frames_in_use == space.frames_in_use + space.own_cost(va),
        forall|other: VA|
            other != page_of(va) ==> #[trigger] space.store(va, data).pages[other]
                == space.pages[other],
        forall|at: VA|
            space.store(va, data).read_probe(at) == #[trigger] space.read_probe(at),
        forall|at: VA|
            space.store(va, data).write_probe(at) == #[trigger] space.write_probe(at),
{
    let after = space.store(va, data);
    lemma_owned(space.pages[page_of(va)]);
    assert(after.pages.dom() =~= space.pages.dom());
    assert forall|page: VA| #[trigger] after.pages.contains_key(page) implies aligned(page)
        && after.pages[page].valid() by {
        assert(space.pages.contains_key(page));
    }
    assert forall|at: VA| after.read_probe(at) == #[trigger] space.read_probe(at) by {
        if page_of(at) == page_of(va) {
        } else {
            assert(after.pages[page_of(at)] == space.pages[page_of(at)]);
        }
    }
    assert forall|at: VA| after.write_probe(at) == #[trigger] space.write_probe(at) by {
        if page_of(at) == page_of(va) {
        } else {
            assert(after.pages[page_of(at)] == space.pages[page_of(at)]);
        }
    }
}

/// A write keeps the address space valid and the set of mapped pages, and
/// takes as many frames as `write_cost` says.
pub proof fn lemma_write_result(space: AddressSpace, va: VA, data: Seq<u8>)
    requires
        space.valid(),
        data.len() <= PAGE_SIZE,
        va + data.len() <= address_space_end(),
    ensures
        space.write_result(va, data).valid(),
        space.write_result(va, data).pages.dom() == space.pages.dom(),
        space.write_result(va, data).frames_in_use == space.frames_in_use + space.write_cost(
            va,
            data.len(),
        ),
        forall|at: VA|
            space.write_result(va, data).read_probe(at) == #[trigger] space.read_probe(at),
        forall|at: VA|
            space.write_result(va, data).write_probe(at) == #[trigger] space.write_probe(at),
{
    let first = AddressSpace::first_part(va, data.len()) as int;
    if space.write_probe(va) is Some {
    } else if !crosses_page(va, data.len()) {
        lemma_store(space, va, data);
    } else {
        lemma_store(space, va, data.take(first));
        let half = space.store(va, data.take(first));
        lemma_step(va, first as nat);
        lemma_page_of(next_page(va));
        assert(half.write_probe(next_page(va)) == space.write_probe(next_page(va)));
        if space.write_probe(next_page(va)) is None {
            lemma_store(half, next_page(va), data.skip(first));
            let full = half.store(next_page(va), data.skip(first));
            assert(half.pages[next_page(va)] == space.pages[next_page(va)]);
            assert forall|at: VA| full.read_probe(at) == #[trigger] space.read_probe(at) by {
                assert(full.read_probe(at) == half.read_probe(at));
            }
            assert forall|at: VA| full.write_probe(at) == #[trigger] space.write_probe(at) by {
                assert(full.write_probe(at) == half.write_probe(at));
            }
        }
    }
}

/// Round trip: where a write succeeds, a read of as many bytes at the same
/// address finds the bytes written. The read succeeds wherever it would
/// have before the write.
pub proof fn lemma_write_then_read(space: AddressSpace, va: VA, data: Seq<u8>)
    requires
        space.valid(),
        data.len() <= PAGE_SIZE,
        va + data.len() <= address_space_end(),
        space.write_fault(va, data.len()) is None,
    ensures
        space.write_result(va, data).read_fault(va, data.len()) == space.read_fault(
            va,
            data.len(),
        ),
        space.write_result(va, data).bytes_at(va, data.len()) == data,
{
    let after = space.write_result(va, data);
    let first = AddressSpace::first_part(va, data.len()) as int;
    lemma_write_result(space, va, data);
    lemma_page_of(va);
    if !crosses_page(va, data.len()) {
        lemma_store(space, va, data);
        assert forall|i: int| 0 <= i < data.len() implies after.byte_at((va + i) as VA)
            == data[i] by {
            lemma_step(va, i as nat);
        }
    } else {
        lemma_store(space, va, data.take(first));
        let half = space.store(va, data.take(first));
        lemma_step(va, first as nat);
        lemma_page_of(next_page(va));
        lemma_store(half, next_page(va), data.skip(first));
        assert forall|i: int| 0 <= i < data.len() implies after.byte_at((va + i) as VA)
            == data[i] by {
            lemma_step(va, i as nat);
        }
    }
    assert(after.bytes_at(va, data.len()) =~= data);
}

/// Round trip of a typed accessor: an integer that fits `width` bytes and
/// is written at a writable address is what the bytes read there spell.
pub proof fn lemma_typed_round_trip(space: AddressSpace, va: VA, value: nat, width: nat)
    requires
        space.valid(),
        width <= PAGE_SIZE,
        va + width <= address_space_end(),
        value < radix(width),
        space.write_fault(va, width) is None,
    ensures
        le_value(space.write_result(va, le_bytes(value, width)).bytes_at(va, width)) == value,
        space.write_result(va, le_bytes(value, width)).read_fault(va, width) == space.read_fault(
            va,
            width,
        ),
{
    lemma_le_bytes_len(value, width);
    lemma_le_roundtrip(value, width);
    lemma_write_then_read(space, va, le_bytes(value, width));
}

/// Round trip of `write_u8` and `read_u8`: the one byte written is its own
/// encoding, and it is the byte read.
pub proof fn lemma_round_trip_u8(space: AddressSpace, va: VA, value: u8)
    requires
        space.valid(),
        space.write_fault(va, 1) is None,
    ensures
        seq![value] == le_bytes(value as nat, 1),
        space.write_result(va, seq![value]).byte_at(va) == value,
        space.write_result(va, seq![value]).read_fault(va, 1) == space.read_fault(va, 1),
{
    lemma_le_bytes_one(value);
    lemma_write_then_read(space, va, seq![value]);
    assert(space.write_result(va, seq![value]).bytes_at(va, 1)[0] == value);
}

/// Round trip of `write_u16` and `read_u16`.
pub proof fn lemma_round_trip_u16(space: AddressSpace, va: VA, value: u16)
    requires
        space.valid(),
        va + 2 <= address_space_end(),
        space.write_fault(va, 2) is None,
    ensures
        le_value(space.write_result(va, le_bytes(value as nat, 2)).bytes_at(va, 2)) == value,
        space.write_result(va, le_bytes(value as nat, 2)).read_fault(va, 2) == space.read_fault(
            va,
            2,
        ),
{
    lemma_radix_values();
    lemma_typed_round_trip(space, va, value as nat, 2);
}

/// Round trip of `write_u32` and `read_u32`.
pub proof fn lemma_round_trip_u32(space: AddressSpace, va: VA, value: u32)
    requires
        space.valid(),
        va + 4 <= address_space_end(),
        space.write_fault(va, 4) is None,
    ensures
        le_value(space.write_result(va, le_bytes(value as nat, 4)).bytes_at(va, 4)) == value,
        space.write_result(va, le_bytes(value as nat, 4)).read_fault(va, 4) == space.read_fault(
            va,
            4,
        ),
{
    lemma_radix_values();
    lemma_typed_round_trip(space, va, value as nat, 4);
}

/// Round trip of `write_u64` and `read_u64`.
pub proof fn lemma_round_trip_u64(space: AddressSpace, va: VA, value: u64)
    requires
        space.valid(),
        va + 8 <= address_space_end(),
        space.write_fault(va, 8) is None,
    ensures
        le_value(space.write_result(va, le_bytes(value as nat, 8)).bytes_at(va, 8)) == value,
        space.write_result(va, le_bytes(value as nat, 8)).read_fault(va, 8) == space.read_fault(
            va,
            8,
        ),
{
    lemma_radix_values();
    lemma_typed_round_trip(space, va, value as nat, 8);
}

/// Round trip of `write_u128` and `read_u128`.
pub proof fn lemma_round_trip_u128(space: AddressSpace, va: VA, value: u128)
    requires
        space.valid(),
        va + 16 <= address_space_end(),
        space.write_fault(va, 16) is None,
    ensures
        le_value(space.write_result(va, le_bytes(value as nat, 16)).bytes_at(va, 16)) == value,
        space.write_result(va, le_bytes(value as nat, 16)).read_fault(va, 16)
            == space.read_fault(va, 16),
{
    lemma_radix_values();
    lemma_typed_round_trip(space, va, value as nat, 16);
}

/// Round trip of `write_page` and `read_page`.
pub proof fn lemma_round_trip_page(space: AddressSpace, va: VA, data: Seq<u8>)
    requires
        space.valid(),
        aligned(va),
        data.len() == PAGE_SIZE,
        space.write_probe(va) is None,
    ensures
        space.write_result(va, data).pages[va].bytes == data,
        space.write_result(va, data).read_probe(va) == space.read_probe(va),
{
    lemma_page_of(va);
    lemma_store(space, va, data);
    lemma_write_result(space, va, data);
    assert(space.write_result(va, data).pages[va].bytes =~= data);
}

/// Materialization is transparent: a lazy zero page reads as zero, a first
/// write into it takes exactly one frame, which is all the room that it
/// needs in the pool, and a read after it finds what was written.
pub proof fn lemma_first_write(space: AddressSpace, va: VA, data: Seq<u8>)
    requires
        space.valid(),
        !crosses_page(va, data.len()),
        space.write_probe(va) is None,
        space.flags_at(va).has(PageFlags::ZERO),
    ensures
        space.bytes_at(va, data.len()) == Seq::new(data.len(), |i: int| 0u8),
        space.write_result(va, data).bytes_at(va, data.len()) == data,
        space.write_cost(va, data.len()) == 1,
        space.write_result(va, data).frames_in_use == space.frames_in_use + 1,
        !space.write_result(va, data).flags_at(va).unbacked(),
        space.write_result(va, data).write_cost(va, data.len()) == 0,
        space.write_result(va, data).read_probe(va) == space.read_probe(va),
{
    lemma_page_of(va);
    lemma_write_then_read(space, va, data);
    lemma_write_result(space, va, data);
    lemma_store(space, va, data);
    lemma_owned(space.pages[page_of(va)]);
    assert forall|i: int| 0 <= i < data.len() implies #[trigger] space.bytes_at(
        va,
        data.len(),
    )[i] == 0u8 by {
        lemma_step(va, i as nat);
    }
    assert(space.bytes_at(va, data.len()) =~= Seq::new(data.len(), |i: int| 0u8));
}

/// A read of several bytes finds, at each place, the byte that a read of
/// one byte finds at that address, and succeeds only where each of those
/// reads does: a value that lies across a page boundary decodes as the bytes
/// read one at a time do.
pub proof fn lemma_read_bytewise(space: AddressSpace, va: VA, len: nat, i: nat)
    requires
        len <= PAGE_SIZE,
        va + len <= address_space_end(),
        i < len,
    ensures
        space.bytes_at(va, len)[i as int] == space.byte_at((va + i) as VA),
        space.bytes_at(va, len)[i as int] == space.bytes_at((va + i) as VA, 1)[0],
        space.read_fault(va, len) is None ==> space.read_fault((va + i) as VA, 1) is None,
{
    lemma_step(va, i);
    lemma_page_of(va);
}

/// A write of several bytes leaves the address space as writing the same
/// bytes one at a time, at consecutive addresses, leaves it: also where the
/// bytes lie across a page boundary.
pub proof fn lemma_write_bytewise(space: AddressSpace, va: VA, data: Seq<u8>)
    requires
        space.valid(),
        1 <= data.len() <= PAGE_SIZE,
        va + data.len() <= address_space_end(),
        space.write_fault(va, data.len()) is None,
    ensures
        space.write_each(va, data) == space.write_result(va, data),
    decreases data.len(),
{
    let n = data.len() as int;
    let prefix = data.drop_last();
    let tail = seq![data.last()];
    let last_va = (va + n - 1) as VA;
    lemma_page_of(va);
    if n == 1 {
        assert(space.write_each(va, prefix) == space);
        assert(tail =~= data);
    } else {
        lemma_write_bytewise(space, va, prefix);
        let mid = space.write_result(va, prefix);
        let want = space.write_result(va, data);
        let got = mid.write_result(last_va, tail);
        let first = AddressSpace::first_part(va, data.len()) as int;
        lemma_write_result(space, va, prefix);
        lemma_write_result(space, va, data);
        lemma_step(va, (n - 1) as nat);
        lemma_page_of(last_va);
        lemma_page_of(next_page(va));
        lemma_owned(space.pages[page_of(va)]);
        if offset_of(va) + n <= PAGE_SIZE {
            // every byte goes to the first page
            lemma_store(space, va, prefix);
            lemma_store(space, va, data);
            lemma_store(mid, last_va, tail);
            assert(got.pages[page_of(va)].bytes =~= want.pages[page_of(va)].bytes);
            assert(got.pages =~= want.pages);
        } else if offset_of(va) + n - 1 == PAGE_SIZE {
            // the last byte is the first of the second page
            assert(data.take(first) =~= prefix);
            assert(data.skip(first) =~= tail);
            assert(last_va == next_page(va));
        } else {
            // the second page holds bytes of the prefix already
            let half = space.store(va, data.take(first));
            assert(prefix.take(first) =~= data.take(first));
            lemma_store(space, va, data.take(first));
            lemma_step(va, first as nat);
            lemma_owned(space.pages[next_page(va)]);
            lemma_store(half, next_page(va), prefix.skip(first));
            lemma_store(half, next_page(va), data.skip(first));
            lemma_store(mid, last_va, tail);
            assert(got.pages[next_page(va)].bytes =~= want.pages[next_page(va)].bytes);
            assert(got.pages =~= want.pages);
        }
        assert(got =~= want);
    }
}

} // verus!
