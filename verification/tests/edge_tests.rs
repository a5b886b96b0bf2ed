use mmu::addr::{is_page_aligned, page_number, page_offset};
use mmu::{MMUError, PageFlags, PageFrames, Permissions, MMU, PAGE_SIZE};

#[test]
fn page_arithmetic() {
    assert!(is_page_aligned(0));
    assert!(is_page_aligned(0x1000));
    assert!(!is_page_aligned(0x1001));
    assert!(!is_page_aligned(0xfff));
    assert!(is_page_aligned(0xffff_ffff_ffff_f000));

    assert_eq!(page_number(0x1234), 0x1000);
    assert_eq!(page_number(0x1fff), 0x1000);
    assert_eq!(page_number(0x2000), 0x2000);
    assert_eq!(page_number(u64::MAX), 0xffff_ffff_ffff_f000);

    assert_eq!(page_offset(0x1234), 0x234);
    assert_eq!(page_offset(0x2000), 0);
    assert_eq!(page_offset(u64::MAX), 0xfff);
}

#[test]
fn permission_bits() {
    assert_eq!(Permissions::NONE.bits(), 0b000);
    assert_eq!(Permissions::R.bits(), 0b001);
    assert_eq!(Permissions::W.bits(), 0b010);
    assert_eq!(Permissions::X.bits(), 0b100);
    assert_eq!(Permissions::RW.bits(), 0b011);
    assert_eq!(Permissions::RX.bits(), 0b101);
    assert_eq!(Permissions::WX.bits(), 0b110);
    assert_eq!(Permissions::RWX.bits(), 0b111);
}

#[test]
fn page_flags() {
    assert_eq!(PageFlags::PERM_RW, PageFlags::PERM_R | PageFlags::PERM_W);
    assert_eq!(PageFlags::PERM_RX, PageFlags::PERM_R | PageFlags::PERM_X);
    assert_eq!(PageFlags::PERM_WX, PageFlags::PERM_W | PageFlags::PERM_X);
    assert_eq!(
        PageFlags::PERM_RWX,
        PageFlags::PERM_R | PageFlags::PERM_W | PageFlags::PERM_X
    );

    let mut flags = PageFlags::from_bits_truncate(0xffff_ffff);
    assert_eq!(flags.bits(), 0b1_1111);
    assert!(flags.intersects(PageFlags::ZERO));
    assert!(flags.intersects(PageFlags::COW));

    flags.remove(PageFlags::ZERO);
    assert_eq!(flags.bits(), 0b1_0111);
    assert!(!flags.intersects(PageFlags::ZERO));
    assert!(flags.intersects(PageFlags::ZERO | PageFlags::COW));

    flags.remove(PageFlags::COW);
    assert_eq!(flags.bits(), 0b0_0111);
    assert!(!flags.intersects(PageFlags::ZERO | PageFlags::COW));
    assert!(flags.intersects(PageFlags::PERM_W));

    let lazy = PageFlags::from_bits_truncate(PageFlags::ZERO | Permissions::RX.bits() as u32);
    assert_eq!(lazy.bits(), 0b0_1101);
    assert!(!lazy.intersects(PageFlags::PERM_W));
    assert_eq!(lazy, PageFlags::from_bits_truncate(0b0_1101));
}

#[test]
fn every_fault() {
    let mut mmu: MMU = Default::default();
    mmu.mmap(0x1000, 0x1000, Permissions::NONE).unwrap();
    mmu.mmap(0x2000, 0x1000, Permissions::X).unwrap();

    assert_eq!(mmu.mmap(0x1000, 0x1000, Permissions::R), Err(MMUError::AddressAlreadyMapped(0x1000)));
    assert_eq!(mmu.munmap(0x3000, 0x1000), Err(MMUError::AddressNotMapped(0x3000)));
    assert_eq!(mmu.read_u8(0x3004), Err(MMUError::AddressNotMapped(0x3004)));
    assert_eq!(mmu.write_u8(0x3004, 0), Err(MMUError::AddressNotMapped(0x3004)));
    assert_eq!(mmu.read_u16(0x1004), Err(MMUError::AddressNotReadable(0x1004)));
    assert_eq!(mmu.read_u32(0x2004), Err(MMUError::AddressNotReadable(0x2004)));
    assert_eq!(mmu.write_u64(0x1004, 0), Err(MMUError::AddressNotWritable(0x1004)));
    assert_eq!(mmu.write_u128(0x2004, 0), Err(MMUError::AddressNotWritable(0x2004)));
    assert_eq!(mmu.read_page(0x1000), Err(MMUError::AddressNotReadable(0x1000)));
    assert_eq!(
        mmu.write_page(0x3000, &[0u8; PAGE_SIZE]),
        Err(MMUError::AddressNotMapped(0x3000))
    );
    assert_eq!(mmu.frames_in_use(), 0);
}

#[test]
fn little_endian_layout() {
    let mut mmu: MMU = Default::default();
    mmu.mmap(0x1000, 0x1000, Permissions::RW).unwrap();

    mmu.write_u32(0x1000, 0x1122_3344).unwrap();
    assert_eq!(mmu.read_u8(0x1000).unwrap(), 0x44);
    assert_eq!(mmu.read_u8(0x1001).unwrap(), 0x33);
    assert_eq!(mmu.read_u8(0x1002).unwrap(), 0x22);
    assert_eq!(mmu.read_u8(0x1003).unwrap(), 0x11);
    assert_eq!(mmu.read_u16(0x1001).unwrap(), 0x2233);

    mmu.write_u16(0x1010, 0xa1b2).unwrap();
    mmu.write_u64(0x1020, 0x0102_0304_0506_0708).unwrap();
    mmu.write_u128(0x1030, 0x0102_0304_0506_0708_090a_0b0c_0d0e_0f10).unwrap();
    let page = mmu.read_page(0x1000).unwrap();
    assert_eq!(page[0x10..0x12], [0xb2, 0xa1]);
    assert_eq!(page[0x20..0x28], [8, 7, 6, 5, 4, 3, 2, 1]);
    assert_eq!(
        page[0x30..0x40],
        [16, 15, 14, 13, 12, 11, 10, 9, 8, 7, 6, 5, 4, 3, 2, 1]
    );

    for (i, byte) in [0x10u8, 0x20, 0x30, 0x40, 0x50, 0x60, 0x70, 0x80].iter().enumerate() {
        mmu.write_u8(0x1100 + i as u64, *byte).unwrap();
    }
    assert_eq!(mmu.read_u16(0x1100).unwrap(), 0x2010);
    assert_eq!(mmu.read_u32(0x1100).unwrap(), 0x4030_2010);
    assert_eq!(mmu.read_u64(0x1100).unwrap(), 0x8070_6050_4030_2010);
    assert_eq!(mmu.read_u128(0x1100).unwrap(), 0x8070_6050_4030_2010);
}

#[test]
fn access_that_ends_at_the_page_end_touches_one_page() {
    let mut mmu: MMU = Default::default();
    mmu.mmap(0x1000, 0x1000, Permissions::RW).unwrap();

    // nothing is mapped behind the page.
    assert_eq!(mmu.write_u64(0x1ff8, 0x0123_4567_89ab_cdef), Ok(()));
    assert_eq!(mmu.read_u64(0x1ff8).unwrap(), 0x0123_4567_89ab_cdef);
    assert_eq!(mmu.write_u8(0x1fff, 0x77), Ok(()));
    assert_eq!(mmu.read_u8(0x1fff).unwrap(), 0x77);
    assert_eq!(mmu.read_u64(0x1ff8).unwrap(), 0x7723_4567_89ab_cdef);

    let mut page = [0u8; PAGE_SIZE];
    page[0] = 1;
    page[PAGE_SIZE - 1] = 2;
    assert_eq!(mmu.write_page(0x1000, &page), Ok(()));
    assert_eq!(mmu.read_page(0x1000).unwrap(), page);
    assert_eq!(mmu.frames_in_use(), 1);
}

#[test]
fn read_across_a_boundary_probes_both_pages_in_order() {
    let mut mmu: MMU = Default::default();
    mmu.mmap(0x2000, 0x1000, Permissions::R).unwrap();

    // second page missing.
    assert_eq!(mmu.read_u16(0x2fff), Err(MMUError::AddressNotMapped(0x3000)));
    // first page missing.
    assert_eq!(mmu.read_u16(0x1fff), Err(MMUError::AddressNotMapped(0x1fff)));

    mmu.mmap(0x3000, 0x1000, Permissions::W).unwrap();
    assert_eq!(mmu.read_u32(0x2ffd), Err(MMUError::AddressNotReadable(0x3000)));
    assert_eq!(mmu.read_u32(0x2ffc).unwrap(), 0);

    // both pages stop the read: the first one is reported.
    mmu.mmap(0x1000, 0x1000, Permissions::W).unwrap();
    assert_eq!(mmu.read_u32(0x1ffe), Err(MMUError::AddressNotReadable(0x1ffe)));
}

#[test]
fn read_across_a_boundary_mixes_lazy_and_backed_pages() {
    let mut mmu: MMU = Default::default();
    mmu.mmap(0x1000, 0x3000, Permissions::RW).unwrap();
    mmu.write_u32(0x2000, 0xaabb_ccdd).unwrap();
    assert_eq!(mmu.frames_in_use(), 1);

    // lazy page first, backed page second.
    assert_eq!(mmu.read_u32(0x1ffe).unwrap(), 0xccdd_0000);
    // backed page first, lazy page second.
    mmu.write_u8(0x2fff, 0xee).unwrap();
    assert_eq!(mmu.read_u32(0x2ffd).unwrap(), 0x00ee_0000);
    assert_eq!(mmu.frames_in_use(), 1);
}

#[test]
fn failed_second_half_leaves_the_first_half_written() {
    let mut mmu: MMU = Default::default();
    mmu.mmap(0x1000, 0x1000, Permissions::RW).unwrap();
    mmu.mmap(0x2000, 0x1000, Permissions::R).unwrap();

    assert_eq!(mmu.write_u32(0x1ffe, 0x1122_3344), Err(MMUError::AddressNotWritable(0x2000)));

    // the first page has its frame and the two low bytes.
    assert_eq!(mmu.frames_in_use(), 1);
    assert_eq!(mmu.read_u8(0x1ffe).unwrap(), 0x44);
    assert_eq!(mmu.read_u8(0x1fff).unwrap(), 0x33);
    // the second page is untouched.
    assert_eq!(mmu.read_page(0x2000).unwrap(), [0u8; PAGE_SIZE]);

    // a write that the first page stops changes nothing.
    let mut other: MMU = Default::default();
    other.mmap(0x1000, 0x1000, Permissions::R).unwrap();
    other.mmap(0x2000, 0x1000, Permissions::RW).unwrap();
    assert_eq!(other.write_u32(0x1ffe, 0x1122_3344), Err(MMUError::AddressNotWritable(0x1ffe)));
    assert_eq!(other.frames_in_use(), 0);
    assert_eq!(other.read_page(0x2000).unwrap(), [0u8; PAGE_SIZE]);
}

#[test]
fn unmapping_gives_frames_back() {
    let mut mmu: MMU = Default::default();
    mmu.mmap(0x1000, 0x4000, Permissions::RW).unwrap();
    mmu.write_u8(0x1000, 1).unwrap();
    mmu.write_u8(0x3000, 3).unwrap();
    mmu.write_u8(0x4000, 4).unwrap();
    assert_eq!(mmu.frames_in_use(), 3);

    // one backed page and one lazy page leave.
    mmu.munmap(0x1000, 0x2000).unwrap();
    assert_eq!(mmu.frames_in_use(), 2);
    assert_eq!(mmu.read_u8(0x1000), Err(MMUError::AddressNotMapped(0x1000)));
    assert_eq!(mmu.read_u8(0x2000), Err(MMUError::AddressNotMapped(0x2000)));
    assert_eq!(mmu.read_u8(0x3000).unwrap(), 3);
    assert_eq!(mmu.read_u8(0x4000).unwrap(), 4);

    // a page mapped again starts from zero, in the frame that was freed.
    mmu.mmap(0x1000, 0x1000, Permissions::RW).unwrap();
    assert_eq!(mmu.read_page(0x1000).unwrap(), [0u8; PAGE_SIZE]);
    mmu.write_u8(0x1008, 9).unwrap();
    assert_eq!(mmu.frames_in_use(), 3);
    let mut want = [0u8; PAGE_SIZE];
    want[8] = 9;
    assert_eq!(mmu.read_page(0x1000).unwrap(), want);
    assert_eq!(mmu.read_u8(0x3000).unwrap(), 3);
    assert_eq!(mmu.read_u8(0x4000).unwrap(), 4);
}

#[test]
fn empty_range() {
    let mut mmu: MMU = Default::default();
    assert_eq!(mmu.mmap(0x1000, 0, Permissions::RW), Ok(()));
    assert_eq!(mmu.read_u8(0x1000), Err(MMUError::AddressNotMapped(0x1000)));
    assert_eq!(mmu.munmap(0x1000, 0), Ok(()));

    mmu.mmap(0x1000, 0x1000, Permissions::RW).unwrap();
    assert_eq!(mmu.mmap(0x1000, 0, Permissions::RW), Ok(()));
    assert_eq!(mmu.munmap(0x1000, 0), Ok(()));
    assert_eq!(mmu.read_u8(0x1000).unwrap(), 0);
}

#[test]
fn top_of_the_address_space() {
    let mut mmu: MMU = Default::default();
    mmu.mmap(0xffff_ffff_ffff_f000, 0x1000, Permissions::RW).unwrap();

    assert_eq!(mmu.write_u8(u64::MAX, 0x42), Ok(()));
    assert_eq!(mmu.read_u8(u64::MAX).unwrap(), 0x42);
    assert_eq!(mmu.write_u64(0xffff_ffff_ffff_fff8, 0x0807_0605_0403_0201), Ok(()));
    assert_eq!(mmu.read_u64(0xffff_ffff_ffff_fff8).unwrap(), 0x0807_0605_0403_0201);
    assert_eq!(mmu.read_page(0xffff_ffff_ffff_f000).unwrap()[PAGE_SIZE - 1], 0x08);
    mmu.munmap(0xffff_ffff_ffff_f000, 0x1000).unwrap();
    assert_eq!(mmu.frames_in_use(), 0);
}

#[test]
fn clone_shares_nothing() {
    let mut mmu: MMU = Default::default();
    mmu.mmap(0x1000, 0x2000, Permissions::RW).unwrap();
    mmu.write_u32(0x1000, 0x0a0b_0c0d).unwrap();

    let mut copy = mmu.clone();
    assert_eq!(copy.read_u32(0x1000).unwrap(), 0x0a0b_0c0d);
    assert_eq!(copy.read_u32(0x2000).unwrap(), 0);
    assert_eq!(copy.frames_in_use(), 1);

    copy.write_u32(0x1000, 1).unwrap();
    copy.write_u32(0x2000, 2).unwrap();
    copy.mmap(0x3000, 0x1000, Permissions::R).unwrap();
    mmu.munmap(0x2000, 0x1000).unwrap();

    assert_eq!(mmu.read_u32(0x1000).unwrap(), 0x0a0b_0c0d);
    assert_eq!(mmu.read_u32(0x2000), Err(MMUError::AddressNotMapped(0x2000)));
    assert_eq!(mmu.read_u8(0x3000), Err(MMUError::AddressNotMapped(0x3000)));
    assert_eq!(mmu.frames_in_use(), 1);

    assert_eq!(copy.read_u32(0x1000).unwrap(), 1);
    assert_eq!(copy.read_u32(0x2000).unwrap(), 2);
    assert_eq!(copy.read_u8(0x3000).unwrap(), 0);
    assert_eq!(copy.frames_in_use(), 2);
}

#[test]
fn pool_clone_and_reserve() {
    let mut pfs: PageFrames = Default::default();
    pfs.reserve(16);
    assert_eq!(pfs.in_use(), 0);
    assert_eq!(pfs.allocate(), 0);
    assert_eq!(pfs.allocate(), 1);
    pfs.get_mut(1)[0] = 0x11;
    pfs.deallocate(0);

    let mut copy = pfs.clone();
    assert_eq!(copy.in_use(), 1);
    assert_eq!(copy.get(1)[0], 0x11);
    assert_eq!(copy.allocate(), 0);
    copy.get_mut(1)[0] = 0x22;

    assert_eq!(pfs.in_use(), 1);
    assert_eq!(pfs.get(1)[0], 0x11);
    pfs.reserve(0);
    assert_eq!(pfs.allocate(), 0);
    assert_eq!(pfs.allocate(), 2);
}
