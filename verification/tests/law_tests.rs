use mmu::{MMUError, PageFrames, Permissions, MMU, PAGE_SIZE};

fn readback(mmu: &MMU, pages: &[u64]) -> Vec<Result<[u8; PAGE_SIZE], MMUError>> {
    pages.iter().map(|page| mmu.read_page(*page)).collect()
}

#[test]
fn fresh_mapping_reads_zero_under_its_permissions() {
    let mut mmu: MMU = Default::default();
    mmu.mmap(0x4000, 0x3000, Permissions::R).unwrap();

    for page in [0x4000u64, 0x5000, 0x6000] {
        assert_eq!(mmu.read_page(page).unwrap(), [0u8; PAGE_SIZE]);
        assert_eq!(mmu.read_u64(page + 0x10).unwrap(), 0);
        assert_eq!(mmu.write_u8(page, 1), Err(MMUError::AddressNotWritable(page)));
    }
    assert_eq!(mmu.frames_in_use(), 0);
}

#[test]
fn write_only_mapping_cannot_be_read() {
    let mut mmu: MMU = Default::default();
    mmu.mmap(0x4000, 0x1000, Permissions::W).unwrap();

    assert_eq!(mmu.write_u8(0x4000, 7), Ok(()));
    assert_eq!(mmu.read_u8(0x4000), Err(MMUError::AddressNotReadable(0x4000)));
}

#[test]
fn mapping_over_a_mapped_page_fails_and_changes_nothing() {
    let pages = [0x1000u64, 0x2000, 0x3000, 0x4000, 0x5000];
    let mut mmu: MMU = Default::default();
    mmu.mmap(0x2000, 0x2000, Permissions::RW).unwrap();
    mmu.write_u32(0x2ffe, 0xdeadbeef).unwrap();

    let before = readback(&mmu, &pages);
    let frames = mmu.frames_in_use();

    // the second range starts below the first and runs into it.
    assert_eq!(
        mmu.mmap(0x1000, 0x3000, Permissions::R),
        Err(MMUError::AddressAlreadyMapped(0x2000))
    );
    // the second range starts inside the first.
    assert_eq!(
        mmu.mmap(0x3000, 0x3000, Permissions::R),
        Err(MMUError::AddressAlreadyMapped(0x3000))
    );
    // the same range again.
    assert_eq!(
        mmu.mmap(0x2000, 0x2000, Permissions::RW),
        Err(MMUError::AddressAlreadyMapped(0x2000))
    );

    assert_eq!(readback(&mmu, &pages), before);
    assert_eq!(mmu.frames_in_use(), frames);
    assert_eq!(mmu.read_u32(0x2ffe).unwrap(), 0xdeadbeef);
}

#[test]
fn unmapping_a_range_with_a_hole_fails_and_changes_nothing() {
    let pages = [0x1000u64, 0x2000, 0x3000, 0x4000];
    let mut mmu: MMU = Default::default();
    mmu.mmap(0x1000, 0x1000, Permissions::RW).unwrap();
    mmu.mmap(0x3000, 0x1000, Permissions::RW).unwrap();
    mmu.write_u8(0x1000, 0xaa).unwrap();
    mmu.write_u8(0x3000, 0xbb).unwrap();

    let before = readback(&mmu, &pages);

    assert_eq!(mmu.munmap(0x1000, 0x3000), Err(MMUError::AddressNotMapped(0x2000)));
    assert_eq!(mmu.munmap(0x3000, 0x2000), Err(MMUError::AddressNotMapped(0x4000)));
    assert_eq!(mmu.munmap(0x0, 0x2000), Err(MMUError::AddressNotMapped(0x0)));

    assert_eq!(readback(&mmu, &pages), before);
    assert_eq!(mmu.frames_in_use(), 2);
    assert_eq!(mmu.read_u8(0x1000).unwrap(), 0xaa);
    assert_eq!(mmu.read_u8(0x3000).unwrap(), 0xbb);
}

#[test]
fn round_trip_of_every_width() {
    let mut mmu: MMU = Default::default();
    mmu.mmap(0x1000, 0x2000, Permissions::RW).unwrap();

    for addr in [0x1000u64, 0x1001, 0x1ff0, 0x1ff1, 0x1fff, 0x2000, 0x2ff0] {
        mmu.write_u8(addr, 0xfe).unwrap();
        assert_eq!(mmu.read_u8(addr).unwrap(), 0xfe);

        mmu.write_u16(addr, 0xfedc).unwrap();
        assert_eq!(mmu.read_u16(addr).unwrap(), 0xfedc);

        mmu.write_u32(addr, 0xfedc_ba98).unwrap();
        assert_eq!(mmu.read_u32(addr).unwrap(), 0xfedc_ba98);

        mmu.write_u64(addr, 0xfedc_ba98_7654_3210).unwrap();
        assert_eq!(mmu.read_u64(addr).unwrap(), 0xfedc_ba98_7654_3210);

        mmu.write_u128(addr, 0xfedc_ba98_7654_3210_0123_4567_89ab_cdef).unwrap();
        assert_eq!(
            mmu.read_u128(addr).unwrap(),
            0xfedc_ba98_7654_3210_0123_4567_89ab_cdef
        );
    }
    assert_eq!(mmu.write_u128(0x1ff8, u128::MAX), Ok(()));
    assert_eq!(mmu.read_u128(0x1ff8).unwrap(), u128::MAX);
}

#[test]
fn write_across_a_boundary_equals_bytes_written_one_at_a_time() {
    let value: u64 = 0x1122_3344_5566_7788;

    let mut whole: MMU = Default::default();
    whole.mmap(0x1000, 0x2000, Permissions::RW).unwrap();
    whole.write_u64(0x1ffd, value).unwrap();

    let mut single: MMU = Default::default();
    single.mmap(0x1000, 0x2000, Permissions::RW).unwrap();
    for (i, byte) in value.to_le_bytes().iter().enumerate() {
        single.write_u8(0x1ffd + i as u64, *byte).unwrap();
    }

    assert_eq!(whole.read_page(0x1000).unwrap(), single.read_page(0x1000).unwrap());
    assert_eq!(whole.read_page(0x2000).unwrap(), single.read_page(0x2000).unwrap());
    assert_eq!(whole.frames_in_use(), single.frames_in_use());
    assert_eq!(single.read_u64(0x1ffd).unwrap(), value);

    let mut bytes = [0u8; 8];
    for (i, byte) in bytes.iter_mut().enumerate() {
        *byte = whole.read_u8(0x1ffd + i as u64).unwrap();
    }
    assert_eq!(u64::from_le_bytes(bytes), value);
    assert_eq!(whole.read_u64(0x1ffd).unwrap(), value);
}

#[test]
fn first_write_takes_exactly_one_frame() {
    let mut mmu: MMU = Default::default();
    mmu.mmap(0x1000, 0x3000, Permissions::RW).unwrap();
    assert_eq!(mmu.frames_in_use(), 0);

    assert_eq!(mmu.read_u32(0x2010).unwrap(), 0);
    assert_eq!(mmu.frames_in_use(), 0);

    mmu.write_u32(0x2010, 0xcafe_f00d).unwrap();
    assert_eq!(mmu.frames_in_use(), 1);
    assert_eq!(mmu.read_u32(0x2010).unwrap(), 0xcafe_f00d);

    // the page has its frame now: no further write to it takes another.
    mmu.write_u32(0x2020, 1).unwrap();
    mmu.write_page(0x2000, &[0x5a; PAGE_SIZE]).unwrap();
    assert_eq!(mmu.frames_in_use(), 1);

    // the rest of the page kept its zeroes through the first write.
    let mut other: MMU = Default::default();
    other.mmap(0x2000, 0x1000, Permissions::RW).unwrap();
    other.write_u32(0x2010, 0xcafe_f00d).unwrap();
    let mut want = [0u8; PAGE_SIZE];
    want[0x10..0x14].copy_from_slice(&[0x0d, 0xf0, 0xfe, 0xca]);
    assert_eq!(other.read_page(0x2000).unwrap(), want);
}

#[test]
fn write_across_a_boundary_takes_a_frame_for_each_page() {
    let mut mmu: MMU = Default::default();
    mmu.mmap(0x1000, 0x2000, Permissions::RW).unwrap();

    mmu.write_u16(0x1fff, 0xabcd).unwrap();
    assert_eq!(mmu.frames_in_use(), 2);
}

#[test]
fn freed_frame_is_reused_and_zero() {
    let mut pfs: PageFrames = Default::default();

    let first = pfs.allocate();
    pfs.get_mut(first)[17] = 0x99;
    pfs.deallocate(first);
    let second = pfs.allocate();

    assert_eq!(first, 0);
    assert_eq!(second, first);
    assert_eq!(*pfs.get(second), [0u8; PAGE_SIZE]);
    assert_eq!(pfs.in_use(), 1);
}

#[test]
fn lowest_free_frame_wins() {
    let mut pfs: PageFrames = Default::default();
    for want in 0..5u32 {
        assert_eq!(pfs.allocate(), want);
    }
    pfs.deallocate(3);
    pfs.deallocate(1);
    assert_eq!(pfs.in_use(), 3);

    assert_eq!(pfs.allocate(), 1);
    assert_eq!(pfs.allocate(), 3);
    assert_eq!(pfs.allocate(), 5);
    assert_eq!(pfs.in_use(), 6);
}
