use mmu::{Permissions, MMU};

#[test]
fn access_violation() {
    let mmu: MMU = Default::default();

    assert!(mmu.read_u8(0x0).is_err());
    assert!(mmu.read_u8(0x1).is_err());
}

#[test]
fn mmap() {
    let mut mmu: MMU = Default::default();

    assert!(mmu.read_u8(0x1000).is_err());

    mmu.mmap(0x1000, 0x2000, Permissions::R).unwrap();

    assert!(mmu.read_u8(0xFFF).is_err());
    assert_eq!(mmu.read_u8(0x1000).unwrap(), 0x0);
    assert_eq!(mmu.read_u8(0x2000).unwrap(), 0x0);
    assert!(mmu.read_u8(0x3000).is_err());
}

#[test]
fn munmap() {
    let mut mmu: MMU = Default::default();

    assert!(mmu.read_u8(0x1000).is_err());
    assert!(mmu.read_u8(0x2000).is_err());
    assert!(mmu.read_u8(0x3000).is_err());

    mmu.mmap(0x1000, 0x3000, Permissions::R).unwrap();

    assert_eq!(mmu.read_u8(0x1000).unwrap(), 0x0);
    assert_eq!(mmu.read_u8(0x2000).unwrap(), 0x0);
    assert_eq!(mmu.read_u8(0x3000).unwrap(), 0x0);

    mmu.munmap(0x2000, 0x1000).unwrap();

    assert_eq!(mmu.read_u8(0x1000).unwrap(), 0x0);
    assert!(mmu.read_u8(0x2000).is_err());
    assert_eq!(mmu.read_u8(0x3000).unwrap(), 0x0);
}

#[test]
fn write_u8() {
    let mut mmu: MMU = Default::default();

    assert!(mmu.write_u8(0x1000, 1).is_err());

    mmu.mmap(0x1000, 0x1000, Permissions::R).unwrap();
    mmu.mmap(0x2000, 0x1000, Permissions::RW).unwrap();

    assert!(mmu.write_u8(0x1000, 1).is_err());
    assert_eq!(mmu.read_u8(0x1000).unwrap(), 0);

    assert!(mmu.write_u8(0x2000, 1).is_ok());
    assert_eq!(mmu.read_u8(0x2000).unwrap(), 1);
}

#[test]
fn read() {
    let mut mmu: MMU = Default::default();

    mmu.mmap(0x1000, 0x1000, Permissions::RW).unwrap();
    assert_eq!(mmu.read_u8(0x1000).unwrap(), 0);
    assert!(mmu.write_u8(0x1000, 1).is_ok());
    assert_eq!(mmu.read_u8(0x1000).unwrap(), 1);
    assert_eq!(mmu.read_u16(0x1000).unwrap(), 1);
    assert_eq!(mmu.read_u32(0x1000).unwrap(), 1);
    assert_eq!(mmu.read_u64(0x1000).unwrap(), 1);
    assert_eq!(mmu.read_u128(0x1000).unwrap(), 1);
}

#[test]
fn write() {
    let mut mmu: MMU = Default::default();

    mmu.mmap(0x1000, 0x1000, Permissions::RW).unwrap();
    assert_eq!(mmu.read_u8(0x1000).unwrap(), 0);

    assert!(mmu.write_u8(0x1000, 1).is_ok());
    assert_eq!(mmu.read_u8(0x1000).unwrap(), 1);

    assert!(mmu.write_u16(0x1000, 0x1122).is_ok());
    assert_eq!(mmu.read_u16(0x1000).unwrap(), 0x1122);

    assert!(mmu.write_u32(0x1000, 0x11223344).is_ok());
    assert_eq!(mmu.read_u32(0x1000).unwrap(), 0x11223344);

    assert!(mmu.write_u64(0x1000, 0x1122334455667788).is_ok());
    assert_eq!(mmu.read_u64(0x1000).unwrap(), 0x1122334455667788);

    assert!(mmu.write_u128(0x1000, 0x112233445566778899AABBCCDDEEFF).is_ok());
    assert_eq!(mmu.read_u128(0x1000).unwrap(), 0x112233445566778899AABBCCDDEEFF);
}

#[test]
fn split_read() {
    let mut mmu: MMU = Default::default();

    mmu.mmap(0x1000, 0x2000, Permissions::RW).unwrap();
    assert!(mmu.write_u8(0x1FFF, 0x11).is_ok());
    assert!(mmu.write_u8(0x2000, 0x22).is_ok());
    assert!(mmu.write_u8(0x2001, 0x33).is_ok());
    assert!(mmu.write_u8(0x2002, 0x44).is_ok());
    assert!(mmu.write_u8(0x2003, 0x55).is_ok());
    assert!(mmu.write_u8(0x2004, 0x66).is_ok());
    assert!(mmu.write_u8(0x2005, 0x77).is_ok());
    assert!(mmu.write_u8(0x2006, 0x88).is_ok());
    assert!(mmu.write_u8(0x2007, 0x99).is_ok());
    assert_eq!(mmu.read_u8(0x1FFF).unwrap(), 0x11);
    assert_eq!(mmu.read_u16(0x1FFF).unwrap(), 0x2211);
    assert_eq!(mmu.read_u32(0x1FFF).unwrap(), 0x44332211);
    assert_eq!(mmu.read_u64(0x1FFF).unwrap(), 0x8877665544332211);
}

#[test]
fn split_write() {
    // ensure that tests `read` and `write` pass before triaging this one.
    let mut mmu: MMU = Default::default();

    mmu.mmap(0x1000, 0x2000, Permissions::RW).unwrap();

    assert!(mmu.write_u8(0x1FFF, 1).is_ok());
    assert_eq!(mmu.read_u8(0x1FFF).unwrap(), 1);

    assert!(mmu.write_u16(0x1FFF, 0x1122).is_ok());
    assert_eq!(mmu.read_u16(0x1FFF).unwrap(), 0x1122);

    assert!(mmu.write_u32(0x1FFF, 0x11223344).is_ok());
    assert_eq!(mmu.read_u32(0x1FFF).unwrap(), 0x11223344);

    assert!(mmu.write_u64(0x1FFF, 0x1122334455667788).is_ok());
    assert_eq!(mmu.read_u64(0x1FFF).unwrap(), 0x1122334455667788);

    assert!(mmu.write_u128(0x1FFF, 0x112233445566778899AABBCCDDEEFF).is_ok());
    assert_eq!(mmu.read_u128(0x1FFF).unwrap(), 0x112233445566778899AABBCCDDEEFF);
}
