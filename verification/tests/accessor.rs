use secure_rt_core::codeblock::CodeBlock;
use secure_rt_core::errors::Error;

#[test]
fn fresh_block_is_zeroed() {
    let blk = CodeBlock::from(0x1000, 16);
    assert_eq!(blk.size(), 16);
    assert_eq!(blk.read8(0).unwrap(), 0);
    assert_eq!(blk.read32(12).unwrap(), 0);
}

#[test]
fn little_endian_round_trips() {
    let mut blk = CodeBlock::from(0x1000, 16);
    assert_eq!(blk.write32(4, 0xAABBCCDD).unwrap(), 0xAABBCCDD);
    assert_eq!(blk.read32(4).unwrap(), 0xAABBCCDD);
    // little-endian: least significant byte first
    assert_eq!(blk.read8(4).unwrap(), 0xDD);
    assert_eq!(blk.read8(7).unwrap(), 0xAA);
    assert_eq!(blk.read16(4).unwrap(), 0xCCDD);
    assert_eq!(blk.write16(0, 0x1234).unwrap(), 0x1234);
    assert_eq!(blk.read8(0).unwrap(), 0x34);
    assert_eq!(blk.read8(1).unwrap(), 0x12);
    assert_eq!(blk.write8(2, 0x7F).unwrap(), 0x7F);
    assert_eq!(blk.read8(2).unwrap(), 0x7F);
}

#[test]
fn addresses_are_absolute() {
    let blk = CodeBlock::from(0x2001A000, 8);
    assert_eq!(blk.get_address(0).unwrap(), 0x2001A000);
    assert_eq!(blk.get_address(7).unwrap(), 0x2001A007);
    assert_eq!(blk.get_address(8), Err(Error::OutOfRange));
}

#[test]
fn out_of_range_accesses_fail() {
    let mut blk = CodeBlock::from(0x1000, 16);
    assert_eq!(blk.read8(16), Err(Error::OutOfRange));
    assert_eq!(blk.read16(15), Err(Error::OutOfRange));
    assert_eq!(blk.read32(13), Err(Error::OutOfRange));
    assert_eq!(blk.write8(16, 1), Err(Error::OutOfRange));
    assert_eq!(blk.write16(15, 1), Err(Error::OutOfRange));
    assert_eq!(blk.write32(13, 1), Err(Error::OutOfRange));
    // a failing write leaves the span untouched
    assert_eq!(blk.read8(15).unwrap(), 0);
}

#[test]
fn fill_copies_to_the_start() {
    let mut blk = CodeBlock::from(0x1000, 8);
    blk.write8(6, 0x55).unwrap();
    let code = [1u8, 2, 3];
    assert!(blk.fill(&code).is_ok());
    assert_eq!(blk.read8(0).unwrap(), 1);
    assert_eq!(blk.read8(1).unwrap(), 2);
    assert_eq!(blk.read8(2).unwrap(), 3);
    // bytes past the copied prefix keep their contents
    assert_eq!(blk.read8(6).unwrap(), 0x55);
}

#[test]
fn fill_rejects_oversized_code() {
    let mut blk = CodeBlock::from(0x1000, 2);
    let code = [1u8, 2, 3];
    assert_eq!(blk.fill(&code), Err(Error::OutOfRange));
    assert_eq!(blk.read8(0).unwrap(), 0);
}
