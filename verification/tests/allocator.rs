use secure_rt_core::errors::Error;
use secure_rt_core::objects::{Object, ObjectKind};
use secure_rt_core::perm::get_shuffled_sequence;
use secure_rt_core::sandbox::{align_bits_for, SandBox};

fn function(index: u16, address: usize, size: u16, isr_number: Option<u8>) -> ObjectKind {
    ObjectKind::Function(Object { reloc_items: None, address, size, index, isr_number })
}

#[test]
fn blocks_are_aligned_and_consecutive() {
    let mut sb = SandBox::take(0x2001A000, 256);
    // 0x2001A000 is already 128-aligned, so the first block starts there
    let a = sb.get_block(8, 7).unwrap();
    assert_eq!(a, 0x2001A000);
    let b = sb.get_block(8, 1).unwrap();
    assert_eq!(b, 0x2001A008);
    let c = sb.get_block(4, 2).unwrap();
    assert_eq!(c, 0x2001A010);
    assert_eq!(c % 4, 0);
}

#[test]
fn rounding_consumes_padding() {
    let mut sb = SandBox::take(0x1001, 64);
    let a = sb.get_block(4, 2).unwrap();
    assert_eq!(a, 0x1004);
    // 3 bytes of padding plus 4 bytes of block were consumed
    let b = sb.get_block(1, 0).unwrap();
    assert_eq!(b, 0x1008);
}

#[test]
fn capacity_exhaustion_fails_and_leaves_state() {
    let mut sb = SandBox::take(0x1000, 16);
    assert_eq!(sb.get_block(12, 1).unwrap(), 0x1000);
    // 4 bytes remain; 8 more do not fit
    assert_eq!(sb.get_block(8, 0), Err(Error::AllocationFailure));
    // the failed request consumed nothing
    assert_eq!(sb.get_block(4, 0).unwrap(), 0x100C);
    assert_eq!(sb.get_block(1, 0), Err(Error::AllocationFailure));
}

#[test]
fn reset_restores_the_whole_region() {
    let mut sb = SandBox::take(0x1000, 16);
    sb.get_block(16, 0).unwrap();
    assert_eq!(sb.get_block(1, 0), Err(Error::AllocationFailure));
    sb.reset();
    assert_eq!(sb.get_block(16, 0).unwrap(), 0x1000);
    assert_eq!(sb.get_base(), 0x1000);
}

#[test]
fn alignment_policy_by_kind() {
    let vt = ObjectKind::VectorTable(Object {
        reloc_items: None,
        address: 0,
        size: 8,
        index: 0,
        isr_number: None,
    });
    assert_eq!(align_bits_for(&vt), 7);
    assert_eq!(align_bits_for(&function(1, 0x100, 4, Some(3))), 2);
    assert_eq!(align_bits_for(&function(2, 0x200, 4, None)), 1);
}

#[test]
fn push_fills_the_block_with_the_source_bytes() {
    let mut sb = SandBox::take(0x2001A000, 64);
    let obj = function(1, 0x100, 4, None);
    let code = [0xDE, 0xAD, 0xBE, 0xEF];
    let blk = sb.push(&obj, &code).unwrap();
    assert_eq!(blk.base, 0x2001A000);
    assert_eq!(blk.size(), 4);
    assert_eq!(blk.read32(0).unwrap(), 0xEFBEADDE);
}

#[test]
fn push_fails_when_the_region_is_too_small() {
    let mut sb = SandBox::take(0x2001A000, 2);
    let obj = function(1, 0x100, 4, None);
    let code = [1u8, 2, 3, 4];
    assert!(sb.push(&obj, &code).is_err());
}

// Every index below the count appears exactly once, whatever the draws.
#[test]
fn shuffled_sequence_is_a_permutation() {
    let draws: Vec<u32> = vec![7, 123456, 42, 0, 99, 3, 1000001, 13, 8, 21];
    let order = get_shuffled_sequence(8, &draws);
    assert_eq!(order.len(), 8);
    let mut seen = [false; 8];
    for &v in order.iter() {
        assert!((v as usize) < 8);
        assert!(!seen[v as usize]);
        seen[v as usize] = true;
    }
}

#[test]
fn shuffled_sequence_small_counts() {
    let draws: Vec<u32> = vec![5];
    assert_eq!(get_shuffled_sequence(0, &draws).len(), 0);
    assert_eq!(get_shuffled_sequence(1, &draws), vec![0u16]);
}

// With all-zero draws the trace of swaps is fixed: each step swaps the
// current position with position 0.
#[test]
fn shuffled_sequence_zero_draws() {
    let draws: Vec<u32> = vec![0, 0, 0, 0];
    let order = get_shuffled_sequence(5, &draws);
    assert_eq!(order, vec![1u16, 2, 3, 4, 0]);
}
