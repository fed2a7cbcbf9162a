use secure_rt_core::adjustment::{adjust_direct_branch, branch_target, encode_B_T3, encode_B_T4};

// A wide unconditional branch re-encoded for source 0x1000 and destination
// 0x2000 must decode, per the architecture's formula, back to 0x2000.
#[test]
fn wide_branch_round_trip_forward() {
    let original: u32 = 0xF000B800;
    let patched = adjust_direct_branch(original, 0x1000, 0x2000);
    assert_eq!(branch_target(patched, 0x1000), 0x2000);
}

// The exact word for offset 0xFFC (0x2000 - 0x1000 - 4): sign clear, both
// inverted bits clear so J1 = J2 = 1, imm10 = 0, imm11 = 0x7FE.
#[test]
fn wide_branch_exact_word() {
    let patched = adjust_direct_branch(0xF000B800, 0x1000, 0x2000);
    assert_eq!(patched, 0xF000BFFE);
}

// A destination below the source gives a negative offset: the sign bit
// (bit 26) must be set and the decoded target must still be exact.
#[test]
fn wide_branch_round_trip_backward() {
    let patched = adjust_direct_branch(0xF000B800, 0x1000, 0x800);
    assert!(patched & (1 << 26) != 0);
    assert_eq!(branch_target(patched, 0x1000), 0x800);
}

#[test]
fn encode_wide_directly() {
    let word = encode_B_T4(0x104, 0x200);
    assert_eq!(branch_target(word, 0x104), 0x200);
}

// A conditional branch keeps its condition code (bits 22..=25) and encodes
// the new offset in the narrow immediate layout.
#[test]
fn conditional_branch_keeps_condition() {
    let original: u32 = 0x0140_0000; // bit 28 clear, condition code 0b0101
    let patched = adjust_direct_branch(original, 0x1000, 0x1100);
    assert_eq!((patched >> 22) & 0xF, 0b0101);
    // offset 0xFC: imm11 = 0x7E, everything above clear
    assert_eq!(patched, 0xF140807E);
}

#[test]
fn conditional_encode_directly() {
    // offset 0xFC encoded for condition code 2
    let word = encode_B_T3(0x1000, 0x1100, 2);
    assert_eq!((word >> 22) & 0xF, 2);
    assert_eq!(word & 0x7FF, 0x7E);
    // sign set for a backward conditional branch
    let back = encode_B_T3(0x1000, 0x800, 2);
    assert!(back & (1 << 26) != 0);
}
