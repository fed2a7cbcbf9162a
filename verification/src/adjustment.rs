//! Relocation encoder: re-encodes direct branch instructions for new source
//! and destination addresses.
//!
//! Two encoding families are handled. A word with bit 28 clear is a
//! conditional branch (narrow immediate, T3 family) whose condition code in
//! bits 22..=25 must be preserved; a word with bit 28 set is an unconditional
//! branch (wide immediate, T4 family). Both encode a signed, even, PC-relative
//! byte offset `destination - source - 4` (4 is the prefetch correction of
//! this instruction set), split over a sign bit, two inverted-with-sign bits,
//! and two immediate fields.

use vstd::prelude::*;

verus! {

/// A relocation site: the branch instruction `offset` bytes into its owning
/// object must, after relocation, jump to `target_offset` bytes into object
/// `target_index`'s relocated instance. Fields: (offset, target_index,
/// target_offset).
#[derive(Clone, Copy)]
pub struct Branch(pub u16, pub u16, pub u16);

/// Bit 28 distinguishes the two branch encodings: set means the wide
/// unconditional family, clear the conditional family.
pub open spec fn is_wide_branch(code: u32) -> bool {
    code & 0x1000_0000 != 0
}

/// The branch byte offset `dst - src - 4` is encodable in the wide (T4)
/// family: even and within the signed 25-bit immediate.
pub open spec fn t4_fits(src: u32, dst: u32) -> bool {
    let off = dst - src - 4;
    -0x0100_0000 <= off < 0x0100_0000 && off % 2 == 0
}

/// The branch byte offset `dst - src - 4` is encodable in the conditional
/// (T3) family: even and within the signed 21-bit immediate.
pub open spec fn t3_fits(src: u32, dst: u32) -> bool {
    let off = dst - src - 4;
    -0x0010_0000 <= off < 0x0010_0000 && off % 2 == 0
}

/// The sign-extended offset of a wide (T4) branch word, reassembled from the
/// architecture's decode formula, as the 32-bit pattern it stands for.
pub open spec fn t4_offset_bits(code: u32) -> u32 {
    let s = (code >> 26) & 1;
    let j1 = (code >> 13) & 1;
    let j2 = (code >> 11) & 1;
    let i1 = (j1 ^ s) ^ 1;
    let i2 = (j2 ^ s) ^ 1;
    let imm10 = (code >> 16) & 0x3ff;
    let imm11 = code & 0x7ff;
    (if s == 1 {
        0xff00_0000u32
    } else {
        0u32
    }) | (i1 << 23) | (i2 << 22) | (imm10 << 12) | (imm11 << 1)
}

/// The byte offset a wide (T4) branch word encodes, as a signed integer.
pub open spec fn t4_offset(code: u32) -> int {
    let bits = t4_offset_bits(code);
    if bits >= 0x8000_0000u32 {
        bits - 0x1_0000_0000
    } else {
        bits as int
    }
}

/// The sign-extended offset of a conditional (T3) branch word, reassembled
/// from the architecture's decode formula, as the 32-bit pattern it stands
/// for.
pub open spec fn t3_offset_bits(code: u32) -> u32 {
    let s = (code >> 26) & 1;
    let j1 = (code >> 13) & 1;
    let j2 = (code >> 11) & 1;
    let imm6 = (code >> 16) & 0x3f;
    let imm11 = code & 0x7ff;
    (if s == 1 {
        0xfff0_0000u32
    } else {
        0u32
    }) | (j2 << 19) | (j1 << 18) | (imm6 << 12) | (imm11 << 1)
}

/// The byte offset a conditional (T3) branch word encodes, as a signed
/// integer.
pub open spec fn t3_offset(code: u32) -> int {
    let bits = t3_offset_bits(code);
    if bits >= 0x8000_0000u32 {
        bits - 0x1_0000_0000
    } else {
        bits as int
    }
}

/// The byte offset a direct branch word encodes, by its family.
pub open spec fn branch_offset(code: u32) -> int {
    if is_wide_branch(code) {
        t4_offset(code)
    } else {
        t3_offset(code)
    }
}

/// The wide (T4) word assembled from the 32-bit offset pattern `off`.
spec fn assemble_t4(off: u32) -> u32 {
    let s = (off >> 31) & 1;
    let i1 = (off >> 23) & 1;
    let i2 = (off >> 22) & 1;
    let imm10 = (off >> 12) & 0x3ff;
    let imm11 = (off >> 1) & 0x7ff;
    let j1 = (i1 ^ s) ^ 1;
    let j2 = (i2 ^ s) ^ 1;
    (0b11110u32 << 27) | (s << 26) | (imm10 << 16) | (1u32 << 15) | (j1 << 13) | (1u32 << 12) | (
    j2 << 11) | imm11
}

/// The conditional (T3) word assembled from the 32-bit offset pattern `off`
/// and the four condition-code bits `cc`.
spec fn assemble_t3(off: u32, cc: u32) -> u32 {
    let s = (off >> 31) & 1;
    let j1 = (off >> 18) & 1;
    let j2 = (off >> 19) & 1;
    let imm6 = (off >> 12) & 0x3f;
    let imm11 = (off >> 1) & 0x7ff;
    (0b11110u32 << 27) | (s << 26) | ((cc & 0xf) << 22) | (imm6 << 16) | (1u32 << 15) | (j1 << 13)
        | (j2 << 11) | imm11
}

/// The truncated offset pattern `(dst - src - 4) mod 2^32` keeps the
/// mathematical offset's value, sign and parity whenever that offset lies
/// within the signed 25-bit immediate range.
proof fn lemma_wrapped_offset(src: u32, dst: u32)
    requires
        -0x0100_0000 <= dst - src - 4 < 0x0100_0000,
    ensures
        ({
            let off = u32::wrapping_sub(u32::wrapping_sub(dst, src), 4);
            let offi = dst - src - 4;
            &&& (offi >= 0 ==> off == offi)
            &&& (offi < 0 ==> off == offi + 0x1_0000_0000)
        }),
{
    let a = u32::wrapping_sub(dst, src);
    let off = u32::wrapping_sub(a, 4);
    let offi = dst - src - 4;
    if dst - src >= 0 {
        assert(a == dst - src);
        if a >= 4 {
            assert(off == offi);
        } else {
            assert(off == offi + 0x1_0000_0000);
        }
    } else {
        assert(a == dst - src + 0x1_0000_0000);
        assert(a >= 4) by {
            assert(dst - src >= -0x0100_0000 + 4);
        }
        assert(off == offi + 0x1_0000_0000);
    }
}

/// Re-encode a wide (T4 family) unconditional branch so that, executed at
/// `src_addr`, it jumps to `dst_addr`. Any input is accepted; the decoded
/// offset is pinned down whenever the requested offset fits the encoding.
#[allow(non_snake_case)]
pub fn encode_B_T4(src_addr: u32, dst_addr: u32) -> (r: u32)
    ensures
        r & 0xf800_9000 == 0xf000_9000,
        is_wide_branch(r),
        t4_fits(src_addr, dst_addr) ==> t4_offset(r) == dst_addr - src_addr - 4,
{
    let off = dst_addr.wrapping_sub(src_addr).wrapping_sub(4);
    let s = (off >> 31) & 1;
    let i1 = (off >> 23) & 1;
    let i2 = (off >> 22) & 1;
    let imm10 = (off >> 12) & 0x3ff;
    let imm11 = (off >> 1) & 0x7ff;
    let j1 = (i1 ^ s) ^ 1;
    let j2 = (i2 ^ s) ^ 1;
    let r = (0b11110u32 << 27) | (s << 26) | (imm10 << 16) | (1u32 << 15) | (j1 << 13) | (1u32
        << 12) | (j2 << 11) | imm11;
    proof {
        assert(r == assemble_t4(off));
        assert(assemble_t4(off) & 0xf800_9000 == 0xf000_9000) by (bit_vector);
        assert(assemble_t4(off) & 0x1000_0000 != 0) by (bit_vector);
        if t4_fits(src_addr, dst_addr) {
            let offi = dst_addr - src_addr - 4;
            lemma_wrapped_offset(src_addr, dst_addr);
            assert(off % 2 == 0);
            assert(t4_offset_bits(assemble_t4(off)) == off) by (bit_vector)
                requires
                    off % 2 == 0,
                    off < 0x0100_0000 || off >= 0xff00_0000,
            ;
            if offi >= 0 {
                assert(t4_offset(r) == offi);
            } else {
                assert(off >= 0xff00_0000);
                assert(t4_offset(r) == off - 0x1_0000_0000);
            }
        }
    }
    r
}

/// Re-encode a conditional (T3 family) branch with condition code `cc` so
/// that, executed at `src_addr`, it jumps to `dst_addr`. Any input is
/// accepted; the decoded offset is pinned down whenever the requested offset
/// fits the encoding.
#[allow(non_snake_case)]
pub fn encode_B_T3(src_addr: u32, dst_addr: u32, cc: u8) -> (r: u32)
    ensures
        r & 0xf800_d000 == 0xf000_8000,
        (r >> 22) & 0xf == (cc as u32) & 0xf,
        t3_fits(src_addr, dst_addr) ==> t3_offset(r) == dst_addr - src_addr - 4,
{
    let off = dst_addr.wrapping_sub(src_addr).wrapping_sub(4);
    let ccw = cc as u32;
    let s = (off >> 31) & 1;
    let j1 = (off >> 18) & 1;
    let j2 = (off >> 19) & 1;
    let imm6 = (off >> 12) & 0x3f;
    let imm11 = (off >> 1) & 0x7ff;
    let r = (0b11110u32 << 27) | (s << 26) | ((ccw & 0xf) << 22) | (imm6 << 16) | (1u32 << 15) | (
    j1 << 13) | (j2 << 11) | imm11;
    proof {
        assert(r == assemble_t3(off, ccw));
        assert(assemble_t3(off, ccw) & 0xf800_d000 == 0xf000_8000) by (bit_vector);
        assert((assemble_t3(off, ccw) >> 22) & 0xf == ccw & 0xf) by (bit_vector);
        if t3_fits(src_addr, dst_addr) {
            let offi = dst_addr - src_addr - 4;
            lemma_wrapped_offset(src_addr, dst_addr);
            assert(off % 2 == 0);
            assert(t3_offset_bits(assemble_t3(off, ccw)) == off) by (bit_vector)
                requires
                    off % 2 == 0,
                    off < 0x0010_0000 || off >= 0xfff0_0000,
            ;
            if offi >= 0 {
                assert(t3_offset(r) == offi);
            } else {
                assert(off >= 0xfff0_0000);
                assert(t3_offset(r) == off - 0x1_0000_0000);
            }
        }
    }
    r
}

/// `new_w` is a correct re-encoding of the direct branch `old_w` for source
/// address `src` and destination address `dst`: same family layout, the
/// condition code preserved for the conditional family, and -- whenever the
/// requested offset fits the family's immediate -- a decoded offset of
/// exactly `dst - src - 4`.
pub open spec fn patched_word(old_w: u32, new_w: u32, src: u32, dst: u32) -> bool {
    &&& !is_wide_branch(old_w) ==> {
        &&& new_w & 0xf800_d000 == 0xf000_8000
        &&& (new_w >> 22) & 0xf == (old_w >> 22) & 0xf
        &&& t3_fits(src, dst) ==> t3_offset(new_w) == dst - src - 4
    }
    &&& is_wide_branch(old_w) ==> {
        &&& new_w & 0xf800_9000 == 0xf000_9000
        &&& t4_fits(src, dst) ==> t4_offset(new_w) == dst - src - 4
    }
}

/// Re-encode the direct branch `src_code` for a new source address and a new
/// destination address. The family is taken from bit 28 of the original
/// word; for the conditional family the original condition code (bits
/// 22..=25) is preserved. Pure re-encoding with no failure path: the caller
/// guarantees the word is in fact a direct branch.
pub fn adjust_direct_branch(src_code: u32, src_addr: usize, dst_addr: usize) -> (r: u32)
    requires
        src_addr <= u32::MAX,
        dst_addr <= u32::MAX,
    ensures
        patched_word(src_code, r, src_addr as u32, dst_addr as u32),
{
    if src_code & 0x1000_0000 == 0 {
        proof {
            assert((src_code >> 22) & 0xf < 0x100 && ((src_code >> 22) & 0xf) & 0xf == (src_code
                >> 22) & 0xf) by (bit_vector);
        }
        let cc = ((src_code >> 22) & 0xf) as u8;
        let r = encode_B_T3(src_addr as u32, dst_addr as u32, cc);
        proof {
            assert((cc as u32) == (src_code >> 22) & 0xf);
        }
        r
    } else {
        encode_B_T4(src_addr as u32, dst_addr as u32)
    }
}

/// Decode a direct branch word: the address the branch at `src_addr` jumps
/// to, per the architecture's own decode formula (source + 4 + encoded
/// offset, truncated to 32 bits).
pub fn branch_target(code: u32, src_addr: u32) -> (r: u32)
    ensures
        r == (src_addr + 4 + branch_offset(code)) % 0x1_0000_0000,
{
    let bits = if code & 0x1000_0000 == 0 {
        let s = (code >> 26) & 1;
        let j1 = (code >> 13) & 1;
        let j2 = (code >> 11) & 1;
        let imm6 = (code >> 16) & 0x3f;
        let imm11 = code & 0x7ff;
        (if s == 1 {
            0xfff0_0000u32
        } else {
            0u32
        }) | (j2 << 19) | (j1 << 18) | (imm6 << 12) | (imm11 << 1)
    } else {
        let s = (code >> 26) & 1;
        let j1 = (code >> 13) & 1;
        let j2 = (code >> 11) & 1;
        let i1 = (j1 ^ s) ^ 1;
        let i2 = (j2 ^ s) ^ 1;
        let imm10 = (code >> 16) & 0x3ff;
        let imm11 = code & 0x7ff;
        (if s == 1 {
            0xff00_0000u32
        } else {
            0u32
        }) | (i1 << 23) | (i2 << 22) | (imm10 << 12) | (imm11 << 1)
    };
    proof {
        if is_wide_branch(code) {
            assert(bits == t4_offset_bits(code));
        } else {
            assert(bits == t3_offset_bits(code));
        }
    }
    let r = src_addr.wrapping_add(4).wrapping_add(bits);
    proof {
        lemma_target_arith(src_addr, bits, branch_offset(code), r);
    }
    r
}

/// Arithmetic bridge for `branch_target`: the chained truncating additions
/// compute `(src + 4 + offset) mod 2^32` when the sign-extended pattern
/// `bits` stands for `offset`.
proof fn lemma_target_arith(src: u32, bits: u32, offset: int, r: u32)
    requires
        offset == if bits >= 0x8000_0000u32 {
            bits - 0x1_0000_0000
        } else {
            bits as int
        },
        r == u32::wrapping_add(u32::wrapping_add(src, 4), bits),
    ensures
        r == (src + 4 + offset) % 0x1_0000_0000,
{
    let m: int = 0x1_0000_0000;
    let a = u32::wrapping_add(src, 4);
    assert(a == (src + 4) % m) by {
        if src + 4 > u32::MAX {
            vstd::arithmetic::div_mod::lemma_mod_sub_multiples_vanish(src + 4, m);
            vstd::arithmetic::div_mod::lemma_small_mod((src + 4 - m) as nat, m as nat);
        } else {
            vstd::arithmetic::div_mod::lemma_small_mod((src + 4) as nat, m as nat);
        }
    }
    let t = a + bits;
    assert(r == t % m) by {
        if t > u32::MAX {
            vstd::arithmetic::div_mod::lemma_mod_sub_multiples_vanish(t, m);
            vstd::arithmetic::div_mod::lemma_small_mod((t - m) as nat, m as nat);
        } else {
            vstd::arithmetic::div_mod::lemma_small_mod(t as nat, m as nat);
        }
    }
    assert((bits + a) % m == (bits + (src + 4)) % m) by {
        vstd::arithmetic::div_mod::lemma_add_mod_noop_right(bits as int, src + 4, m);
    }
    if bits >= 0x8000_0000u32 {
        assert((src + 4 + offset) % m == (src + 4 + bits) % m) by {
            vstd::arithmetic::div_mod::lemma_mod_sub_multiples_vanish(src + 4 + bits, m);
        }
    }
}

/// Law: a word whose decoded wide-family offset is `dst - src - 4` decodes,
/// at source `src`, to the target address `dst`.
pub proof fn lemma_t4_target(code: u32, src: u32, dst: u32)
    requires
        is_wide_branch(code),
        t4_offset(code) == dst - src - 4,
    ensures
        (src + 4 + branch_offset(code)) % 0x1_0000_0000 == dst,
{
    vstd::arithmetic::div_mod::lemma_small_mod(dst as nat, 0x1_0000_0000nat);
}

/// Law: a word whose decoded conditional-family offset is `dst - src - 4`
/// decodes, at source `src`, to the target address `dst`.
pub proof fn lemma_t3_target(code: u32, src: u32, dst: u32)
    requires
        !is_wide_branch(code),
        t3_offset(code) == dst - src - 4,
    ensures
        (src + 4 + branch_offset(code)) % 0x1_0000_0000 == dst,
{
    vstd::arithmetic::div_mod::lemma_small_mod(dst as nat, 0x1_0000_0000nat);
}

} // verus!
