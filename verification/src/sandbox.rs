//! Sandbox allocator: a bump allocator over the scratch memory region that
//! hands out aligned, non-overlapping blocks.
//!
//! The allocator only does address arithmetic: `base` and `size` describe the
//! region, `next_ptr` is the monotonic cursor and `capacity` the bytes left.
//! `reset` discards everything at once before a new pass; blocks are never
//! freed individually.

use crate::codeblock::CodeBlock;
use crate::errors::Error;
use crate::objects::ObjectKind;
use vstd::arithmetic::div_mod::{lemma_fundamental_div_mod, lemma_mod_multiples_basic};
use vstd::arithmetic::power2::{lemma_pow2_pos, pow2};
use vstd::bits::lemma_usize_shl_is_mul;
use vstd::prelude::*;

verus! {

/// `x` rounded up to the next multiple of `a`.
pub open spec fn round_up(x: int, a: int) -> int
    recommends
        a > 0,
{
    if x % a == 0 {
        x
    } else {
        x + a - x % a
    }
}

/// The alignment, in address bits, an object's block must have: the vector
/// table needs the coarsest alignment the vector-table base register demands
/// (128 bytes), an interrupt handler needs word alignment, and an ordinary
/// function only halfword alignment.
pub open spec fn spec_align_bits(object: ObjectKind) -> u8 {
    match object {
        ObjectKind::VectorTable(_) => 7,
        ObjectKind::Function(o) => if o.isr_number is Some {
            2
        } else {
            1
        },
    }
}

/// The alignment, in address bits, an object's block must have.
pub fn align_bits_for(object: &ObjectKind) -> (r: u8)
    ensures
        r == spec_align_bits(*object),
{
    match object {
        ObjectKind::VectorTable(_) => 7,
        ObjectKind::Function(o) => if o.isr_number.is_some() {
            2
        } else {
            1
        },
    }
}

/// The sandbox memory region and its bump-allocation cursor.
pub struct SandBox {
    /// Address of the first byte of the region.
    pub base: usize,
    /// Length of the region in bytes.
    pub size: usize,
    /// Address of the next byte that may be handed out.
    pub next_ptr: usize,
    /// Bytes left between the cursor and the end of the region.
    pub capacity: usize,
}

impl SandBox {
    /// The cursor lies inside the region and the capacity is exactly what is
    /// left of it, so the bytes handed out never exceed the region length.
    pub open spec fn wf(self) -> bool {
        &&& self.base + self.size <= usize::MAX
        &&& self.base <= self.next_ptr
        &&& self.next_ptr + self.capacity == self.base + self.size
    }

    /// Take ownership of the region `[base, base + size)`.
    pub fn take(base: usize, size: usize) -> (r: SandBox)
        requires
            base + size <= usize::MAX,
        ensures
            r.wf(),
            r.base == base,
            r.size == size,
            r.next_ptr == base,
            r.capacity == size,
    {
        SandBox { base, size, next_ptr: base, capacity: size }
    }

    /// Address of the first byte of the region.
    pub fn get_base(&self) -> (r: usize)
        ensures
            r == self.base,
    {
        self.base
    }

    /// Discard all blocks handed out so far and make the whole region
    /// available again. Called once at the start of every shuffle pass.
    pub fn reset(&mut self)
        requires
            old(self).wf(),
        ensures
            final(self).wf(),
            final(self).base == old(self).base,
            final(self).size == old(self).size,
            final(self).next_ptr == old(self).base,
            final(self).capacity == old(self).size,
    {
        self.next_ptr = self.base;
        self.capacity = self.size;
    }

    /// Hand out a block of `block_size` bytes aligned to `2^align_bits`:
    /// round the cursor up to the alignment, and consume the padding plus the
    /// block if that still fits the remaining capacity; otherwise fail and
    /// leave the allocator unchanged.
    pub fn get_block(&mut self, block_size: usize, align_bits: u8) -> (r: Result<usize, Error>)
        requires
            old(self).wf(),
            align_bits < usize::BITS,
        ensures
            final(self).wf(),
            final(self).base == old(self).base,
            final(self).size == old(self).size,
            ({
                let a = pow2(align_bits as nat) as int;
                let rb = round_up(old(self).next_ptr as int, a);
                let actual = rb - old(self).next_ptr + block_size;
                &&& rb - old(self).next_ptr < a
                &&& (r is Ok <==> actual <= old(self).capacity)
                &&& (r matches Ok(addr) ==> {
                    &&& addr == rb
                    &&& addr as int % a == 0
                    &&& old(self).next_ptr <= addr
                    &&& addr + block_size <= old(self).base + old(self).size
                    &&& final(self).next_ptr == addr + block_size
                    &&& final(self).capacity == old(self).capacity - actual
                })
                &&& (r is Err ==> r == Err::<usize, Error>(Error::AllocationFailure) && *final(self)
                    == *old(self))
            }),
    {
        proof {
            lemma_pow2_pos(align_bits as nat);
            vstd::bits::lemma_usize_pow2_no_overflow(align_bits as nat);
            lemma_usize_shl_is_mul(1, align_bits as usize);
        }
        let align_bytes: usize = 1usize << align_bits;
        let rem = self.next_ptr % align_bytes;
        let pad: usize = if rem == 0 {
            0
        } else {
            align_bytes - rem
        };
        proof {
            let a = pow2(align_bits as nat) as int;
            let q = self.next_ptr as int / a;
            lemma_fundamental_div_mod(self.next_ptr as int, a);
            if rem != 0 {
                assert((q + 1) * a == a * q + a) by (nonlinear_arith);
                lemma_mod_multiples_basic(q + 1, a);
            } else {
                assert(q * a == a * q) by (nonlinear_arith);
                lemma_mod_multiples_basic(q, a);
            }
            assert(self.next_ptr + pad == round_up(self.next_ptr as int, a));
            assert((self.next_ptr + pad) % a == 0);
        }
        match pad.checked_add(block_size) {
            Some(actual) => {
                if actual <= self.capacity {
                    let addr = self.next_ptr + pad;
                    self.capacity = self.capacity - actual;
                    self.next_ptr = addr + block_size;
                    Ok(addr)
                } else {
                    Err(Error::AllocationFailure)
                }
            },
            None => {
                proof {
                    assert(pad + block_size > usize::MAX >= old(self).capacity);
                }
                Err(Error::AllocationFailure)
            },
        }
    }

    /// Place one object: allocate a block sized and aligned for it, and copy
    /// the object's source bytes `code` into the block. Returns the filled
    /// block, which starts at the address the allocator handed out.
    pub fn push(&mut self, object: &ObjectKind, code: &[u8]) -> (r: Result<CodeBlock, Error>)
        requires
            old(self).wf(),
            code@.len() == object.object().size,
        ensures
            final(self).wf(),
            final(self).base == old(self).base,
            final(self).size == old(self).size,
            ({
                let a = pow2(spec_align_bits(*object) as nat) as int;
                let rb = round_up(old(self).next_ptr as int, a);
                let actual = rb - old(self).next_ptr + object.object().size;
                &&& rb - old(self).next_ptr < a
                &&& (r is Ok <==> actual <= old(self).capacity)
                &&& (r matches Ok(blk) ==> {
                    &&& blk.wf()
                    &&& blk.base == rb
                    &&& blk.base as int % a == 0
                    &&& blk.block@ == code@
                    &&& old(self).next_ptr <= blk.base
                    &&& blk.base + object.object().size <= old(self).base + old(self).size
                    &&& final(self).next_ptr == blk.base + object.object().size
                    &&& final(self).capacity == old(self).capacity - actual
                })
                &&& (r is Err ==> r == Err::<CodeBlock, Error>(Error::AllocationFailure)
                    && *final(self) == *old(self))
            }),
    {
        let obj = object.get_object();
        let align_bits = align_bits_for(object);
        match self.get_block(obj.size as usize, align_bits) {
            Ok(addr) => {
                let mut blk = CodeBlock::from(addr, obj.size as usize);
                let filled = blk.fill(code);
                proof {
                    assert(filled is Ok);
                    assert(blk.block@ =~= code@);
                }
                Ok(blk)
            },
            Err(e) => Err(e),
        }
    }
}

/// Law: under the allocator's invariant, the bytes consumed in one pass --
/// the distance the cursor has moved from the region base, which is the sum
/// of every `actual` a successful `get_block` consumed -- never exceed the
/// region length.
pub proof fn lemma_consumed_bounded(sb: SandBox)
    requires
        sb.wf(),
    ensures
        sb.next_ptr - sb.base <= sb.size,
{
}

} // verus!
