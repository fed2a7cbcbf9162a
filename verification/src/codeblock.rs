//! Code block accessor: a bounds-checked view over a contiguous memory span,
//! providing typed little-endian reads and writes at byte offsets.
//!
//! A block owns the bytes of its span together with the absolute runtime
//! address of its first byte, so address arithmetic (`get_address`) and byte
//! access are both plain values. Every access beyond the span fails with
//! `Error::OutOfRange`.

use crate::errors::Error;
use vstd::bytes::{
    spec_u16_from_le_bytes, spec_u16_to_le_bytes, spec_u32_from_le_bytes, spec_u32_to_le_bytes,
    u16_from_le_bytes, u16_to_le_bytes, u32_from_le_bytes, u32_to_le_bytes,
};
use vstd::prelude::*;
use vstd::slice::slice_subrange;

verus! {

/// A contiguous span of code memory: the bytes it holds and the absolute
/// address of its first byte.
pub struct CodeBlock {
    /// Absolute runtime address of the first byte of the span.
    pub base: usize,
    /// The bytes of the span.
    pub block: Vec<u8>,
}

impl CodeBlock {
    /// The span's addresses stay within the address space.
    pub open spec fn wf(self) -> bool {
        self.base + self.block@.len() <= usize::MAX
    }

    /// A fresh block of `length` zero bytes standing at address `address`.
    pub fn from(address: usize, length: usize) -> (r: CodeBlock)
        requires
            address + length <= usize::MAX,
        ensures
            r.wf(),
            r.base == address,
            r.block@ == Seq::new(length as nat, |i: int| 0u8),
    {
        let block: Vec<u8> = vec![0u8; length];
        proof {
            assert(block@ =~= Seq::new(length as nat, |i: int| 0u8));
        }
        CodeBlock { base: address, block }
    }

    /// How many bytes of the span lie at or after `offset`.
    fn get_available_space(&self, offset: usize) -> (r: usize)
        ensures
            r == if offset < self.block@.len() {
                self.block@.len() - offset
            } else {
                0
            },
            self.block@.len() <= usize::MAX,
    {
        let length = self.block.len();
        if offset < length {
            length - offset
        } else {
            0
        }
    }

    /// Length of the span in bytes.
    pub fn size(&self) -> (r: usize)
        ensures
            r == self.block@.len(),
    {
        self.block.len()
    }

    /// The absolute runtime address of the byte at `offset`, if the offset
    /// lies within the span.
    pub fn get_address(&self, offset: usize) -> (r: Result<usize, Error>)
        requires
            self.wf(),
        ensures
            offset < self.block@.len() ==> r == Ok::<usize, Error>((self.base + offset) as usize),
            offset >= self.block@.len() ==> r == Err::<usize, Error>(Error::OutOfRange),
    {
        if offset < self.block.len() {
            Ok(self.base + offset)
        } else {
            Err(Error::OutOfRange)
        }
    }

    /// The byte at `offset`, if the span holds one there.
    pub fn read8(&self, offset: usize) -> (r: Result<u8, Error>)
        ensures
            offset + 1 <= self.block@.len() ==> r == Ok::<u8, Error>(self.block@[offset as int]),
            offset + 1 > self.block@.len() ==> r == Err::<u8, Error>(Error::OutOfRange),
    {
        if self.get_available_space(offset) >= 1 {
            Ok(self.block[offset])
        } else {
            Err(Error::OutOfRange)
        }
    }

    /// The little-endian 16-bit value at `offset`, if two bytes fit there.
    pub fn read16(&self, offset: usize) -> (r: Result<u16, Error>)
        ensures
            offset + 2 <= self.block@.len() ==> r == Ok::<u16, Error>(
                spec_u16_from_le_bytes(self.block@.subrange(offset as int, offset + 2)),
            ),
            offset + 2 > self.block@.len() ==> r == Err::<u16, Error>(Error::OutOfRange),
    {
        if self.get_available_space(offset) >= 2 {
            let s = slice_subrange(self.block.as_slice(), offset, offset + 2);
            Ok(u16_from_le_bytes(s))
        } else {
            Err(Error::OutOfRange)
        }
    }

    /// The little-endian 32-bit value at `offset`, if four bytes fit there.
    pub fn read32(&self, offset: usize) -> (r: Result<u32, Error>)
        ensures
            offset + 4 <= self.block@.len() ==> r == Ok::<u32, Error>(
                spec_u32_from_le_bytes(self.block@.subrange(offset as int, offset + 4)),
            ),
            offset + 4 > self.block@.len() ==> r == Err::<u32, Error>(Error::OutOfRange),
    {
        if self.get_available_space(offset) >= 4 {
            let s = slice_subrange(self.block.as_slice(), offset, offset + 4);
            Ok(u32_from_le_bytes(s))
        } else {
            Err(Error::OutOfRange)
        }
    }

    /// Store `value` at `offset`, if the span holds a byte there. Returns the
    /// stored value back.
    pub fn write8(&mut self, offset: usize, value: u8) -> (r: Result<u8, Error>)
        ensures
            final(self).base == old(self).base,
            offset + 1 <= old(self).block@.len() ==> {
                &&& r == Ok::<u8, Error>(value)
                &&& final(self).block@ == old(self).block@.update(offset as int, value)
            },
            offset + 1 > old(self).block@.len() ==> {
                &&& r == Err::<u8, Error>(Error::OutOfRange)
                &&& final(self).block@ == old(self).block@
            },
    {
        if self.get_available_space(offset) >= 1 {
            self.block[offset] = value;
            Ok(value)
        } else {
            Err(Error::OutOfRange)
        }
    }

    /// Store `value` at `offset` as two little-endian bytes, if they fit.
    /// Returns the stored value back.
    pub fn write16(&mut self, offset: usize, value: u16) -> (r: Result<u16, Error>)
        ensures
            final(self).base == old(self).base,
            offset + 2 <= old(self).block@.len() ==> {
                &&& r == Ok::<u16, Error>(value)
                &&& final(self).block@.len() == old(self).block@.len()
                &&& final(self).block@.subrange(offset as int, offset + 2)
                    == spec_u16_to_le_bytes(value)
                &&& forall|k: int|
                    0 <= k < old(self).block@.len() && !(offset <= k < offset + 2)
                        ==> final(self).block@[k] == old(self).block@[k]
            },
            offset + 2 > old(self).block@.len() ==> {
                &&& r == Err::<u16, Error>(Error::OutOfRange)
                &&& final(self).block@ == old(self).block@
            },
    {
        if self.get_available_space(offset) >= 2 {
            let bytes = u16_to_le_bytes(value);
            self.block[offset] = bytes[0];
            self.block[offset + 1] = bytes[1];
            proof {
                assert(self.block@.subrange(offset as int, offset + 2) =~= spec_u16_to_le_bytes(
                    value,
                ));
            }
            Ok(value)
        } else {
            Err(Error::OutOfRange)
        }
    }

    /// Store `value` at `offset` as four little-endian bytes, if they fit.
    /// Returns the stored value back.
    pub fn write32(&mut self, offset: usize, value: u32) -> (r: Result<u32, Error>)
        ensures
            final(self).base == old(self).base,
            offset + 4 <= old(self).block@.len() ==> {
                &&& r == Ok::<u32, Error>(value)
                &&& final(self).block@.len() == old(self).block@.len()
                &&& final(self).block@.subrange(offset as int, offset + 4)
                    == spec_u32_to_le_bytes(value)
                &&& forall|k: int|
                    0 <= k < old(self).block@.len() && !(offset <= k < offset + 4)
                        ==> final(self).block@[k] == old(self).block@[k]
            },
            offset + 4 > old(self).block@.len() ==> {
                &&& r == Err::<u32, Error>(Error::OutOfRange)
                &&& final(self).block@ == old(self).block@
            },
    {
        if self.get_available_space(offset) >= 4 {
            let bytes = u32_to_le_bytes(value);
            self.block[offset] = bytes[0];
            self.block[offset + 1] = bytes[1];
            self.block[offset + 2] = bytes[2];
            self.block[offset + 3] = bytes[3];
            proof {
                assert(self.block@.subrange(offset as int, offset + 4) =~= spec_u32_to_le_bytes(
                    value,
                ));
            }
            Ok(value)
        } else {
            Err(Error::OutOfRange)
        }
    }

    /// Copy `code` to the start of the span, if it fits; the rest of the
    /// span keeps its bytes.
    pub fn fill(&mut self, code: &[u8]) -> (r: Result<(), Error>)
        ensures
            final(self).base == old(self).base,
            code@.len() <= old(self).block@.len() ==> {
                &&& r == Ok::<(), Error>(())
                &&& final(self).block@.len() == old(self).block@.len()
                &&& final(self).block@.subrange(0, code@.len() as int) == code@
                &&& forall|k: int|
                    code@.len() <= k < old(self).block@.len() ==> final(self).block@[k] == old(
                        self,
                    ).block@[k]
            },
            code@.len() > old(self).block@.len() ==> {
                &&& r == Err::<(), Error>(Error::OutOfRange)
                &&& final(self).block@ == old(self).block@
            },
    {
        if code.len() <= self.block.len() {
            let n = code.len();
            let mut i: usize = 0;
            while i < n
                invariant
                    i <= n,
                    n == code@.len(),
                    n <= self.block@.len(),
                    self.base == old(self).base,
                    self.block@.len() == old(self).block@.len(),
                    forall|k: int| 0 <= k < i ==> self.block@[k] == code@[k],
                    forall|k: int| i <= k < self.block@.len() ==> self.block@[k] == old(
                        self,
                    ).block@[k],
                decreases n - i,
            {
                self.block[i] = code[i];
                i = i + 1;
            }
            proof {
                assert(self.block@.subrange(0, code@.len() as int) =~= code@);
            }
            Ok(())
        } else {
            Err(Error::OutOfRange)
        }
    }
}

} // verus!
