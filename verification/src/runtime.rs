//! The secure runtime: the mutable state of a shuffle pass (the sandbox
//! cursor and the dispatch table of relocated instances), the shuffle
//! orchestrator, the reference adjuster, and the handoff computation.
//!
//! The dispatch table is kept as one relocated instance per catalog object:
//! each entry holds the block the object was copied into, so the entry's
//! base address is the object's current relocated address. A pass runs
//! `shuffle` (permute, place, optionally translate one live address), then
//! `ref_adjust` (patch every vector-table slot and every branch site);
//! `start` drives a whole pass and ends with the handoff values the
//! platform writes into the hardware registers when it transfers execution.

use crate::adjustment::{adjust_direct_branch, patched_word};
use vstd::bytes::{spec_u32_from_le_bytes, spec_u32_to_le_bytes};
use crate::codeblock::CodeBlock;
use crate::errors::Error;
use crate::objects::{Catalog, ObjectKind};
use crate::perm::{get_shuffled_sequence, is_permutation, lemma_permutation_contains};
use crate::sandbox::{spec_align_bits, SandBox};
use vstd::arithmetic::power2::pow2;
use vstd::prelude::*;

verus! {

/// The worst case of bytes that placing object `k` can consume: its size
/// plus the largest padding its alignment can force.
pub open spec fn block_need(catalog: Catalog, k: int) -> int {
    pow2(spec_align_bits(catalog.objects@[k]) as nat) - 1 + catalog.obj(k).size
}

/// Worst-case bytes for placing the objects `order[i..]`, in order.
pub open spec fn need_from(catalog: Catalog, order: Seq<u16>, i: int) -> int
    decreases order.len() - i,
{
    if i < 0 || i >= order.len() {
        0
    } else {
        block_need(catalog, order[i] as int) + need_from(catalog, order, i + 1)
    }
}

/// Worst-case bytes for placing the objects `0 .. n`, whatever their order:
/// a pass whose sandbox region is at least this long cannot run out of
/// capacity.
pub open spec fn total_need(catalog: Catalog, n: int) -> int
    decreases n,
{
    if n <= 0 {
        0
    } else {
        total_need(catalog, n - 1) + block_need(catalog, n - 1)
    }
}

proof fn lemma_need_from_nonneg(catalog: Catalog, order: Seq<u16>, i: int)
    ensures
        need_from(catalog, order, i) >= 0,
    decreases order.len() - i,
{
    if 0 <= i < order.len() {
        vstd::arithmetic::power2::lemma_pow2_pos(spec_align_bits(
            catalog.objects@[order[i] as int],
        ) as nat);
        lemma_need_from_nonneg(catalog, order, i + 1);
    }
}

/// Removing position `p` removes exactly its term from the tail sums that
/// cover it.
proof fn lemma_need_from_remove(catalog: Catalog, order: Seq<u16>, p: int, i: int)
    requires
        0 <= i <= p < order.len(),
    ensures
        need_from(catalog, order, i) == need_from(catalog, order.remove(p), i) + block_need(
            catalog,
            order[p] as int,
        ),
    decreases p - i,
{
    let removed = order.remove(p);
    if i == p {
        lemma_need_from_tail(catalog, order, p, p);
    } else {
        assert(removed[i] == order[i]);
        lemma_need_from_remove(catalog, order, p, i + 1);
    }
}

/// Past the removed position, the tail sums of `order.remove(p)` equal the
/// tail sums of `order` shifted by one.
proof fn lemma_need_from_tail(catalog: Catalog, order: Seq<u16>, p: int, j: int)
    requires
        0 <= p <= j <= order.len() - 1,
    ensures
        need_from(catalog, order.remove(p), j) == need_from(catalog, order, j + 1),
    decreases order.len() - j,
{
    let removed = order.remove(p);
    if j < removed.len() {
        assert(removed[j] == order[j + 1]);
        lemma_need_from_tail(catalog, order, p, j + 1);
    }
}

/// The worst-case need of a full permutation equals the worst-case need of
/// the identity order: padding bounds do not depend on placement order.
proof fn lemma_perm_total_need(catalog: Catalog, order: Seq<u16>, n: int)
    requires
        is_permutation(order, n),
    ensures
        need_from(catalog, order, 0) == total_need(catalog, n),
    decreases n,
{
    if n > 0 {
        lemma_permutation_contains(order, n, n - 1);
        let p = choose|p: int| 0 <= p < n && order[p] == n - 1;
        let rest = order.remove(p);
        assert(is_permutation(rest, n - 1)) by {
            assert forall|x: int| 0 <= x < n - 1 implies 0 <= #[trigger] rest[x] < n - 1 by {
                if x < p {
                    assert(rest[x] == order[x]);
                    assert(order[x] != order[p]);
                } else {
                    assert(rest[x] == order[x + 1]);
                    assert(order[x + 1] != order[p]);
                }
            }
            assert forall|x: int, y: int| 0 <= x < y < n - 1 implies rest[x] != rest[y] by {
                assert(rest[x] == if x < p {
                    order[x]
                } else {
                    order[x + 1]
                });
                assert(rest[y] == if y < p {
                    order[y]
                } else {
                    order[y + 1]
                });
            }
        }
        lemma_need_from_remove(catalog, order, p, 0);
        lemma_perm_total_need(catalog, rest, n - 1);
    }
}

/// Byte `p` of object `k`'s instance lies inside the patched word of one of
/// the object's relocation sites.
pub open spec fn site_covers(catalog: Catalog, k: int, p: int) -> bool {
    exists|j: int|
        #[trigger] catalog.site_of(k, j) && catalog.branches@[j].0 <= p < catalog.branches@[j].0
            + 4
}

/// Byte `p` of the vector table's instance lies inside a slot that the
/// vector ordering names.
pub open spec fn slot_covers(catalog: Catalog, p: int) -> bool {
    exists|v: int|
        0 <= v < catalog.vectors@.len() && (#[trigger] catalog.vectors@[v]).isr_number * 4 <= p
            < catalog.vectors@[v].isr_number * 4 + 4
}

/// Relocation site `j` names a function target with no dispatch entry in
/// `pre`: the build-data error that `CatalogInconsistency` reports.
pub open spec fn missing_target(pre: SecureRuntime, j: int) -> bool {
    let ti = pre.catalog.branches@[j].1 as int;
    pre.catalog.objects@[ti] is Function && pre.dispatch(ti) is None
}

/// In `bytes` -- the adjusted contents of object `index`'s instance -- the
/// word of relocation site `j` is correctly re-encoded for the layout `pre`
/// records: a branch to a function target is re-encoded from the site's new
/// source address to the target's dispatch address plus the site's target
/// offset, and a site naming the vector table is left untouched.
pub open spec fn site_adjusted(pre: SecureRuntime, index: int, j: int, bytes: Seq<u8>) -> bool {
    let b = pre.catalog.branches@[j];
    let off = b.0 as int;
    let ti = b.1 as int;
    let base = pre.instances@[index]->0.base;
    let old_bytes = pre.instances@[index]->0.block@;
    let old_w = spec_u32_from_le_bytes(old_bytes.subrange(off, off + 4));
    let new_w = spec_u32_from_le_bytes(bytes.subrange(off, off + 4));
    if pre.catalog.objects@[ti] is Function {
        pre.dispatch(ti) matches Some(dbase) && patched_word(
            old_w,
            new_w,
            (base + off) as u32,
            (dbase + b.2) as u32,
        )
    } else {
        bytes.subrange(off, off + 4) == old_bytes.subrange(off, off + 4)
    }
}

/// Take ownership of the sandbox memory region `[address, address + length)`.
pub fn take_sandbox(address: usize, length: usize) -> (r: SandBox)
    requires
        address + length <= usize::MAX,
    ensures
        r.wf(),
        r.base == address,
        r.size == length,
        r.next_ptr == address,
        r.capacity == length,
{
    SandBox::take(address, length)
}

/// The values the platform needs to transfer execution into the relocated
/// image: they are read from the relocated vector table once a pass is
/// adjusted, and the platform writes them into the hardware registers.
pub struct HandoffInfo {
    /// Initial non-secure stack pointer: word 0 of the relocated vector
    /// table.
    pub msp: u32,
    /// Reset slot as stored: word 1 of the relocated vector table, low bit
    /// still marking thumb mode.
    pub entry: u32,
    /// The real reset address: `entry` with the thumb-mode bit masked off.
    pub reset_vector: u32,
    /// The relocated vector table's base address, for the vector-table base
    /// register.
    pub vtor: u32,
}

/// The secure core's mutable state across a shuffle pass.
pub struct SecureRuntime {
    /// The fixed object catalog and source image.
    pub catalog: Catalog,
    /// The sandbox region's bump allocator.
    pub sandbox: SandBox,
    /// The dispatch table: one relocated instance per catalog object, written
    /// once per object during a pass. An entry's block base is the object's
    /// current relocated address.
    pub instances: Vec<Option<CodeBlock>>,
    /// The value last handed to the vector-table base register.
    pub vtor: u32,
}

impl SecureRuntime {
    /// Structural well-formedness, kept across all passes: a valid catalog,
    /// a consistent sandbox inside the 32-bit address space, and one
    /// dispatch-table slot per object.
    pub open spec fn wf(self) -> bool {
        &&& self.catalog.wf()
        &&& self.sandbox.wf()
        &&& self.instances@.len() == self.catalog.len()
        &&& self.sandbox.base + self.sandbox.size <= u32::MAX
    }

    /// The dispatch-table entry of object `k`: its current relocated base
    /// address, if one was recorded.
    pub open spec fn dispatch(self, k: int) -> Option<int> {
        match self.instances@[k] {
            Some(b) => Some(b.base as int),
            None => None,
        }
    }

    /// Object `k` has a well-placed instance: a block of exactly its size,
    /// aligned as its kind demands, lying inside the sandbox region.
    pub open spec fn placed(self, k: int) -> bool {
        self.instances@[k] matches Some(b) && {
            &&& b.wf()
            &&& b.block@.len() == self.catalog.obj(k).size
            &&& b.base as int % (pow2(spec_align_bits(self.catalog.objects@[k]) as nat) as int)
                == 0
            &&& self.sandbox.base <= b.base
            &&& b.base + b.block@.len() <= self.sandbox.base + self.sandbox.size
        }
    }

    /// The placed instances of objects `k1` and `k2` occupy disjoint address
    /// ranges.
    pub open spec fn disjoint(self, k1: int, k2: int) -> bool {
        let b1 = self.instances@[k1]->0;
        let b2 = self.instances@[k2]->0;
        b1.base + self.catalog.obj(k1).size <= b2.base || b2.base + self.catalog.obj(k2).size
            <= b1.base
    }

    /// A complete pass: every object is placed and no two instances overlap.
    pub open spec fn pass_complete(self) -> bool {
        &&& forall|k: int| 0 <= k < self.catalog.len() ==> #[trigger] self.placed(k)
        &&& forall|k1: int, k2: int|
            0 <= k1 < k2 < self.catalog.len() ==> self.disjoint(k1, k2)
    }

    /// `addr` lies inside object `k`'s current instance.
    pub open spec fn instance_contains(self, k: int, addr: int) -> bool {
        self.instances@[k] matches Some(b) && b.base <= addr < b.base + self.catalog.obj(k).size
    }

    /// `addr` can be translated through object `k`: the object is a function
    /// whose current (previous-layout) instance contains `addr`.
    pub open spec fn translatable(self, k: int, addr: int) -> bool {
        &&& 0 <= k < self.catalog.len()
        &&& self.catalog.objects@[k] is Function
        &&& self.instance_contains(k, addr)
    }

    /// Set up the runtime for a catalog over the sandbox region
    /// `[sandbox_addr, sandbox_addr + length)`. No object is placed yet.
    pub fn new(catalog: Catalog, sandbox_addr: usize, length: usize) -> (r: SecureRuntime)
        requires
            catalog.wf(),
            sandbox_addr + length <= u32::MAX,
        ensures
            r.wf(),
            r.catalog == catalog,
            r.sandbox.base == sandbox_addr,
            r.sandbox.size == length,
            r.vtor == 0,
            forall|k: int| 0 <= k < r.catalog.len() ==> r.dispatch(k) is None,
    {
        let n = catalog.objects.len();
        let sandbox = take_sandbox(sandbox_addr, length);
        let mut instances: Vec<Option<CodeBlock>> = Vec::new();
        let mut k: usize = 0;
        while k < n
            invariant
                k <= n,
                instances@.len() == k,
                forall|p: int| 0 <= p < k ==> instances@[p] is None,
            decreases n - k,
        {
            instances.push(None);
            k = k + 1;
        }
        SecureRuntime { catalog, sandbox, instances, vtor: 0 }
    }

    /// The current relocated address of object `index`, from the dispatch
    /// table; fails with `CatalogInconsistency` when no entry was recorded.
    pub fn get_instance_address(&self, index: usize) -> (r: Result<usize, Error>)
        requires
            index < self.instances@.len(),
        ensures
            self.dispatch(index as int) matches Some(addr) ==> r == Ok::<usize, Error>(
                addr as usize,
            ),
            self.dispatch(index as int) is None ==> r == Err::<usize, Error>(
                Error::CatalogInconsistency,
            ),
    {
        match &self.instances[index] {
            Some(b) => Ok(b.base),
            None => Err(Error::CatalogInconsistency),
        }
    }

    /// Borrow the relocated instance of object `index`, if one is placed.
    pub fn get_instance(&self, index: usize) -> (r: Option<&CodeBlock>)
        requires
            index < self.instances@.len(),
        ensures
            match r {
                Some(b) => self.instances@[index as int] == Some(*b),
                None => self.instances@[index as int] is None,
            },
    {
        match &self.instances[index] {
            Some(b) => Some(b),
            None => None,
        }
    }

    /// Record object `index`'s freshly placed instance in the dispatch
    /// table.
    pub fn update_dispatch_table(&mut self, index: usize, block: CodeBlock)
        requires
            index < old(self).instances@.len(),
        ensures
            final(self).instances@ == old(self).instances@.update(index as int, Some(block)),
            final(self).catalog == old(self).catalog,
            final(self).sandbox == old(self).sandbox,
            final(self).vtor == old(self).vtor,
    {
        self.instances[index] = Some(block);
    }

    /// One shuffle pass: draw a fresh permutation from the caller's random
    /// draws, reset the sandbox, and place every object in permuted order --
    /// sized and aligned per its kind, filled with its source bytes -- while
    /// recording each new base address in the dispatch table.
    ///
    /// If the caller supplies a still-valid address `retaddr` from the
    /// previous layout (a suspended return address), it is translated across
    /// the pass: the first function along the permutation whose previous
    /// range contains it yields `Ok(Some(new_base + intra_offset))`;
    /// `Err(TranslationMiss)` reports that no function's previous range
    /// contained it, with the pass's placements still standing. A block
    /// allocation failure aborts the pass with `Err(AllocationFailure)`, and
    /// no partial dispatch-table state is to be trusted afterward; a sandbox
    /// at least `total_need` long never fails.
    pub fn shuffle(&mut self, retaddr: Option<usize>, draws: &Vec<u32>) -> (r: Result<
        Option<usize>,
        Error,
    >)
        requires
            old(self).wf(),
            draws@.len() + 1 >= old(self).catalog.len(),
        ensures
            final(self).wf(),
            final(self).catalog == old(self).catalog,
            final(self).sandbox.base == old(self).sandbox.base,
            final(self).sandbox.size == old(self).sandbox.size,
            final(self).vtor == old(self).vtor,
            r != Err::<Option<usize>, Error>(Error::AllocationFailure) ==> {
                &&& final(self).pass_complete()
                &&& forall|k: int|
                    0 <= k < final(self).catalog.len() ==> (#[trigger] final(self).instances@[k])->0.block@ == final(self).catalog.origin_code(k)
            },
            total_need(old(self).catalog, old(self).catalog.len()) <= old(self).sandbox.size ==> r
                != Err::<Option<usize>, Error>(Error::AllocationFailure),
            r matches Err(e) ==> e == Error::AllocationFailure || e == Error::TranslationMiss,
            retaddr is None ==> r == Ok::<Option<usize>, Error>(None) || r == Err::<
                Option<usize>,
                Error,
            >(Error::AllocationFailure),
            r is Ok && retaddr is Some ==> r->Ok_0 is Some,
            r matches Ok(Some(t)) ==> (retaddr matches Some(ra) && exists|k: int|
                {
                    &&& #[trigger] old(self).translatable(k, ra as int)
                    &&& final(self).placed(k)
                    &&& t == final(self).instances@[k]->0.base + (ra - old(self).instances@[k]->0.base)
                }),
            r == Err::<Option<usize>, Error>(Error::TranslationMiss) ==> (retaddr matches Some(
                ra,
            ) && forall|k: int| !(#[trigger] old(self).translatable(k, ra as int))),
    {
        let n = self.catalog.objects.len();
        let order = get_shuffled_sequence(n, draws);
        self.sandbox.reset();
        proof {
            if total_need(self.catalog, n as int) <= self.sandbox.size {
                lemma_perm_total_need(self.catalog, order@, n as int);
            }
        }
        let mut new_ret: Option<usize> = None;
        let mut i: usize = 0;
        while i < n
            invariant
                i <= n,
                n == self.catalog.len(),
                self.catalog == old(self).catalog,
                self.vtor == old(self).vtor,
                self.catalog.wf(),
                self.sandbox.wf(),
                self.sandbox.base == old(self).sandbox.base,
                self.sandbox.size == old(self).sandbox.size,
                self.sandbox.base + self.sandbox.size <= u32::MAX,
                self.instances@.len() == n,
                is_permutation(order@, n as int),
                draws@.len() + 1 >= n,
                forall|p: int| 0 <= p < i ==> self.placed((#[trigger] order@[p]) as int),
                forall|p: int|
                    0 <= p < i ==> (#[trigger] self.instances@[order@[p] as int])->0.block@
                        == self.catalog.origin_code(order@[p] as int),
                forall|p: int|
                    0 <= p < i ==> (#[trigger] self.instances@[order@[p] as int])->0.base
                        + self.catalog.obj(order@[p] as int).size <= self.sandbox.next_ptr,
                forall|p1: int, p2: int|
                    #![trigger order@[p1], order@[p2]]
                    0 <= p1 < p2 < i ==> self.disjoint(order@[p1] as int, order@[p2] as int),
                forall|p: int|
                    i <= p < n ==> #[trigger] self.instances@[order@[p] as int] == old(self).instances@[order@[p] as int],
                total_need(self.catalog, n as int) <= self.sandbox.size
                    ==> self.sandbox.capacity >= need_from(self.catalog, order@, i as int),
                retaddr is None ==> new_ret is None,
                new_ret matches Some(t) ==> (retaddr matches Some(ra) && exists|p: int|
                    {
                        &&& 0 <= p < i
                        &&& #[trigger] old(self).translatable(order@[p] as int, ra as int)
                        &&& self.placed(order@[p] as int)
                        &&& t == self.instances@[order@[p] as int]->0.base
                            + (ra - old(self).instances@[order@[p] as int]->0.base)
                    }),
                new_ret is None ==> (retaddr matches Some(ra) ==> forall|p: int|
                    0 <= p < i ==> !old(self).translatable(
                        (#[trigger] order@[p]) as int,
                        ra as int,
                    )),
            decreases n - i,
        {
            let ghost head = *self;
            let k = order[i] as usize;
            // Translate the legacy address against object k's previous
            // instance, before this pass overwrites its dispatch entry.
            let mut ret_off: Option<usize> = None;
            if new_ret.is_none() {
                if let Some(ra) = retaddr {
                    let is_func = match &self.catalog.objects[k] {
                        ObjectKind::Function(_) => true,
                        ObjectKind::VectorTable(_) => false,
                    };
                    if is_func {
                        match &self.instances[k] {
                            Some(b) => {
                                let size_k = self.catalog.objects[k].get_object().get_size();
                                if ra >= b.base && ra - b.base < size_k {
                                    ret_off = Some(ra - b.base);
                                }
                            },
                            None => {},
                        }
                    }
                    proof {
                        assert(self.instances@[k as int] == old(self).instances@[k as int]);
                        if ret_off is None {
                            assert(!old(self).translatable(k as int, ra as int));
                        } else {
                            assert(old(self).translatable(k as int, ra as int));
                        }
                    }
                }
            }
            // Place object k and record its new base address.
            proof {
                assert(self.catalog.origin_code(k as int).len() == self.catalog.obj(
                    k as int,
                ).size);
            }
            let code = self.catalog.get_origin_code(k);
            let pushed = self.sandbox.push(&self.catalog.objects[k], code);
            match pushed {
                Err(e) => {
                    proof {
                        if total_need(self.catalog, n as int) <= self.sandbox.size {
                            lemma_need_from_nonneg(self.catalog, order@, i + 1);
                            vstd::arithmetic::power2::lemma_pow2_pos(
                                spec_align_bits(self.catalog.objects@[k as int]) as nat,
                            );
                            assert(false);
                        }
                    }
                    return Err(e);
                },
                Ok(blk) => {
                    let base = blk.base;
                    let ghost prev = *self;
                    self.update_dispatch_table(k, blk);
                    proof {
                        assert(self.placed(k as int));
                        assert forall|p: int| 0 <= p < i implies self.placed(
                            (#[trigger] order@[p]) as int,
                        ) by {
                            assert(order@[p] != order@[i as int]);
                            assert(prev.placed(order@[p] as int));
                        }
                        assert forall|p1: int, p2: int| 0 <= p1 < p2 < i + 1 implies self.disjoint(
                            order@[p1] as int,
                            order@[p2] as int,
                        ) by {
                            assert(order@[p1] != order@[i as int]);
                            if p2 < i {
                                assert(order@[p2] != order@[i as int]);
                                assert(prev.disjoint(order@[p1] as int, order@[p2] as int));
                            } else {
                                assert(prev.instances@[order@[p1] as int]->0.base + prev.catalog.obj(
                                    order@[p1] as int,
                                ).size <= prev.sandbox.next_ptr);
                            }
                        }
                    }
                    if let Some(off) = ret_off {
                        new_ret = Some(base + off);
                        proof {
                            let ra = retaddr->0;
                            assert(old(self).translatable(order@[i as int] as int, ra as int));
                            assert(self.placed(order@[i as int] as int));
                            assert(self.instances@[order@[i as int] as int]->0.base == base);
                        }
                    } else {
                        proof {
                            if new_ret is Some {
                                let t = new_ret->0;
                                let ra = retaddr->0;
                                let p = choose|p: int|
                                    {
                                        &&& 0 <= p < i
                                        &&& #[trigger] old(self).translatable(
                                            order@[p] as int,
                                            ra as int,
                                        )
                                        &&& head.placed(order@[p] as int)
                                        &&& t == head.instances@[order@[p] as int]->0.base + (ra
                                            - old(self).instances@[order@[p] as int]->0.base)
                                    };
                                assert(order@[p] != order@[i as int]);
                                assert(self.instances@[order@[p] as int]
                                    == head.instances@[order@[p] as int]);
                                assert(self.placed(order@[p] as int));
                            }
                        }
                    }
                },
            }
            i = i + 1;
        }
        proof {
            assert forall|k: int| 0 <= k < n implies #[trigger] self.placed(k) by {
                lemma_permutation_contains(order@, n as int, k);
            }
            assert forall|k: int|
                0 <= k < n implies (#[trigger] self.instances@[k])->0.block@
                == self.catalog.origin_code(k) by {
                lemma_permutation_contains(order@, n as int, k);
                let p = choose|p: int| 0 <= p < n && order@[p] == k;
                assert(self.instances@[order@[p] as int]->0.block@ == self.catalog.origin_code(
                    order@[p] as int,
                ));
            }
            assert forall|k1: int, k2: int| 0 <= k1 < k2 < n implies self.disjoint(k1, k2) by {
                lemma_permutation_contains(order@, n as int, k1);
                lemma_permutation_contains(order@, n as int, k2);
                let p1 = choose|p: int| 0 <= p < n && order@[p] == k1;
                let p2 = choose|p: int| 0 <= p < n && order@[p] == k2;
                if p1 < p2 {
                    assert(self.disjoint(order@[p1] as int, order@[p2] as int));
                } else {
                    assert(self.disjoint(order@[p2] as int, order@[p1] as int));
                }
            }
        }
        match retaddr {
            None => Ok(None),
            Some(ra) => match new_ret {
                Some(t) => {
                    proof {
                        let p = choose|p: int|
                            {
                                &&& 0 <= p < n
                                &&& #[trigger] old(self).translatable(order@[p] as int, ra as int)
                                &&& self.placed(order@[p] as int)
                                &&& t == self.instances@[order@[p] as int]->0.base + (ra - old(
                                    self,
                                ).instances@[order@[p] as int]->0.base)
                            };
                        assert(old(self).translatable(order@[p] as int, ra as int));
                    }
                    Ok(Some(t))
                },
                None => {
                    proof {
                        assert forall|k: int| !(#[trigger] old(self).translatable(
                            k,
                            ra as int,
                        )) by {
                            if 0 <= k < n {
                                lemma_permutation_contains(order@, n as int, k);
                            }
                        }
                    }
                    Err(Error::TranslationMiss)
                },
            },
        }
    }

    /// Rewrite every relocation site of object `index` for the current
    /// layout: read the branch word at the site's offset, re-encode it for
    /// the site's new source address and its target's dispatch address plus
    /// target offset, and write it back in place. A site naming the vector
    /// table is skipped. Fails with `CatalogInconsistency` if and only if
    /// some site names a function target with no dispatch entry; bytes
    /// outside the sites' words are never touched.
    pub fn do_adjust(&mut self, index: usize) -> (r: Result<(), Error>)
        requires
            old(self).wf(),
            index < old(self).catalog.len(),
            old(self).placed(index as int),
            forall|k: int|
                0 <= k < old(self).catalog.len() && old(self).instances@[k] is Some ==> old(
                    self,
                ).placed(k),
        ensures
            final(self).wf(),
            final(self).catalog == old(self).catalog,
            final(self).sandbox == old(self).sandbox,
            final(self).vtor == old(self).vtor,
            forall|k: int|
                0 <= k < old(self).instances@.len() && k != index ==> final(self).instances@[k]
                    == old(self).instances@[k],
            final(self).placed(index as int),
            final(self).instances@[index as int]->0.base == old(
                self,
            ).instances@[index as int]->0.base,
            forall|p: int|
                0 <= p < old(self).catalog.obj(index as int).size && !site_covers(
                    old(self).catalog,
                    index as int,
                    p,
                ) ==> final(self).instances@[index as int]->0.block@[p] == old(
                    self,
                ).instances@[index as int]->0.block@[p],
            r is Ok <==> (forall|j: int|
                #[trigger] old(self).catalog.site_of(index as int, j) ==> !missing_target(
                    *old(self),
                    j,
                )),
            r is Ok ==> forall|j: int|
                #[trigger] old(self).catalog.site_of(index as int, j) ==> site_adjusted(
                    *old(self),
                    index as int,
                    j,
                    final(self).instances@[index as int]->0.block@,
                ),
            r is Err ==> r == Err::<(), Error>(Error::CatalogInconsistency),
    {
        let ghost pre = *self;
        let obj = self.catalog.objects[index];
        let range = obj.get_object().reloc_items;
        let (s, e) = match range {
            None => {
                return Ok(());
            },
            Some(se) => se,
        };
        let mut blk = self.instances[index].take().unwrap();
        let ghost old_bytes = blk.block@;
        let e_us = e as usize;
        let mut j = s as usize;
        while j < e_us
            invariant
                s <= j <= e_us,
                e_us == e,
                pre == *old(self),
                self.catalog == pre.catalog,
                self.sandbox == pre.sandbox,
                self.vtor == pre.vtor,
                self.catalog.wf(),
                self.sandbox.wf(),
                self.sandbox.base + self.sandbox.size <= u32::MAX,
                index < self.catalog.len(),
                self.instances@.len() == self.catalog.len(),
                pre.instances@.len() == self.catalog.len(),
                self.instances@[index as int] is None,
                forall|k2: int|
                    0 <= k2 < self.instances@.len() && k2 != index
                        ==> self.instances@[k2] == pre.instances@[k2],
                self.catalog.obj(index as int).reloc_items == Some((s, e)),
                forall|k: int|
                    0 <= k < pre.catalog.len() && pre.instances@[k] is Some ==> pre.placed(k),
                pre.placed(index as int),
                blk.wf(),
                blk.base == pre.instances@[index as int]->0.base,
                blk.block@.len() == self.catalog.obj(index as int).size,
                old_bytes == pre.instances@[index as int]->0.block@,
                forall|p: int|
                    0 <= p < blk.block@.len() && !site_covers(self.catalog, index as int, p)
                        ==> blk.block@[p] == old_bytes[p],
                forall|j2: int| s <= j2 < j ==> !missing_target(pre, j2),
                forall|j2: int|
                    s <= j2 < j ==> #[trigger] site_adjusted(pre, index as int, j2, blk.block@),
                forall|j2: int|
                    #![trigger self.catalog.branches@[j2]]
                    j <= j2 < e ==> blk.block@.subrange(
                        self.catalog.branches@[j2].0 as int,
                        self.catalog.branches@[j2].0 + 4,
                    ) =~= old_bytes.subrange(
                        self.catalog.branches@[j2].0 as int,
                        self.catalog.branches@[j2].0 + 4,
                    ),
            decreases e_us - j,
        {
            proof {
                assert(self.catalog.site_of(index as int, j as int));
            }
            let site = self.catalog.branches[j];
            let offset = site.0 as usize;
            let src_addr = blk.get_address(offset).unwrap();
            let src_code = blk.read32(offset).unwrap();
            let ti = site.1 as usize;
            let target_is_fn = match &self.catalog.objects[ti] {
                ObjectKind::Function(_) => true,
                ObjectKind::VectorTable(_) => false,
            };
            if target_is_fn {
                let dst_opt: Option<usize> = if ti == index {
                    Some(blk.base)
                } else {
                    match &self.instances[ti] {
                        Some(tb) => Some(tb.base),
                        None => None,
                    }
                };
                match dst_opt {
                    Some(dst_base) => {
                        proof {
                            if ti != index {
                                assert(self.instances@[ti as int] == pre.instances@[ti as int]);
                                assert(pre.placed(ti as int));
                            }
                            assert(pre.dispatch(ti as int) == Some(dst_base as int));
                        }
                        let dst_addr = dst_base + site.2 as usize;
                        let new_code = adjust_direct_branch(src_code, src_addr, dst_addr);
                        let ghost before = blk.block@;
                        blk.write32(offset, new_code).unwrap();
                        proof {
                            vstd::bytes::lemma_auto_spec_u32_to_from_le_bytes();
                            assert(spec_u32_to_le_bytes(new_code).len() == 4);
                            assert(blk.block@.subrange(offset as int, offset + 4)
                                =~= spec_u32_to_le_bytes(new_code));
                            assert(spec_u32_from_le_bytes(
                                blk.block@.subrange(offset as int, offset + 4),
                            ) == new_code);
                            assert(before.subrange(offset as int, offset + 4) =~= old_bytes.subrange(
                                offset as int,
                                offset + 4,
                            ));
                            assert(src_code == spec_u32_from_le_bytes(
                                old_bytes.subrange(offset as int, offset + 4),
                            ));
                            assert forall|p: int|
                                0 <= p < blk.block@.len() && !site_covers(
                                    self.catalog,
                                    index as int,
                                    p,
                                ) implies blk.block@[p] == old_bytes[p] by {
                                if offset <= p < offset + 4 {
                                    assert(self.catalog.site_of(index as int, j as int)
                                        && self.catalog.branches@[j as int].0 <= p
                                        < self.catalog.branches@[j as int].0 + 4);
                                } else {
                                    assert(blk.block@[p] == before[p]);
                                }
                            }
                            assert forall|j2: int|
                                s <= j2 < j + 1 implies #[trigger] site_adjusted(
                                pre,
                                index as int,
                                j2,
                                blk.block@,
                            ) by {
                                assert(self.catalog.site_of(index as int, j2));
                                let off2 = self.catalog.branches@[j2].0 as int;
                                if j2 < j {
                                    assert(off2 + 4 <= offset);
                                    assert(blk.block@.subrange(off2, off2 + 4) =~= before.subrange(
                                        off2,
                                        off2 + 4,
                                    ));
                                    assert(site_adjusted(pre, index as int, j2, before));
                                } else {
                                    assert(patched_word(
                                        src_code,
                                        new_code,
                                        src_addr as u32,
                                        dst_addr as u32,
                                    ));
                                    assert(src_addr as u32 == ((blk.base + offset) as u32));
                                    assert(dst_addr as u32 == ((dst_base
                                        + self.catalog.branches@[j2].2) as u32));
                                }
                            }
                            assert forall|j2: int|
                                #![trigger self.catalog.branches@[j2]]
                                j + 1 <= j2 < e implies blk.block@.subrange(
                                self.catalog.branches@[j2].0 as int,
                                self.catalog.branches@[j2].0 + 4,
                            ) =~= old_bytes.subrange(
                                self.catalog.branches@[j2].0 as int,
                                self.catalog.branches@[j2].0 + 4,
                            ) by {
                                assert(self.catalog.site_of(index as int, j2));
                                let off2 = self.catalog.branches@[j2].0 as int;
                                assert(offset + 4 <= off2);
                                assert(blk.block@.subrange(off2, off2 + 4) =~= before.subrange(
                                    off2,
                                    off2 + 4,
                                ));
                            }
                        }
                    },
                    None => {
                        proof {
                            assert(missing_target(pre, j as int));
                            assert(self.catalog.site_of(index as int, j as int));
                        }
                        self.instances[index] = Some(blk);
                        return Err(Error::CatalogInconsistency);
                    },
                }
            } else {
                proof {
                    assert(site_adjusted(pre, index as int, j as int, blk.block@));
                }
            }
            j = j + 1;
        }
        self.instances[index] = Some(blk);
        Ok(())
    }

    /// Adjust every recorded reference for the new layout, after a complete
    /// pass. First every interrupt handler's relocated address, with the
    /// thumb-mode bit set, is written into its vector-table slot; only once
    /// the slots are all patched is the vector-table base value updated to
    /// the relocated table's address. Then every function's relocation sites
    /// are rewritten through the dispatch table. On a complete pass every
    /// lookup succeeds, so the result is always `Ok`.
    pub fn ref_adjust(&mut self) -> (r: Result<(), Error>)
        requires
            old(self).wf(),
            old(self).pass_complete(),
        ensures
            final(self).wf(),
            final(self).catalog == old(self).catalog,
            final(self).sandbox == old(self).sandbox,
            r == Ok::<(), Error>(()),
            final(self).pass_complete(),
            forall|t: int|
                0 <= t < old(self).catalog.len() ==> #[trigger] final(self).dispatch(t) == old(
                    self,
                ).dispatch(t),
            final(self).vtor == old(self).instances@[0]->0.base as u32,
            forall|v: int|
                0 <= v < old(self).catalog.vectors@.len() ==> ({
                    let entry = #[trigger] old(self).catalog.vectors@[v];
                    final(self).instances@[0]->0.block@.subrange(
                        entry.isr_number * 4,
                        entry.isr_number * 4 + 4,
                    ) == spec_u32_to_le_bytes(
                        (old(self).instances@[entry.index as int]->0.base as u32) | 1,
                    )
                }),
            forall|p: int|
                0 <= p < old(self).catalog.obj(0).size && !slot_covers(old(self).catalog, p)
                    ==> (#[trigger] final(self).instances@[0]->0.block@[p]) == old(
                    self,
                ).instances@[0]->0.block@[p],
            forall|k: int, j: int|
                1 <= k < old(self).catalog.len() && #[trigger] old(self).catalog.site_of(k, j)
                    ==> site_adjusted(*old(self), k, j, final(self).instances@[k]->0.block@),
            forall|k: int, p: int|
                1 <= k < old(self).catalog.len() && 0 <= p < old(self).catalog.obj(k).size
                    && !site_covers(old(self).catalog, k, p)
                    ==> (#[trigger] final(self).instances@[k]->0.block@[p])
                        == old(self).instances@[k]->0.block@[p],
    {
        let ghost pre = *self;
        let n = self.catalog.objects.len();
        proof {
            assert(pre.placed(0));
        }
        // Patch the vector table's slots in its relocated instance.
        let mut vt = self.instances[0].take().unwrap();
        let ghost vt_old = vt.block@;
        let nv = self.catalog.vectors.len();
        let mut v: usize = 0;
        while v < nv
            invariant
                v <= nv,
                nv == self.catalog.vectors@.len(),
                pre == *old(self),
                self.catalog == pre.catalog,
                self.sandbox == pre.sandbox,
                self.vtor == pre.vtor,
                self.catalog.wf(),
                self.sandbox.wf(),
                self.sandbox.base + self.sandbox.size <= u32::MAX,
                n == self.catalog.len(),
                self.instances@.len() == n,
                pre.instances@.len() == n,
                self.instances@[0] is None,
                forall|k2: int|
                    0 <= k2 < n && k2 != 0 ==> self.instances@[k2] == pre.instances@[k2],
                pre.pass_complete(),
                vt.wf(),
                vt.base == pre.instances@[0]->0.base,
                vt.block@.len() == self.catalog.obj(0).size,
                vt_old == pre.instances@[0]->0.block@,
                forall|p: int|
                    0 <= p < vt.block@.len() && !slot_covers(self.catalog, p) ==> vt.block@[p]
                        == vt_old[p],
                forall|v2: int|
                    0 <= v2 < v ==> ({
                        let entry = #[trigger] self.catalog.vectors@[v2];
                        vt.block@.subrange(entry.isr_number * 4, entry.isr_number * 4 + 4)
                            =~= spec_u32_to_le_bytes(
                            (pre.instances@[entry.index as int]->0.base as u32) | 1,
                        )
                    }),
                forall|v2: int|
                    v <= v2 < nv ==> ({
                        let entry = #[trigger] self.catalog.vectors@[v2];
                        vt.block@.subrange(entry.isr_number * 4, entry.isr_number * 4 + 4)
                            =~= vt_old.subrange(entry.isr_number * 4, entry.isr_number * 4 + 4)
                    }),
            decreases nv - v,
        {
            let entry = self.catalog.vectors[v];
            let idx = entry.index as usize;
            proof {
                assert(self.catalog.objects@[idx as int] is Function);
                assert(idx != 0);
                assert(pre.placed(idx as int));
            }
            let addr = self.get_instance_address(idx).unwrap();
            let slot = (entry.isr_number as usize) * 4;
            let value = (addr as u32) | 1;
            let ghost before = vt.block@;
            vt.write32(slot, value).unwrap();
            proof {
                vstd::bytes::lemma_auto_spec_u32_to_from_le_bytes();
                assert(spec_u32_to_le_bytes(value).len() == 4);
                assert forall|p: int|
                    0 <= p < vt.block@.len() && !slot_covers(self.catalog, p) implies vt.block@[p]
                    == vt_old[p] by {
                    if slot <= p < slot + 4 {
                        assert((#[trigger] self.catalog.vectors@[v as int]).isr_number * 4 <= p
                            < self.catalog.vectors@[v as int].isr_number * 4 + 4);
                    } else {
                        assert(vt.block@[p] == before[p]);
                    }
                }
                assert forall|v2: int| 0 <= v2 < v + 1 implies ({
                    let entry2 = #[trigger] self.catalog.vectors@[v2];
                    vt.block@.subrange(entry2.isr_number * 4, entry2.isr_number * 4 + 4)
                        =~= spec_u32_to_le_bytes(
                        (pre.instances@[entry2.index as int]->0.base as u32) | 1,
                    )
                }) by {
                    let entry2 = self.catalog.vectors@[v2];
                    let slot2 = entry2.isr_number * 4;
                    if v2 < v {
                        assert(entry2.isr_number < self.catalog.vectors@[v as int].isr_number);
                        assert(vt.block@.subrange(slot2, slot2 + 4) =~= before.subrange(
                            slot2,
                            slot2 + 4,
                        ));
                    } else {
                        assert(vt.block@.subrange(slot2, slot2 + 4) =~= spec_u32_to_le_bytes(
                            value,
                        ));
                    }
                }
                assert forall|v2: int| v + 1 <= v2 < nv implies ({
                    let entry2 = #[trigger] self.catalog.vectors@[v2];
                    vt.block@.subrange(entry2.isr_number * 4, entry2.isr_number * 4 + 4)
                        =~= vt_old.subrange(entry2.isr_number * 4, entry2.isr_number * 4 + 4)
                }) by {
                    let entry2 = self.catalog.vectors@[v2];
                    let slot2 = entry2.isr_number * 4;
                    assert(self.catalog.vectors@[v as int].isr_number < entry2.isr_number);
                    assert(vt.block@.subrange(slot2, slot2 + 4) =~= before.subrange(
                        slot2,
                        slot2 + 4,
                    ));
                }
            }
            v = v + 1;
        }
        self.instances[0] = Some(vt);
        // Only now, with every slot patched, hand the relocated table's base
        // to the vector-table base register.
        let vt_base = self.get_instance_address(0).unwrap();
        self.update_vtor_register(vt_base as u32);
        proof {
            assert forall|t: int| 0 <= t < n implies #[trigger] self.dispatch(t) == pre.dispatch(
                t,
            ) by {
                if t != 0 {
                    assert(self.instances@[t] == pre.instances@[t]);
                }
            }
            assert forall|k2: int| 0 <= k2 < n implies #[trigger] self.placed(k2) by {
                assert(pre.placed(k2));
                if k2 != 0 {
                    assert(self.instances@[k2] == pre.instances@[k2]);
                }
            }
            assert forall|k1: int, k2: int| 0 <= k1 < k2 < n implies self.disjoint(k1, k2) by {
                assert(pre.disjoint(k1, k2));
                assert(self.dispatch(k1) == pre.dispatch(k1));
                assert(self.dispatch(k2) == pre.dispatch(k2));
            }
        }
        let ghost mid = *self;
        // Rewrite every function's relocation sites through the dispatch
        // table.
        let mut k: usize = 1;
        while k < n
            invariant
                1 <= k <= n,
                pre == *old(self),
                self.catalog == pre.catalog,
                self.sandbox == pre.sandbox,
                self.catalog.wf(),
                self.sandbox.wf(),
                self.sandbox.base + self.sandbox.size <= u32::MAX,
                n == self.catalog.len(),
                self.instances@.len() == n,
                pre.instances@.len() == n,
                self.vtor == mid.vtor,
                mid.vtor == pre.instances@[0]->0.base as u32,
                self.instances@[0] == mid.instances@[0],
                mid.instances@[0] is Some,
                forall|t: int| 0 <= t < n ==> #[trigger] self.dispatch(t) == pre.dispatch(t),
                self.pass_complete(),
                forall|k2: int| k <= k2 < n ==> self.instances@[k2] == pre.instances@[k2],
                forall|p: int|
                    0 <= p < pre.catalog.obj(0).size && !slot_covers(pre.catalog, p) ==> (
                    #[trigger] self.instances@[0]->0.block@[p]) == pre.instances@[0]->0.block@[p],
                forall|v2: int|
                    0 <= v2 < nv ==> ({
                        let entry = #[trigger] pre.catalog.vectors@[v2];
                        self.instances@[0]->0.block@.subrange(
                            entry.isr_number * 4,
                            entry.isr_number * 4 + 4,
                        ) =~= spec_u32_to_le_bytes(
                            (pre.instances@[entry.index as int]->0.base as u32) | 1,
                        )
                    }),
                nv == pre.catalog.vectors@.len(),
                forall|k2: int, j: int|
                    1 <= k2 < k && #[trigger] pre.catalog.site_of(k2, j) ==> site_adjusted(
                        pre,
                        k2,
                        j,
                        self.instances@[k2]->0.block@,
                    ),
                forall|k2: int, p: int|
                    1 <= k2 < k && 0 <= p < pre.catalog.obj(k2).size && !site_covers(
                        pre.catalog,
                        k2,
                        p,
                    ) ==> (#[trigger] self.instances@[k2]->0.block@[p])
                        == pre.instances@[k2]->0.block@[p],
            decreases n - k,
        {
            let ghost step_pre = *self;
            proof {
                assert(self.placed(k as int));
                assert forall|j: int| #[trigger] self.catalog.site_of(k as int, j)
                    implies !missing_target(step_pre, j) by {
                    if self.catalog.obj(k as int).reloc_items matches Some((s2, e2)) && s2 <= j
                        < e2 {
                        let ti = self.catalog.branches@[j].1 as int;
                        assert(self.placed(ti));
                    }
                }
            }
            let adjusted = self.do_adjust(k);
            proof {
                assert(adjusted is Ok);
                assert forall|k2: int, j: int|
                    1 <= k2 < k + 1 && #[trigger] pre.catalog.site_of(k2, j) implies site_adjusted(
                    pre,
                    k2,
                    j,
                    self.instances@[k2]->0.block@,
                ) by {
                    if k2 < k {
                        assert(self.instances@[k2] == step_pre.instances@[k2]);
                        assert(site_adjusted(pre, k2, j, step_pre.instances@[k2]->0.block@));
                    } else {
                        assert(site_adjusted(step_pre, k2, j, self.instances@[k2]->0.block@));
                        assert(step_pre.instances@[k2] == pre.instances@[k2]);
                        assert(step_pre.dispatch(self.catalog.branches@[j].1 as int)
                            == pre.dispatch(self.catalog.branches@[j].1 as int));
                    }
                }
                assert forall|t: int| 0 <= t < n implies #[trigger] self.dispatch(t)
                    == pre.dispatch(t) by {
                    if t != k {
                        assert(self.instances@[t] == step_pre.instances@[t]);
                    } else {
                        assert(self.placed(t));
                        assert(step_pre.placed(t));
                        assert(self.instances@[t]->0.base == step_pre.instances@[t]->0.base);
                    }
                    assert(step_pre.dispatch(t) == pre.dispatch(t));
                }
                assert forall|k2: int| 0 <= k2 < n implies #[trigger] self.placed(k2) by {
                    if k2 != k {
                        assert(self.instances@[k2] == step_pre.instances@[k2]);
                        assert(step_pre.placed(k2));
                    }
                }
                assert forall|k1: int, k2: int| 0 <= k1 < k2 < n implies self.disjoint(
                    k1,
                    k2,
                ) by {
                    assert(step_pre.disjoint(k1, k2));
                    assert(self.dispatch(k1) == step_pre.dispatch(k1));
                    assert(self.dispatch(k2) == step_pre.dispatch(k2));
                }
            }
            k = k + 1;
        }
        Ok(())
    }

    /// In the current state, the word of relocation site `j` of object `k`
    /// holds the branch from the object's source image re-encoded for the
    /// relocated layout: it now runs at the object's dispatch address and --
    /// whenever the offset fits its encoding family -- decodes to its
    /// target's dispatch address plus the site's target offset. A site
    /// naming the vector table keeps its source bytes.
    pub open spec fn boot_adjusted(self, k: int, j: int) -> bool {
        let b = self.catalog.branches@[j];
        let off = b.0 as int;
        let ti = b.1 as int;
        let old_w = spec_u32_from_le_bytes(self.catalog.origin_code(k).subrange(off, off + 4));
        let new_w = spec_u32_from_le_bytes(
            self.instances@[k]->0.block@.subrange(off, off + 4),
        );
        if self.catalog.objects@[ti] is Function {
            self.dispatch(ti) matches Some(dbase) && patched_word(
                old_w,
                new_w,
                (self.instances@[k]->0.base + off) as u32,
                (dbase + b.2) as u32,
            )
        } else {
            self.instances@[k]->0.block@.subrange(off, off + 4) == self.catalog.origin_code(
                k,
            ).subrange(off, off + 4)
        }
    }

    /// Run one complete boot-time randomization: shuffle every object into
    /// the sandbox at fresh random addresses, adjust every vector-table slot
    /// and branch site for the new layout, and read the handoff values from
    /// the relocated vector table. The platform writes those values into the
    /// hardware registers and performs the non-secure branch, which never
    /// returns. Fails closed: an allocation failure aborts the boot before
    /// any reference is adjusted.
    pub fn start(&mut self, draws: &Vec<u32>) -> (r: Result<HandoffInfo, Error>)
        requires
            old(self).wf(),
            draws@.len() + 1 >= old(self).catalog.len(),
        ensures
            final(self).wf(),
            final(self).catalog == old(self).catalog,
            final(self).sandbox.base == old(self).sandbox.base,
            final(self).sandbox.size == old(self).sandbox.size,
            total_need(old(self).catalog, old(self).catalog.len()) <= old(self).sandbox.size ==> r
                is Ok,
            r matches Err(e) ==> e == Error::AllocationFailure,
            r matches Ok(h) ==> {
                &&& final(self).pass_complete()
                &&& final(self).vtor == h.vtor
                &&& h.vtor == final(self).instances@[0]->0.base as u32
                &&& h.msp == spec_u32_from_le_bytes(
                    final(self).instances@[0]->0.block@.subrange(0, 4),
                )
                &&& h.entry == spec_u32_from_le_bytes(
                    final(self).instances@[0]->0.block@.subrange(4, 8),
                )
                &&& h.reset_vector == h.entry & 0xffff_fffe
                &&& forall|v: int|
                    0 <= v < final(self).catalog.vectors@.len() ==> ({
                        let entry = #[trigger] final(self).catalog.vectors@[v];
                        final(self).instances@[0]->0.block@.subrange(
                            entry.isr_number * 4,
                            entry.isr_number * 4 + 4,
                        ) == spec_u32_to_le_bytes(
                            (final(self).instances@[entry.index as int]->0.base as u32) | 1,
                        )
                    })
                &&& forall|p: int|
                    0 <= p < final(self).catalog.obj(0).size && !slot_covers(
                        final(self).catalog,
                        p,
                    ) ==> (#[trigger] final(self).instances@[0]->0.block@[p])
                        == final(self).catalog.origin_code(0)[p]
                &&& forall|k: int, j: int|
                    1 <= k < final(self).catalog.len()
                        && #[trigger] final(self).catalog.site_of(k, j)
                        ==> final(self).boot_adjusted(k, j)
                &&& forall|k: int, p: int|
                    1 <= k < final(self).catalog.len() && 0 <= p < final(self).catalog.obj(k).size
                        && !site_covers(final(self).catalog, k, p)
                        ==> (#[trigger] final(self).instances@[k]->0.block@[p])
                            == final(self).catalog.origin_code(k)[p]
            },
    {
        match self.shuffle(None, draws) {
            Err(e) => Err(e),
            Ok(_) => {
                let ghost mid = *self;
                let adjusted = self.ref_adjust();
                proof {
                    assert(adjusted is Ok);
                    assert forall|k: int, j: int|
                        1 <= k < self.catalog.len() && #[trigger] self.catalog.site_of(k, j)
                        implies self.boot_adjusted(k, j) by {
                        assert(site_adjusted(mid, k, j, self.instances@[k]->0.block@));
                        assert(mid.instances@[k]->0.block@ == self.catalog.origin_code(k));
                        assert(self.dispatch(k) == mid.dispatch(k));
                        assert(self.dispatch(self.catalog.branches@[j].1 as int) == mid.dispatch(
                            self.catalog.branches@[j].1 as int,
                        ));
                        assert(self.placed(k));
                        assert(self.instances@[k]->0.base == mid.instances@[k]->0.base);
                    }
                    assert(mid.instances@[0]->0.block@ == self.catalog.origin_code(0));
                    assert(self.placed(0));
                    assert(mid.placed(0));
                    assert(self.dispatch(0) == mid.dispatch(0));
                    assert(self.instances@[0]->0.base == mid.instances@[0]->0.base);
                    assert forall|v: int| 0 <= v < self.catalog.vectors@.len() implies ({
                        let entry = #[trigger] self.catalog.vectors@[v];
                        self.instances@[0]->0.block@.subrange(
                            entry.isr_number * 4,
                            entry.isr_number * 4 + 4,
                        ) =~= spec_u32_to_le_bytes(
                            (self.instances@[entry.index as int]->0.base as u32) | 1,
                        )
                    }) by {
                        let entry = self.catalog.vectors@[v];
                        let idx = entry.index as int;
                        assert(0 <= idx < self.catalog.len());
                        assert(self.placed(idx));
                        assert(mid.placed(idx));
                        assert(self.dispatch(idx) == mid.dispatch(idx));
                        assert(self.instances@[idx]->0.base == mid.instances@[idx]->0.base);
                    }
                }
                let vt = self.get_instance(0).unwrap();
                let msp = vt.read32(0).unwrap();
                let entry = vt.read32(4).unwrap();
                let reset_vector = entry & 0xffff_fffe;
                let info = HandoffInfo { msp, entry, reset_vector, vtor: self.vtor };
                Ok(info)
            },
        }
    }

    /// Record the value for the vector-table base register. The register
    /// itself is memory-mapped hardware; the platform writes this recorded
    /// value into it.
    pub fn update_vtor_register(&mut self, offset: u32)
        ensures
            final(self).vtor == offset,
            final(self).catalog == old(self).catalog,
            final(self).sandbox == old(self).sandbox,
            final(self).instances == old(self).instances,
    {
        self.vtor = offset;
    }
}

} // verus!
