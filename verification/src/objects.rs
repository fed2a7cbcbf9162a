//! Object catalog: the fixed, build-time-generated description of every
//! relocatable unit of the non-secure image, together with the shared
//! relocation-site array, the vector ordering, and the source image bytes.
//!
//! The catalog is consumed read-only. Its well-formedness (`Catalog::wf`)
//! captures what the build-time generator guarantees: indices match
//! positions, exactly one vector table stands at index 0, every object lies
//! inside the source image, relocation-site ranges are valid and their sites
//! are spaced so that patched words never alias, and the vector ordering
//! names functions with strictly ascending interrupt numbers.

use crate::adjustment::Branch;
use vstd::prelude::*;
use vstd::slice::slice_subrange;

verus! {

/// One call instruction's static offset and its caller object: lets a future
/// re-randomization event find and retranslate a return address that is live
/// on a suspended non-secure call stack.
#[derive(Clone, Copy)]
pub struct Callsite {
    /// Offset of the call instruction into its caller object.
    pub offset: u16,
    /// Index of the caller object in the catalog.
    pub caller: u16,
}

/// Description of one relocatable unit.
#[derive(Clone, Copy)]
pub struct Object {
    /// Half-open range into the shared relocation-site array; `None` means
    /// the object holds no internal branches to patch.
    pub reloc_items: Option<(u16, u16)>,
    /// Location of the unit in the immutable source image.
    pub address: usize,
    /// Length of the unit in bytes.
    pub size: u16,
    /// Stable identity: position of this unit in the catalog array.
    pub index: u16,
    /// Present only for functions that are interrupt handlers; names the
    /// vector-table slot the handler serves.
    pub isr_number: Option<u8>,
}

/// The kind of a relocatable unit. Exactly one `VectorTable` exists, always
/// at catalog index 0.
#[derive(Clone, Copy)]
pub enum ObjectKind {
    VectorTable(Object),
    Function(Object),
}

impl ObjectKind {
    /// The descriptor carried by either kind.
    pub open spec fn object(self) -> Object {
        match self {
            ObjectKind::VectorTable(o) => o,
            ObjectKind::Function(o) => o,
        }
    }

    /// Borrow the descriptor carried by either kind.
    pub fn get_object(&self) -> (r: &Object)
        ensures
            *r == self.object(),
    {
        match self {
            ObjectKind::VectorTable(o) => o,
            ObjectKind::Function(o) => o,
        }
    }
}

impl Object {
    /// Location of the unit in the immutable source image.
    pub fn get_address(&self) -> (r: usize)
        ensures
            r == self.address,
    {
        self.address
    }

    /// Length of the unit in bytes.
    pub fn get_size(&self) -> (r: usize)
        ensures
            r == self.size as usize,
    {
        self.size as usize
    }

    /// The unit's slice of the shared relocation-site array, or `None` when
    /// the unit holds no internal branches to patch.
    pub fn get_reloc_items<'a>(&self, branches: &'a Vec<Branch>) -> (r: Option<&'a [Branch]>)
        requires
            self.reloc_items matches Some((s, e)) ==> s <= e && e <= branches@.len(),
        ensures
            self.reloc_items is None ==> r is None,
            self.reloc_items matches Some((s, e)) ==> r matches Some(items) && items@
                == branches@.subrange(s as int, e as int),
    {
        match self.reloc_items {
            Some((s, e)) => Some(slice_subrange(branches.as_slice(), s as usize, e as usize)),
            None => None,
        }
    }
}

/// One entry of the vector ordering: the catalog index of an
/// interrupt-handler function and the vector-table slot it serves.
#[derive(Clone, Copy)]
pub struct VectorEntry {
    /// Index of the handler object in the catalog.
    pub index: u16,
    /// The handler's vector-table slot number.
    pub isr_number: u8,
}

/// Neighbouring relocation sites at least a word apart put every earlier
/// site a word before every later one.
proof fn lemma_gap_chain(branches: Seq<Branch>, s: int, e: int, j1: int, j2: int)
    requires
        s <= j1 < j2 < e,
        e <= branches.len(),
        forall|j: int| s + 1 <= j < e ==> (#[trigger] branches[j]).0 >= branches[j - 1].0 + 4,
    ensures
        branches[j1].0 + 4 <= branches[j2].0,
    decreases j2 - j1,
{
    if j2 > j1 + 1 {
        lemma_gap_chain(branches, s, e, j1, j2 - 1);
    }
}

/// Neighbouring vector entries in ascending order put every earlier entry's
/// interrupt number below every later one's.
proof fn lemma_isr_chain(vectors: Seq<VectorEntry>, v1: int, v2: int)
    requires
        0 <= v1 < v2 < vectors.len(),
        forall|v: int|
            1 <= v < vectors.len() ==> (#[trigger] vectors[v]).isr_number > vectors[v
                - 1].isr_number,
    ensures
        vectors[v1].isr_number < vectors[v2].isr_number,
    decreases v2 - v1,
{
    if v2 > v1 + 1 {
        lemma_isr_chain(vectors, v1, v2 - 1);
    }
}

/// The fixed tables the build-time generator produces, together with the
/// source image they describe.
pub struct Catalog {
    /// One entry per relocatable unit, ordered by index.
    pub objects: Vec<ObjectKind>,
    /// The shared relocation-site array, indexed by the objects' ranges.
    pub branches: Vec<Branch>,
    /// Objects carrying an interrupt number, sorted ascending by it.
    pub vectors: Vec<VectorEntry>,
    /// The immutable source image the objects' addresses point into.
    pub image: Vec<u8>,
    /// Address of the first byte of the source image.
    pub image_base: usize,
}

impl Catalog {
    /// The descriptor of catalog entry `k`.
    pub open spec fn obj(self, k: int) -> Object {
        self.objects@[k].object()
    }

    /// Number of catalog entries.
    pub open spec fn len(self) -> int {
        self.objects@.len() as int
    }

    /// The source bytes of catalog entry `k`.
    pub open spec fn origin_code(self, k: int) -> Seq<u8> {
        self.image@.subrange(
            self.obj(k).address - self.image_base,
            self.obj(k).address - self.image_base + self.obj(k).size,
        )
    }

    /// `j` names a relocation site of catalog entry `k`.
    pub open spec fn site_of(self, k: int, j: int) -> bool {
        self.obj(k).reloc_items matches Some((s, e)) && s <= j < e
    }

    /// The object array is well formed: indices equal positions, the single
    /// vector table stands at index 0 and holds at least its initial
    /// stack-pointer and reset slots, and every object lies inside the
    /// source image.
    pub open spec fn wf_objects(self) -> bool {
        &&& 1 <= self.len() <= 0x1_0000
        &&& self.objects@[0] is VectorTable
        &&& self.obj(0).size >= 8
        &&& forall|i: int| 1 <= i < self.len() ==> self.objects@[i] is Function
        &&& forall|i: int| 0 <= i < self.len() ==> (#[trigger] self.obj(i)).index == i
        &&& self.image_base + self.image@.len() <= usize::MAX
        &&& forall|i: int|
            0 <= i < self.len() ==> self.image_base <= (#[trigger] self.obj(i)).address && self.obj(
                i,
            ).address + self.obj(i).size <= self.image_base + self.image@.len()
    }

    /// The relocation-site array is well formed: every range lies inside the
    /// array; every site's patched word lies inside its owning object; every
    /// target index exists and its offset lies inside the target; and within
    /// one object the site offsets ascend with at least a word between them,
    /// so patched words never alias.
    pub open spec fn wf_sites(self) -> bool {
        &&& forall|k: int|
            0 <= k < self.len() ==> ((#[trigger] self.obj(k)).reloc_items matches Some((s, e))
                ==> s <= e && e <= self.branches@.len())
        &&& forall|k: int, j: int|
            #[trigger] self.site_of(k, j) && 0 <= k < self.len() ==> {
                &&& self.branches@[j].0 + 4 <= self.obj(k).size
                &&& self.branches@[j].1 < self.len()
                &&& self.branches@[j].2 <= self.obj(self.branches@[j].1 as int).size
            }
        &&& forall|k: int, j1: int, j2: int|
            #[trigger] self.site_of(k, j1) && #[trigger] self.site_of(k, j2) && 0 <= k < self.len()
                && j1 < j2 ==> self.branches@[j1].0 + 4 <= self.branches@[j2].0
    }

    /// The vector ordering is well formed: every entry names an existing
    /// function whose interrupt number matches, the named slot lies inside
    /// the vector table, and the interrupt numbers strictly ascend.
    pub open spec fn wf_vectors(self) -> bool {
        &&& forall|v: int|
            0 <= v < self.vectors@.len() ==> {
                let entry = #[trigger] self.vectors@[v];
                &&& entry.index < self.len()
                &&& self.objects@[entry.index as int] is Function
                &&& self.obj(entry.index as int).isr_number == Some(entry.isr_number)
                &&& entry.isr_number * 4 + 4 <= self.obj(0).size
            }
        &&& forall|v1: int, v2: int|
            0 <= v1 < v2 < self.vectors@.len() ==> (#[trigger] self.vectors@[v1]).isr_number < (
            #[trigger] self.vectors@[v2]).isr_number
    }

    /// A pre-validated catalog, as the build-time generator guarantees it.
    pub open spec fn wf(self) -> bool {
        self.wf_objects() && self.wf_sites() && self.wf_vectors()
    }

    /// Check the object array: every clause of `wf_objects`, by one pass
    /// over the entries.
    fn check_objects(&self) -> (r: bool)
        ensures
            r == self.wf_objects(),
    {
        let n = self.objects.len();
        if n < 1 || n > 0x1_0000 {
            return false;
        }
        match &self.objects[0] {
            ObjectKind::VectorTable(_) => {},
            ObjectKind::Function(_) => {
                return false;
            },
        }
        if self.objects[0].get_object().size < 8 {
            return false;
        }
        if self.image_base > usize::MAX - self.image.len() {
            return false;
        }
        let mut i: usize = 0;
        while i < n
            invariant
                i <= n,
                n == self.len(),
                forall|i2: int| 1 <= i2 < i ==> self.objects@[i2] is Function,
                forall|i2: int| 0 <= i2 < i ==> (#[trigger] self.obj(i2)).index == i2,
                forall|i2: int|
                    0 <= i2 < i ==> self.image_base <= (#[trigger] self.obj(i2)).address
                        && self.obj(i2).address + self.obj(i2).size <= self.image_base
                        + self.image@.len(),
            decreases n - i,
        {
            let obj = self.objects[i].get_object();
            proof {
                assert(self.obj(i as int) == self.objects@[i as int].object());
            }
            if i > 0 {
                match &self.objects[i] {
                    ObjectKind::Function(_) => {},
                    ObjectKind::VectorTable(_) => {
                        return false;
                    },
                }
            }
            if obj.index as usize != i {
                return false;
            }
            if obj.address < self.image_base {
                return false;
            }
            let off = obj.address - self.image_base;
            if off > self.image.len() || self.image.len() - off < obj.size as usize {
                return false;
            }
            i = i + 1;
        }
        true
    }

    /// Check one object's slice of the relocation-site array: bounds for
    /// every site and the ascending, word-spaced offsets `wf_sites` demands
    /// between neighbours.
    fn check_sites_of(&self, k: usize) -> (r: bool)
        requires
            k < self.len(),
        ensures
            r == ({
                &&& (self.obj(k as int).reloc_items matches Some((s, e)) ==> s <= e
                    && e <= self.branches@.len())
                &&& forall|j: int|
                    #[trigger] self.site_of(k as int, j) ==> {
                        &&& self.branches@[j].0 + 4 <= self.obj(k as int).size
                        &&& self.branches@[j].1 < self.len()
                        &&& self.branches@[j].2 <= self.obj(self.branches@[j].1 as int).size
                    }
                &&& forall|j1: int, j2: int|
                    #[trigger] self.site_of(k as int, j1) && #[trigger] self.site_of(k as int, j2)
                        && j1 < j2 ==> self.branches@[j1].0 + 4 <= self.branches@[j2].0
            }),
    {
        let obj = self.objects[k].get_object();
        proof {
            assert(self.obj(k as int) == self.objects@[k as int].object());
        }
        let (s, e) = match obj.reloc_items {
            None => {
                return true;
            },
            Some(se) => se,
        };
        if s > e || e as usize > self.branches.len() {
            return false;
        }
        let s_us = s as usize;
        let e_us = e as usize;
        let mut j = s_us;
        while j < e_us
            invariant
                s_us <= j <= e_us,
                s_us == s,
                e_us == e,
                k < self.len(),
                *obj == self.obj(k as int),
                self.obj(k as int).reloc_items == Some((s, e)),
                s <= e,
                e <= self.branches@.len(),
                forall|j2: int|
                    s <= j2 < j ==> {
                        &&& (#[trigger] self.branches@[j2]).0 + 4 <= self.obj(k as int).size
                        &&& self.branches@[j2].1 < self.len()
                        &&& self.branches@[j2].2 <= self.obj(self.branches@[j2].1 as int).size
                    },
                forall|j2: int|
                    s + 1 <= j2 < j ==> (#[trigger] self.branches@[j2]).0 >= self.branches@[j2
                        - 1].0 + 4,
            decreases e_us - j,
        {
            let site = self.branches[j];
            proof {
                assert(self.obj(site.1 as int) == self.objects@[site.1 as int].object());
            }
            if site.0 as usize + 4 > obj.size as usize {
                proof {
                    assert(self.site_of(k as int, j as int));
                }
                return false;
            }
            if site.1 as usize >= self.objects.len() {
                proof {
                    assert(self.site_of(k as int, j as int));
                }
                return false;
            }
            if site.2 > self.objects[site.1 as usize].get_object().size {
                proof {
                    assert(self.site_of(k as int, j as int));
                }
                return false;
            }
            if j > s_us {
                let prev = self.branches[j - 1];
                if site.0 < 4 || prev.0 > site.0 - 4 {
                    proof {
                        assert(self.site_of(k as int, (j - 1) as int));
                        assert(self.site_of(k as int, j as int));
                    }
                    return false;
                }
            }
            j = j + 1;
        }
        proof {
            assert forall|j1: int, j2: int|
                #[trigger] self.site_of(k as int, j1) && #[trigger] self.site_of(k as int, j2)
                    && j1 < j2 implies self.branches@[j1].0 + 4 <= self.branches@[j2].0 by {
                lemma_gap_chain(self.branches@, s as int, e as int, j1, j2);
            }
        }
        true
    }

    /// Check the vector ordering: existing function targets with matching
    /// interrupt numbers, slots inside the vector table, and strictly
    /// ascending interrupt numbers.
    fn check_vectors(&self) -> (r: bool)
        requires
            self.len() >= 1,
        ensures
            r == self.wf_vectors(),
    {
        let nv = self.vectors.len();
        let vt_size = self.objects[0].get_object().size;
        proof {
            assert(self.obj(0) == self.objects@[0].object());
        }
        let mut v: usize = 0;
        while v < nv
            invariant
                v <= nv,
                nv == self.vectors@.len(),
                self.len() >= 1,
                vt_size == self.obj(0).size,
                forall|v2: int|
                    0 <= v2 < v ==> {
                        let entry = #[trigger] self.vectors@[v2];
                        &&& entry.index < self.len()
                        &&& self.objects@[entry.index as int] is Function
                        &&& self.obj(entry.index as int).isr_number == Some(entry.isr_number)
                        &&& entry.isr_number * 4 + 4 <= self.obj(0).size
                    },
                forall|v2: int|
                    1 <= v2 < v ==> (#[trigger] self.vectors@[v2]).isr_number > self.vectors@[v2
                        - 1].isr_number,
            decreases nv - v,
        {
            let entry = self.vectors[v];
            proof {
                assert(self.obj(entry.index as int) == self.objects@[entry.index as int].object());
            }
            if entry.index as usize >= self.objects.len() {
                return false;
            }
            let is_function = match &self.objects[entry.index as usize] {
                ObjectKind::Function(_) => true,
                ObjectKind::VectorTable(_) => false,
            };
            if !is_function {
                return false;
            }
            let isr_matches = match self.objects[entry.index as usize].get_object().isr_number {
                Some(isr) => isr == entry.isr_number,
                None => false,
            };
            if !isr_matches {
                return false;
            }
            if (entry.isr_number as usize) * 4 + 4 > vt_size as usize {
                return false;
            }
            if v > 0 {
                if self.vectors[v - 1].isr_number >= entry.isr_number {
                    return false;
                }
            }
            v = v + 1;
        }
        proof {
            assert forall|v1: int, v2: int| 0 <= v1 < v2 < nv implies (
            #[trigger] self.vectors@[v1]).isr_number < (#[trigger] self.vectors@[v2]).isr_number
                by {
                lemma_isr_chain(self.vectors@, v1, v2);
            }
        }
        true
    }

    /// Check every clause of `wf` by plain passes over the tables: run once
    /// over externally produced build data before the first pass, since all
    /// of the shuffle machinery assumes a pre-validated catalog.
    pub fn check_catalog(&self) -> (r: bool)
        ensures
            r == self.wf(),
    {
        if !self.check_objects() {
            return false;
        }
        let n = self.objects.len();
        let mut k: usize = 0;
        while k < n
            invariant
                k <= n,
                n == self.len(),
                self.wf_objects(),
                forall|k2: int|
                    0 <= k2 < k ==> ((#[trigger] self.obj(k2)).reloc_items matches Some((s, e))
                        ==> s <= e && e <= self.branches@.len()),
                forall|k2: int, j: int|
                    #[trigger] self.site_of(k2, j) && 0 <= k2 < k ==> {
                        &&& self.branches@[j].0 + 4 <= self.obj(k2).size
                        &&& self.branches@[j].1 < self.len()
                        &&& self.branches@[j].2 <= self.obj(self.branches@[j].1 as int).size
                    },
                forall|k2: int, j1: int, j2: int|
                    #[trigger] self.site_of(k2, j1) && #[trigger] self.site_of(k2, j2) && 0 <= k2
                        < k && j1 < j2 ==> self.branches@[j1].0 + 4 <= self.branches@[j2].0,
            decreases n - k,
        {
            if !self.check_sites_of(k) {
                return false;
            }
            k = k + 1;
        }
        self.check_vectors()
    }

    /// Borrow the source bytes of catalog entry `k`.
    pub fn get_origin_code(&self, k: usize) -> (r: &[u8])
        requires
            self.wf(),
            k < self.len(),
        ensures
            r@ == self.origin_code(k as int),
    {
        let obj = self.objects[k].get_object();
        proof {
            assert(*obj == self.obj(k as int));
            assert(self.image_base <= self.obj(k as int).address);
        }
        let start = obj.address - self.image_base;
        slice_subrange(self.image.as_slice(), start, start + obj.size as usize)
    }
}

} // verus!
