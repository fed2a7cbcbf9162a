use secure_rt_core::adjustment::{branch_target, encode_B_T4, Branch};
use secure_rt_core::codeblock::CodeBlock;
use secure_rt_core::errors::Error;
use secure_rt_core::objects::{Catalog, Object, ObjectKind, VectorEntry};
use secure_rt_core::runtime::SecureRuntime;

const SANDBOX_BASE: usize = 0x2001A000;

fn vector_table(size: u16, address: usize) -> ObjectKind {
    ObjectKind::VectorTable(Object {
        reloc_items: None,
        address,
        size,
        index: 0,
        isr_number: None,
    })
}

fn function(
    index: u16,
    address: usize,
    size: u16,
    isr_number: Option<u8>,
    reloc_items: Option<(u16, u16)>,
) -> ObjectKind {
    ObjectKind::Function(Object { reloc_items, address, size, index, isr_number })
}

// The catalog of the end-to-end scenario: a vector table of 8 bytes at old
// address 0x0, FuncA of 16 bytes at 0x100 with one relocation site at offset
// 4 branching to FuncB offset 0, and FuncB of 8 bytes at 0x200.
fn scenario_catalog() -> Catalog {
    let mut image = vec![0u8; 0x208];
    // vector table: initial stack pointer and thumb-marked reset slot
    image[0..4].copy_from_slice(&0x20010000u32.to_le_bytes());
    image[4..8].copy_from_slice(&0x00000201u32.to_le_bytes());
    // FuncA's site at offset 4 originally branches to FuncB's old address
    let original_branch = encode_B_T4(0x104, 0x200);
    image[0x104..0x108].copy_from_slice(&original_branch.to_le_bytes());
    Catalog {
        objects: vec![
            vector_table(8, 0x0),
            function(1, 0x100, 16, None, Some((0, 1))),
            function(2, 0x200, 8, None, None),
        ],
        branches: vec![Branch(4, 2, 0)],
        vectors: Vec::new(),
        image,
        image_base: 0,
    }
}

// A catalog with two interrupt handlers, for the vector-table contract: the
// table is 16 bytes so that slots 0 and 3 both lie inside it.
fn isr_catalog() -> Catalog {
    let image = vec![0u8; 0x40];
    Catalog {
        objects: vec![
            vector_table(16, 0x0),
            function(1, 0x10, 4, Some(0), None),
            function(2, 0x20, 4, Some(3), None),
        ],
        branches: Vec::new(),
        vectors: vec![
            VectorEntry { index: 1, isr_number: 0 },
            VectorEntry { index: 2, isr_number: 3 },
        ],
        image,
        image_base: 0,
    }
}

#[test]
fn catalogs_pass_the_checker() {
    assert!(scenario_catalog().check_catalog());
    assert!(isr_catalog().check_catalog());
}

#[test]
fn checker_rejects_bad_build_data() {
    // index does not match position
    let mut c = scenario_catalog();
    c.objects[2] = function(7, 0x200, 8, None, None);
    assert!(!c.check_catalog());
    // relocation range beyond the site array
    let mut c = scenario_catalog();
    c.objects[1] = function(1, 0x100, 16, None, Some((0, 2)));
    assert!(!c.check_catalog());
    // site target beyond the catalog
    let mut c = scenario_catalog();
    c.branches[0] = Branch(4, 9, 0);
    assert!(!c.check_catalog());
    // object sticking out of the source image
    let mut c = scenario_catalog();
    c.objects[2] = function(2, 0x204, 8, None, None);
    assert!(!c.check_catalog());
    // vector entry whose interrupt number does not match its object
    let mut c = isr_catalog();
    c.vectors[1] = VectorEntry { index: 2, isr_number: 5 };
    assert!(!c.check_catalog());
    // vector ordering not strictly ascending
    let mut c = isr_catalog();
    c.vectors[1] = VectorEntry { index: 2, isr_number: 0 };
    assert!(!c.check_catalog());
}

// The fixed permutation [VectorTable, FuncB, FuncA] comes from the draws
// [1, 1]: the first draw swaps positions 2 and 1, the second is a no-op.
#[test]
fn end_to_end_scenario() {
    let catalog = scenario_catalog();
    let mut rt = SecureRuntime::new(catalog, SANDBOX_BASE, 256);
    let draws: Vec<u32> = vec![1, 1];
    let handoff = rt.start(&draws).unwrap();

    // the vector table keeps the coarsest alignment and lands first
    assert_eq!(rt.get_instance_address(0).unwrap(), SANDBOX_BASE);
    // FuncB follows at the next halfword-aligned address, then FuncA
    assert_eq!(rt.get_instance_address(2).unwrap(), SANDBOX_BASE + 0x8);
    assert_eq!(rt.get_instance_address(1).unwrap(), SANDBOX_BASE + 0x10);

    // FuncA's relocation site now decodes to FuncB's new address
    let func_a = rt.get_instance(1).unwrap();
    let patched = func_a.read32(4).unwrap();
    let site_address = (SANDBOX_BASE + 0x10 + 4) as u32;
    assert_eq!(branch_target(patched, site_address), (SANDBOX_BASE + 0x8) as u32);
    // the rest of FuncA kept its source bytes
    assert_eq!(func_a.read32(0).unwrap(), 0);
    assert_eq!(func_a.read32(8).unwrap(), 0);

    // handoff values come from the relocated vector table
    assert_eq!(handoff.vtor, SANDBOX_BASE as u32);
    assert_eq!(handoff.msp, 0x20010000);
    assert_eq!(handoff.entry, 0x201);
    assert_eq!(handoff.reset_vector, 0x200);
}

// Vector-table contract: after a pass, slot 0 holds handler 1's address with
// the thumb bit and slot 3 holds handler 2's; untouched slots stay zero.
#[test]
fn vector_table_slots_are_patched() {
    let catalog = isr_catalog();
    let mut rt = SecureRuntime::new(catalog, SANDBOX_BASE, 256);
    let draws: Vec<u32> = vec![0, 0];
    assert_eq!(rt.shuffle(None, &draws), Ok(None));
    assert_eq!(rt.ref_adjust(), Ok(()));

    let isr0 = rt.get_instance_address(1).unwrap();
    let isr3 = rt.get_instance_address(2).unwrap();
    let vt = rt.get_instance(0).unwrap();
    assert_eq!(vt.read32(0).unwrap(), (isr0 as u32) | 1);
    assert_eq!(vt.read32(12).unwrap(), (isr3 as u32) | 1);
    // untouched slots remain zero
    assert_eq!(vt.read32(4).unwrap(), 0);
    assert_eq!(vt.read32(8).unwrap(), 0);
    assert_eq!(rt.vtor as usize, rt.get_instance_address(0).unwrap());
}

// Alignment and non-overlap of a pass's placements.
#[test]
fn placements_are_aligned_and_disjoint() {
    let catalog = isr_catalog();
    let sizes: Vec<usize> = vec![16, 4, 4];
    let mut rt = SecureRuntime::new(catalog, SANDBOX_BASE, 256);
    let draws: Vec<u32> = vec![5, 3];
    assert_eq!(rt.shuffle(None, &draws), Ok(None));
    let addr0 = rt.get_instance_address(0).unwrap();
    let addr1 = rt.get_instance_address(1).unwrap();
    let addr2 = rt.get_instance_address(2).unwrap();
    assert_eq!(addr0 % 128, 0);
    assert_eq!(addr1 % 4, 0);
    assert_eq!(addr2 % 4, 0);
    let ranges = [(addr0, sizes[0]), (addr1, sizes[1]), (addr2, sizes[2])];
    for a in 0..3 {
        for b in 0..3 {
            if a != b {
                let (base_a, size_a) = ranges[a];
                let (base_b, size_b) = ranges[b];
                assert!(base_a + size_a <= base_b || base_b + size_b <= base_a);
            }
            let (base, size) = ranges[b];
            assert!(base >= SANDBOX_BASE && base + size <= SANDBOX_BASE + 256);
        }
    }
}

// Translation correctness: an address 8 bytes into an object's previous
// range resurfaces 8 bytes into the object's new placement.
#[test]
fn legacy_address_is_translated() {
    let catalog = scenario_catalog();
    let mut rt = SecureRuntime::new(catalog, SANDBOX_BASE, 256);
    // a previous layout placed FuncA at 0x1000 with its 16 bytes
    rt.instances[1] = Some(CodeBlock::from(0x1000, 16));
    let draws: Vec<u32> = vec![1, 1];
    let translated = rt.shuffle(Some(0x1008), &draws).unwrap().unwrap();
    let new_base = rt.get_instance_address(1).unwrap();
    assert_eq!(translated, new_base + 8);
}

// A legacy address inside no object's previous range is a TranslationMiss;
// the pass itself still places every object.
#[test]
fn stray_legacy_address_misses() {
    let catalog = scenario_catalog();
    let mut rt = SecureRuntime::new(catalog, SANDBOX_BASE, 256);
    let draws: Vec<u32> = vec![1, 1];
    assert_eq!(rt.shuffle(Some(0x12345), &draws), Err(Error::TranslationMiss));
    assert!(rt.get_instance_address(0).is_ok());
    assert!(rt.get_instance_address(1).is_ok());
    assert!(rt.get_instance_address(2).is_ok());
}

// A sandbox smaller than the image aborts the pass with AllocationFailure.
#[test]
fn exhausted_sandbox_aborts_the_pass() {
    let catalog = scenario_catalog();
    let mut rt = SecureRuntime::new(catalog, SANDBOX_BASE, 4);
    let draws: Vec<u32> = vec![1, 1];
    assert_eq!(rt.shuffle(None, &draws), Err(Error::AllocationFailure));
    // the pass aborted on its first placement: nothing beyond it was placed
    assert_eq!(rt.get_instance_address(0), Err(Error::CatalogInconsistency));
    assert_eq!(rt.get_instance_address(1), Err(Error::CatalogInconsistency));
    assert_eq!(rt.get_instance_address(2), Err(Error::CatalogInconsistency));
    let catalog = scenario_catalog();
    let mut rt = SecureRuntime::new(catalog, SANDBOX_BASE, 4);
    assert!(matches!(rt.start(&draws), Err(Error::AllocationFailure)));
}

// A relocation site whose target was never placed is a catalog
// inconsistency.
#[test]
fn missing_target_is_reported() {
    let catalog = scenario_catalog();
    let mut rt = SecureRuntime::new(catalog, SANDBOX_BASE, 256);
    // FuncA stands placed, but its target FuncB has no dispatch entry
    rt.instances[1] = Some(CodeBlock::from(SANDBOX_BASE, 16));
    assert_eq!(rt.do_adjust(1), Err(Error::CatalogInconsistency));
}

#[test]
fn object_accessors() {
    let catalog = scenario_catalog();
    let func_a = match &catalog.objects[1] {
        ObjectKind::Function(o) => o,
        ObjectKind::VectorTable(o) => o,
    };
    assert_eq!(func_a.get_address(), 0x100);
    assert_eq!(func_a.get_size(), 16);
    let items = func_a.get_reloc_items(&catalog.branches).unwrap();
    assert_eq!(items.len(), 1);
    assert_eq!(items[0].0, 4);
    assert_eq!(items[0].1, 2);
    assert_eq!(items[0].2, 0);
    let func_b = match &catalog.objects[2] {
        ObjectKind::Function(o) => o,
        ObjectKind::VectorTable(o) => o,
    };
    assert!(func_b.get_reloc_items(&catalog.branches).is_none());
    assert_eq!(catalog.get_origin_code(2).len(), 8);
}
