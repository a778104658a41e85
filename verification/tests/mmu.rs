use rvkernel::mmu::{
    id_map_range, leaf_entry, map_all, unmap, virt_to_phys, walk, Entry, EntryBits, Mapping, Table,
};
use rvkernel::page::{PageAllocator, PAGE_SIZE};
use rvkernel::process::STACK_ADDR;

const START: u64 = 0x8010_0000;

fn space(pages: usize) -> (PageAllocator, Table) {
    let mut a = PageAllocator::new(START, pages);
    let root = a.zalloc(1);
    assert_ne!(root, 0);
    (a, Table::new(root))
}

#[test]
fn entry_bits_have_their_values() {
    assert_eq!(EntryBits::Empty.val(), 0);
    assert_eq!(EntryBits::Valid.val(), 1);
    assert_eq!(EntryBits::Read.val(), 2);
    assert_eq!(EntryBits::Write.val(), 4);
    assert_eq!(EntryBits::Execute.val(), 8);
    assert_eq!(EntryBits::User.val(), 16);
    assert_eq!(EntryBits::Global.val(), 32);
    assert_eq!(EntryBits::Access.val(), 64);
    assert_eq!(EntryBits::Dirty.val(), 128);
    assert_eq!(EntryBits::ReadWrite.val(), 6);
    assert_eq!(EntryBits::ReadExecute.val(), 10);
    assert_eq!(EntryBits::ReadWriteExecute.val(), 14);
    assert_eq!(EntryBits::UserReadWrite.val(), 22);
    assert_eq!(EntryBits::UserReadExecute.val(), 26);
    assert_eq!(EntryBits::UserReadWriteExecute.val(), 30);
}

#[test]
fn entries_are_leaves_or_branches() {
    let mut e = Entry { entry: 0 };
    assert!(e.is_invalid());
    assert!(e.is_branch());
    e.set_entry(1);
    assert!(e.is_valid());
    assert!(e.is_branch());
    assert!(!e.is_leaf());
    e.set_entry(0x8000_0000 >> 2 | 0xcf);
    assert!(e.is_valid());
    assert!(e.is_leaf());
    assert_eq!(e.get_entry(), 0x2000_00cf);
}

#[test]
fn leaf_entry_holds_page_number_and_bits() {
    let e = leaf_entry(0x8765_4000, EntryBits::ReadWrite.val());
    // page number 0x87654 above ten flag bits: valid, read, write, accessed, dirty
    assert_eq!(e.entry, (0x87654 << 10) | 0xc7);
    // the page offset of the address is not in the entry
    assert_eq!(leaf_entry(0x8765_4abc, 6).entry, e.entry);
}

#[test]
fn new_table_maps_nothing() {
    let (_a, root) = space(4);
    assert_eq!(root.get_addr(), START);
    assert_eq!(virt_to_phys(&root, 0), None);
    assert_eq!(virt_to_phys(&root, 0x8000_0000), None);
    assert_eq!(virt_to_phys(&root, u64::MAX), None);
}

#[test]
fn map_round_trip() {
    let (mut a, mut root) = space(8);
    assert!(rvkernel::mmu::map(&mut root, &mut a, 0x2000_0000, 0x8020_3000, 14));
    assert_eq!(virt_to_phys(&root, 0x2000_0000), Some(0x8020_3000));
    // every address of the page goes to the same offset in the target page
    assert_eq!(virt_to_phys(&root, 0x2000_0abc), Some(0x8020_3abc));
    assert_eq!(virt_to_phys(&root, 0x2000_0fff), Some(0x8020_3fff));
    // the neighbours were never mapped
    assert_eq!(virt_to_phys(&root, 0x2000_1000), None);
    assert_eq!(virt_to_phys(&root, 0x1fff_ffff), None);
    assert_eq!(virt_to_phys(&root, 0), None);
}

#[test]
fn map_creates_only_the_tables_that_are_missing() {
    let (mut a, mut root) = space(8);
    assert_eq!(a.count_free(), 7);
    // first mapping: a level-1 and a level-0 table
    assert!(rvkernel::mmu::map(&mut root, &mut a, 0x2000_0000, 0x9000_0000, 6));
    assert_eq!(a.count_free(), 5);
    // same level-0 table
    assert!(rvkernel::mmu::map(&mut root, &mut a, 0x2000_1000, 0x9000_1000, 6));
    assert_eq!(a.count_free(), 5);
    // same level-1 table, another level-0 table (2 MiB further)
    assert!(rvkernel::mmu::map(&mut root, &mut a, 0x2020_0000, 0x9000_2000, 6));
    assert_eq!(a.count_free(), 4);
    // another level-1 table (1 GiB further)
    assert!(rvkernel::mmu::map(&mut root, &mut a, 0x6000_0000, 0x9000_3000, 6));
    assert_eq!(a.count_free(), 2);
    assert_eq!(virt_to_phys(&root, 0x2000_0000), Some(0x9000_0000));
    assert_eq!(virt_to_phys(&root, 0x2000_1004), Some(0x9000_1004));
    assert_eq!(virt_to_phys(&root, 0x2020_0008), Some(0x9000_2008));
    assert_eq!(virt_to_phys(&root, 0x6000_0010), Some(0x9000_3010));
}

#[test]
fn map_again_replaces_the_leaf() {
    let (mut a, mut root) = space(8);
    assert!(rvkernel::mmu::map(&mut root, &mut a, 0x4000, 0x9000_0000, 2));
    assert!(rvkernel::mmu::map(&mut root, &mut a, 0x4000, 0x9000_5000, 6));
    assert_eq!(virt_to_phys(&root, 0x4008), Some(0x9000_5008));
    assert_eq!(a.count_free(), 5);
}

#[test]
fn map_without_room_for_tables_changes_nothing() {
    let (mut a, mut root) = space(2);
    // one free page, two tables needed
    assert!(!rvkernel::mmu::map(&mut root, &mut a, 0x2000_0000, 0x9000_0000, 6));
    assert_eq!(a.count_free(), 1);
    assert_eq!(virt_to_phys(&root, 0x2000_0000), None);
    let (mut a, mut root) = space(4);
    assert!(rvkernel::mmu::map(&mut root, &mut a, 0x2000_0000, 0x9000_0000, 6));
    assert_eq!(a.count_free(), 1);
    // one table needed, one page free
    assert!(rvkernel::mmu::map(&mut root, &mut a, 0x2020_0000, 0x9000_0000, 6));
    assert_eq!(a.count_free(), 0);
    // no table needed
    assert!(rvkernel::mmu::map(&mut root, &mut a, 0x2020_1000, 0x9000_0000, 6));
    // one table needed, none free
    assert!(!rvkernel::mmu::map(&mut root, &mut a, 0x2040_0000, 0x9000_0000, 6));
    assert_eq!(virt_to_phys(&root, 0x2040_0000), None);
    assert_eq!(virt_to_phys(&root, 0x2020_1000), Some(0x9000_0000));
}

#[test]
fn walk_checks_the_access_rights() {
    let (mut a, mut root) = space(8);
    assert!(rvkernel::mmu::map(&mut root, &mut a, 0x5000, 0x9000_0000, EntryBits::UserReadExecute.val()));
    assert_eq!(walk(&root, 0x5010, 0), Some(0x9000_0010));
    assert_eq!(walk(&root, 0x5010, EntryBits::Read.val()), Some(0x9000_0010));
    assert_eq!(walk(&root, 0x5010, EntryBits::UserReadExecute.val()), Some(0x9000_0010));
    assert_eq!(walk(&root, 0x5010, EntryBits::Write.val()), None);
    assert_eq!(walk(&root, 0x5010, EntryBits::UserReadWrite.val()), None);
    assert_eq!(walk(&root, 0x6010, EntryBits::Read.val()), None);
}

#[test]
fn translation_ignores_address_bits_above_the_indices() {
    let (mut a, mut root) = space(8);
    assert!(rvkernel::mmu::map(&mut root, &mut a, 0x5000, 0x9000_0000, 6));
    // bit 39 and above do not take part in the walk
    assert_eq!(virt_to_phys(&root, (1 << 39) | 0x5020), Some(0x9000_0020));
    // a physical address beyond 56 bits loses its high bits
    assert!(rvkernel::mmu::map(&mut root, &mut a, 0x6000, 0xff00_0000_9000_1000, 6));
    assert_eq!(virt_to_phys(&root, 0x6000), Some(0x9000_1000));
}

// a stack of two pages is mapped at its fixed address; both pages
// translate; tearing the address space down frees the tables that the
// mapping made, and neither the stack nor the root.
#[test]
fn stack_mapping_and_teardown() {
    let (mut a, mut root) = space(16);
    let stack = a.zalloc(2);
    assert_ne!(stack, 0);
    let free_before = a.count_free();
    assert!(rvkernel::mmu::map(&mut root, &mut a, STACK_ADDR, stack, EntryBits::UserReadWrite.val()));
    assert!(rvkernel::mmu::map(
        &mut root,
        &mut a,
        STACK_ADDR + PAGE_SIZE,
        stack + PAGE_SIZE,
        EntryBits::UserReadWrite.val()
    ));
    assert_eq!(virt_to_phys(&root, STACK_ADDR), Some(stack));
    assert_eq!(virt_to_phys(&root, STACK_ADDR + 8), Some(stack + 8));
    assert_eq!(virt_to_phys(&root, STACK_ADDR + PAGE_SIZE), Some(stack + PAGE_SIZE));
    assert_eq!(virt_to_phys(&root, STACK_ADDR + 2 * PAGE_SIZE), None);
    // two tables were made
    assert_eq!(a.count_free(), free_before - 2);
    assert!(a.write(stack, 42));
    unmap(&mut root, &mut a);
    assert_eq!(a.count_free(), free_before);
    assert_eq!(virt_to_phys(&root, STACK_ADDR), None);
    // the stack is still taken and holds what it held: a new request passes it by
    assert_eq!(a.read(stack), Some(42));
    let p = a.alloc_pages(1);
    assert!(p != stack && p != stack + PAGE_SIZE && p != root.get_addr());
    // the freed pages are the two that the tables stood in
    let q = a.alloc_pages(1);
    assert_eq!((p, q), (stack + 2 * PAGE_SIZE, stack + 3 * PAGE_SIZE));
    // the root can then be released by its owner
    a.dealloc(root.get_addr());
    a.dealloc(stack);
    assert_eq!(a.count_free(), 14);
}

#[test]
fn unmap_of_an_empty_space_frees_nothing() {
    let (mut a, mut root) = space(4);
    unmap(&mut root, &mut a);
    assert_eq!(a.count_free(), 3);
}

#[test]
fn id_map_range_maps_every_page_that_the_range_touches() {
    let (mut a, mut root) = space(8);
    assert!(id_map_range(&mut root, &mut a, 0x1000_0800, 0x1000_2001, 6));
    assert_eq!(virt_to_phys(&root, 0x0fff_ffff), None);
    assert_eq!(virt_to_phys(&root, 0x1000_0000), Some(0x1000_0000));
    assert_eq!(virt_to_phys(&root, 0x1000_1234), Some(0x1000_1234));
    assert_eq!(virt_to_phys(&root, 0x1000_2fff), Some(0x1000_2fff));
    assert_eq!(virt_to_phys(&root, 0x1000_3000), None);
    // an empty range that begins at a page maps nothing
    assert!(id_map_range(&mut root, &mut a, 0x2000_0000, 0x2000_0000, 6));
    assert_eq!(virt_to_phys(&root, 0x2000_0000), None);
    // a range that ends at a page does not reach into it
    assert!(id_map_range(&mut root, &mut a, 0x1000_4000, 0x1000_5000, 6));
    assert_eq!(virt_to_phys(&root, 0x1000_4000), Some(0x1000_4000));
    assert_eq!(virt_to_phys(&root, 0x1000_5000), None);
}

#[test]
fn id_map_range_stops_when_the_tables_run_out() {
    let (mut a, mut root) = space(3);
    // two tables for the first 2 MiB, none left for the next
    assert!(!id_map_range(&mut root, &mut a, 0x1ff000, 0x201000, 6));
    assert_eq!(virt_to_phys(&root, 0x1ff000), Some(0x1ff000));
    assert_eq!(virt_to_phys(&root, 0x200000), None);
    assert_eq!(a.count_free(), 0);
}

#[test]
fn map_all_makes_the_mappings_in_order() {
    let (mut a, mut root) = space(8);
    let plan = vec![
        Mapping { vaddr: 0x1000, paddr: 0x9000_0000, bits: 6 },
        Mapping { vaddr: 0x2000, paddr: 0x9000_1000, bits: 6 },
        Mapping { vaddr: 0x1000, paddr: 0x9000_2000, bits: 6 },
    ];
    map_all(&mut root, &mut a, &plan);
    assert_eq!(virt_to_phys(&root, 0x1000), Some(0x9000_2000));
    assert_eq!(virt_to_phys(&root, 0x2000), Some(0x9000_1000));
}
