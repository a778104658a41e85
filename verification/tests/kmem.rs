use rvkernel::kmem::{
    coalesce, get_head, get_num_allocations, init, kfree, kmalloc, kzmalloc, AllocList,
    AllocListFlags,
};
use rvkernel::page::PageAllocator;

const START: u64 = 0x8010_0000;

#[test]
fn header_keeps_size_and_flag_apart() {
    assert_eq!(AllocListFlags::Taken.val(), 1u64 << 63);
    let mut h = AllocList { flags_size: 0 };
    assert!(h.is_free());
    assert!(!h.is_taken());
    h.set_size(4096);
    assert_eq!(h.get_size(), 4096);
    h.set_taken();
    assert!(h.is_taken());
    assert_eq!(h.get_size(), 4096);
    assert_eq!(h.flags_size, (1u64 << 63) | 4096);
    h.set_size(24);
    assert!(h.is_taken());
    assert_eq!(h.get_size(), 24);
    h.set_free();
    assert!(h.is_free());
    assert_eq!(h.get_size(), 24);
    // the size is kept in 63 bits
    h.set_size(u64::MAX);
    assert!(h.is_free());
    assert_eq!(h.get_size(), u64::MAX >> 1);
}

#[test]
fn init_reserves_sixty_four_pages() {
    let mut a = PageAllocator::new(START, 80);
    let heap = init(&mut a).unwrap();
    assert_eq!(get_head(&heap), START);
    assert_eq!(get_num_allocations(&heap), 64);
    assert_eq!(a.count_free(), 16);
}

#[test]
fn init_without_room_changes_nothing() {
    let mut a = PageAllocator::new(START, 63);
    assert!(init(&mut a).is_none());
    assert_eq!(a.count_free(), 63);
}

#[test]
fn kmalloc_hands_out_aligned_blocks_behind_their_headers() {
    let mut a = PageAllocator::new(START, 64);
    let mut heap = init(&mut a).unwrap();
    let p = kmalloc(&mut heap, 16);
    assert_eq!(p, START + 8);
    // 13 bytes take 16, and a header
    let q = kmalloc(&mut heap, 13);
    assert_eq!(q, START + 24 + 8);
    let r = kmalloc(&mut heap, 0);
    assert_eq!(r, START + 48 + 8);
    let s = kmalloc(&mut heap, 1);
    assert_eq!(s, START + 56 + 8);
}

#[test]
fn kmalloc_without_room_returns_null() {
    let mut a = PageAllocator::new(START, 64);
    let mut heap = init(&mut a).unwrap();
    assert_eq!(kmalloc(&mut heap, 64 * 4096), 0);
    assert_eq!(kmalloc(&mut heap, u64::MAX), 0);
    // the whole pool but for its header
    let p = kmalloc(&mut heap, 64 * 4096 - 8);
    assert_eq!(p, START + 8);
    assert_eq!(kmalloc(&mut heap, 0), 0);
    kfree(&mut heap, p);
    assert_eq!(kmalloc(&mut heap, 0), START + 8);
}

// two blocks, the first freed; the next request of the same size
// gets the first block again, and the second block stays where it is.
#[test]
fn freed_block_is_reused_without_merging_across_a_taken_block() {
    let mut a = PageAllocator::new(START, 64);
    let mut heap = init(&mut a).unwrap();
    let first = kmalloc(&mut heap, 16);
    let second = kmalloc(&mut heap, 16);
    assert_ne!(first, 0);
    assert_ne!(second, 0);
    assert_eq!(second, first + 24);
    kfree(&mut heap, first);
    let third = kmalloc(&mut heap, 16);
    assert_eq!(third, first);
    assert_eq!(get_num_allocations(&heap), 64);
    assert_eq!(a.count_free(), 0);
    // the block behind the second one begins where it began before
    let fourth = kmalloc(&mut heap, 16);
    assert_eq!(fourth, second + 24);
    // a request that the freed block alone cannot serve goes behind
    kfree(&mut heap, first);
    let big = kmalloc(&mut heap, 32);
    assert_eq!(big, fourth + 24);
}

#[test]
fn whole_block_is_taken_when_the_rest_is_no_more_than_a_header() {
    let mut a = PageAllocator::new(START, 64);
    let mut heap = init(&mut a).unwrap();
    let p = kmalloc(&mut heap, 24); // block of 32
    let q = kmalloc(&mut heap, 8);
    kfree(&mut heap, p);
    // 16 + 8 = 24 of 32: the rest of 8 is only a header, the block stays whole
    let r = kmalloc(&mut heap, 16);
    assert_eq!(r, p);
    kfree(&mut heap, r);
    // 8 + 8 = 16 of 32: the rest of 16 becomes a block of its own
    let s = kmalloc(&mut heap, 8);
    assert_eq!(s, p);
    let t = kmalloc(&mut heap, 8);
    assert_eq!(t, p + 16);
    assert_eq!(q, p + 32);
}

#[test]
fn coalesce_merges_pairs_in_one_pass() {
    let mut a = PageAllocator::new(START, 64);
    let mut heap = init(&mut a).unwrap();
    let b0 = kmalloc(&mut heap, 8);
    let b1 = kmalloc(&mut heap, 8);
    let b2 = kmalloc(&mut heap, 8);
    let b3 = kmalloc(&mut heap, 8);
    let _b4 = kmalloc(&mut heap, 8);
    assert_eq!(b3, b0 + 48);
    // free the middle ones first: nothing to merge with
    kfree(&mut heap, b1);
    kfree(&mut heap, b2); // b1 and b2 merge into 32 bytes
    // 24 bytes and a header fit into the merged block, and nowhere before
    let m = kmalloc(&mut heap, 24);
    assert_eq!(m, b1);
    kfree(&mut heap, m);
    // three free blocks in a row: one pass merges the first two only
    kfree(&mut heap, b3); // b1+b2 (32) and b3 (16) merge: one block of 48
    kfree(&mut heap, b0); // b0 (16) and the block of 48 merge
    coalesce(&mut heap);
    let whole = kmalloc(&mut heap, 56);
    assert_eq!(whole, b0);
}

#[test]
fn one_pass_leaves_the_third_of_three_free_blocks() {
    let mut a = PageAllocator::new(START, 64);
    let mut heap = init(&mut a).unwrap();
    // take the whole pool in four blocks
    let b0 = kmalloc(&mut heap, 8);
    let b1 = kmalloc(&mut heap, 8);
    let b2 = kmalloc(&mut heap, 8);
    let b3 = kmalloc(&mut heap, 64 * 4096 - 48 - 8);
    assert_ne!(b3, 0);
    assert_eq!(kmalloc(&mut heap, 0), 0);
    kfree(&mut heap, b2);
    kfree(&mut heap, b0);
    // now free, taken, free; freeing the middle one gives three free in a row
    kfree(&mut heap, b1);
    // the pass merged b0 and b1 and went on behind them: b2 is still alone
    assert_eq!(kmalloc(&mut heap, 40), 0);
    let p = kmalloc(&mut heap, 24);
    assert_eq!(p, b0);
    kfree(&mut heap, p);
    // the next pass merges the two that are left
    let q = kmalloc(&mut heap, 40);
    assert_eq!(q, b0);
}

#[test]
fn kfree_of_null_or_of_no_block_changes_no_block() {
    let mut a = PageAllocator::new(START, 64);
    let mut heap = init(&mut a).unwrap();
    let p = kmalloc(&mut heap, 16);
    let q = kmalloc(&mut heap, 16);
    kfree(&mut heap, 0);
    kfree(&mut heap, p + 4);
    kfree(&mut heap, START);
    // both blocks are still taken
    assert_eq!(kmalloc(&mut heap, 16), q + 24);
}

#[test]
fn kzmalloc_clears_the_block() {
    let mut a = PageAllocator::new(START, 64);
    let mut heap = init(&mut a).unwrap();
    for off in 0..64u64 {
        assert!(a.write(START + off, 0xff));
    }
    let p = kzmalloc(&mut heap, &mut a, 13);
    assert_eq!(p, START + 8);
    // the header bytes of the model's pool are not the block's
    assert_eq!(a.read(START + 7), Some(0xff));
    for off in 0..16u64 {
        assert_eq!(a.read(p + off), Some(0));
    }
    assert_eq!(a.read(p + 16), Some(0xff));
    assert_eq!(kzmalloc(&mut heap, &mut a, u64::MAX), 0);
}
