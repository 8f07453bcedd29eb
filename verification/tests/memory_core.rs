//! End-to-end checks of the memory subsystem: frame allocator, heap and
//! page-table mapper working against the modelled physical memory.

use sidos::allocator::HeapAllocator;
use sidos::mem::PhysicalMemory;
use sidos::page_frame_allocator::{
    get_number_of_pages, round_to_nearest_page, PageFrameAllocator,
};
use sidos::paging::Mapper;

const MIB: usize = 0x100000;

fn fresh_pfa(start: usize, end: usize) -> PageFrameAllocator {
    let mut pfa = PageFrameAllocator::new();
    pfa.init(start, end);
    pfa
}

#[test]
fn first_frame_is_past_the_header() {
    // A 1 MiB region managed from 0x100000: the first frame handed out is
    // the one just past the reserved free-stack header frame.
    let mut pfa = fresh_pfa(MIB, 2 * MIB);
    let first = pfa.alloc_page_frame();
    assert_eq!(first, Some(0x101000));
}

#[test]
fn frames_are_never_handed_out_twice() {
    let mut pfa = fresh_pfa(MIB, 2 * MIB);
    let a = pfa.alloc_page_frame().unwrap();
    let b = pfa.alloc_page_frame().unwrap();
    let c = pfa.alloc_page_frame().unwrap();
    assert!(a != b && b != c && a != c);
}

#[test]
fn released_frames_are_reused_lifo() {
    let mut mem = PhysicalMemory::new(MIB, MIB);
    let mut pfa = fresh_pfa(MIB, 2 * MIB);
    let a = pfa.alloc_page_frame().unwrap();
    let b = pfa.alloc_page_frame().unwrap();
    pfa.free_page_frame(&mut mem, a);
    pfa.free_page_frame(&mut mem, b);
    assert_eq!(pfa.alloc_page_frame(), Some(b));
    assert_eq!(pfa.alloc_page_frame(), Some(a));
}

#[test]
fn released_frame_reads_all_zero() {
    let mut mem = PhysicalMemory::new(MIB, MIB);
    let mut pfa = fresh_pfa(MIB, 2 * MIB);
    let a = pfa.alloc_page_frame().unwrap();
    for off in 0..4096usize {
        mem.write_byte(a + off, 0x5a);
    }
    pfa.free_page_frame(&mut mem, a);
    assert!(mem.is_range_zero(a, a + 4096));
    // The frame comes back out of the stack still zeroed.
    assert_eq!(pfa.alloc_page_frame(), Some(a));
    assert!(mem.is_range_zero(a, a + 4096));
}

#[test]
fn contiguous_frames_come_from_the_watermark() {
    let mut pfa = fresh_pfa(MIB, 2 * MIB);
    let base = pfa.alloc_page_frames(4).unwrap();
    assert_eq!(base, 0x101000);
    assert_eq!(pfa.current_page, 0x101000 + 4 * 4096);
    // An oversized request is refused outright.
    assert_eq!(pfa.alloc_page_frames(100000), None);
}

#[test]
fn rounding_helpers() {
    assert_eq!(round_to_nearest_page(1), 4096);
    assert_eq!(round_to_nearest_page(4096), 4096);
    assert_eq!(round_to_nearest_page(4097), 8192);
    assert_eq!(get_number_of_pages(8192), 2);
}

#[test]
fn heap_round_trip_returns_the_same_pointer() {
    let mut mem = PhysicalMemory::new(MIB, MIB);
    let mut pfa = fresh_pfa(MIB, 2 * MIB);
    let mut heap = HeapAllocator::new();
    let p = heap.kmalloc(&mut pfa, 100).unwrap();
    heap.kfree(&mut mem, p);
    let q = heap.kmalloc(&mut pfa, 100).unwrap();
    assert_eq!(p, q);
}

#[test]
fn heap_rejects_invalid_requests() {
    let mut pfa = fresh_pfa(MIB, 2 * MIB);
    let mut heap = HeapAllocator::new();
    assert!(heap.kmalloc(&mut pfa, 0).is_err());
}

#[test]
fn oversized_request_extends_exactly_once() {
    // A 5000-byte request rounds to two frames; the watermark moves by
    // exactly that much and the allocation succeeds.
    let mut pfa = fresh_pfa(MIB, 2 * MIB);
    let mut heap = HeapAllocator::new();
    let before = pfa.current_page;
    let p = heap.kmalloc(&mut pfa, 5000);
    assert!(p.is_ok());
    assert_eq!(pfa.current_page, before + 2 * 4096);
}

#[test]
fn live_heap_blocks_do_not_overlap() {
    let mut pfa = fresh_pfa(MIB, 2 * MIB);
    let mut heap = HeapAllocator::new();
    let mut blocks: Vec<(usize, usize)> = Vec::new();
    for size in [100usize, 200, 300, 64, 8] {
        let p = heap.kmalloc(&mut pfa, size).unwrap();
        blocks.push((p, size));
    }
    for (i, &(p1, s1)) in blocks.iter().enumerate() {
        for &(p2, s2) in blocks.iter().skip(i + 1) {
            assert!(p1 + s1 <= p2 || p2 + s2 <= p1);
        }
    }
}

#[test]
fn heap_reuses_memory_after_free() {
    let mut mem = PhysicalMemory::new(MIB, MIB);
    let mut pfa = fresh_pfa(MIB, 2 * MIB);
    let mut heap = HeapAllocator::new();
    let p1 = heap.kmalloc(&mut pfa, 64).unwrap();
    let p2 = heap.kmalloc(&mut pfa, 64).unwrap();
    let watermark = pfa.current_page;
    heap.kfree(&mut mem, p1);
    heap.kfree(&mut mem, p2);
    // Freeing coalesced everything back: the next allocations fit without
    // growing the heap again.
    let q1 = heap.kmalloc(&mut pfa, 64).unwrap();
    let q2 = heap.kmalloc(&mut pfa, 64).unwrap();
    assert_eq!(pfa.current_page, watermark);
    assert_eq!(q1, p1);
    assert_eq!(q2, p2);
}

#[test]
fn free_list_report_shows_blocks() {
    let mut pfa = fresh_pfa(MIB, 2 * MIB);
    let mut heap = HeapAllocator::new();
    assert_eq!(heap.print_memory_list().len(), 0);
    heap.kmalloc(&mut pfa, 100).unwrap();
    // The split remainder of the first extension stays on the list.
    assert_eq!(heap.print_memory_list().len(), 1);
}

#[test]
fn mapping_round_trip() {
    let mut mem = PhysicalMemory::new(MIB, 2 * MIB);
    let mut pfa = fresh_pfa(MIB, 3 * MIB);
    let mut mapper = Mapper::new(&mut pfa).unwrap();
    let frame = pfa.alloc_page_frame().unwrap();
    assert_eq!(mapper.translate_addr(0x400000), None);
    mapper.map_one(&mut pfa, 0x400000, frame as u64).unwrap();
    assert_eq!(mapper.translate_addr(0x400000), Some(frame as u64));
    // Writing through the virtual address lands in the physical frame.
    assert!(mapper.vm_write_byte(&mut mem, 0x400000, 0xab));
    assert_eq!(mem.read_byte(frame), 0xab);
    assert_eq!(mapper.vm_read_byte(&mem, 0x400000), Some(0xab));
    // Unmapping removes the translation; a fresh mapping works again.
    mapper.unmap_one(&mut pfa, &mut mem, 0x400000);
    assert_eq!(mapper.translate_addr(0x400000), None);
    let frame2 = pfa.alloc_page_frame().unwrap();
    mapper.map_one(&mut pfa, 0x400000, frame2 as u64).unwrap();
    assert_eq!(mapper.translate_addr(0x400000), Some(frame2 as u64));
}

#[test]
fn empty_tables_go_back_to_the_frame_allocator() {
    let mut mem = PhysicalMemory::new(MIB, 2 * MIB);
    let mut pfa = fresh_pfa(MIB, 3 * MIB);
    let mut mapper = Mapper::new(&mut pfa).unwrap();
    let frame = pfa.alloc_page_frame().unwrap();
    let stacked_before = pfa.free_page_frames.length();
    mapper.map_one(&mut pfa, 0x400000, frame as u64).unwrap();
    // The single mapping forced three intermediate tables into existence;
    // unmapping the only page they serve frees all three frames again.
    let freed = mapper.unmap_one(&mut pfa, &mut mem, 0x400000);
    assert_eq!(freed, 3);
    assert_eq!(pfa.free_page_frames.length(), stacked_before + 3);
}

#[test]
fn two_mappings_in_one_table_keep_it_alive() {
    let mut mem = PhysicalMemory::new(MIB, 2 * MIB);
    let mut pfa = fresh_pfa(MIB, 3 * MIB);
    let mut mapper = Mapper::new(&mut pfa).unwrap();
    let f1 = pfa.alloc_page_frame().unwrap();
    let f2 = pfa.alloc_page_frame().unwrap();
    mapper.map_one(&mut pfa, 0x400000, f1 as u64).unwrap();
    mapper.map_one(&mut pfa, 0x401000, f2 as u64).unwrap();
    // The first unmap may reclaim nothing: its leaf table still holds the
    // second mapping.
    let freed = mapper.unmap_one(&mut pfa, &mut mem, 0x400000);
    assert_eq!(freed, 0);
    assert_eq!(mapper.translate_addr(0x401000), Some(f2 as u64));
    let freed2 = mapper.unmap_one(&mut pfa, &mut mem, 0x401000);
    assert_eq!(freed2, 3);
}

#[test]
fn map_pages_maps_a_stride_of_frames() {
    let mut pfa = fresh_pfa(MIB, 3 * MIB);
    let mut mapper = Mapper::new(&mut pfa).unwrap();
    let base = pfa.alloc_page_frames(3).unwrap();
    mapper
        .map_pages(&mut pfa, 3, 0x800000, base as u64)
        .unwrap();
    for k in 0..3u64 {
        assert_eq!(
            mapper.translate_addr(0x800000 + k * 4096),
            Some(base as u64 + k * 4096)
        );
    }
}
