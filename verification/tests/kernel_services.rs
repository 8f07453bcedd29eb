//! Checks of the kernel services around the memory core: collections,
//! clipping, clock conversions and descriptor packing.

use sidos::bitwise;
use sidos::ds::dynarray::DynamicArray;
use sidos::ds::hashmap::HashMap;
use sidos::ds::list::List;
use sidos::ds::queue::{PriorityQueue, Queue};
use sidos::ds::stack::Stack;
use sidos::ds::tree::TreeNode;
use sidos::event::EventManager;
use sidos::gdt::{Descriptor, GlobalDescriptorTable};
use sidos::idt::{GateType, IDTEntry, PrivilegeLevel};
use sidos::output::ColourCode;
use sidos::paging::Page;
use sidos::pic::ChainedPics;
use sidos::pit::Pit;
use sidos::psf::PsfFont;
use sidos::rect::Rect;
use sidos::rtc::DateTime;
use sidos::spinlock::Lock;
use sidos::tga::TgaHeader;
use sidos::output::{Output, Screen};
use sidos::wrapping_zero::WrappingSubZero;

#[test]
fn bit_helpers() {
    assert_eq!(bitwise::set_bit(0b0001, 0b0100), 0b0101);
    assert_eq!(bitwise::clear_bit(0b0101, 0b0100), 0b0001);
    assert!(bitwise::contains_bit(0b0101, 0b0100));
    assert!(!bitwise::contains_bit(0b0001, 0b0100));
    assert_eq!(bitwise::toggle_bit(0b0101, 0b0110), 0b0011);
}

#[test]
fn clamped_subtraction_floors_at_zero() {
    assert_eq!(5u16.wrapping_sub_zero(7), 0);
    assert_eq!(7u16.wrapping_sub_zero(5), 2);
    assert_eq!(0usize.wrapping_sub_zero(1), 0);
}

#[test]
fn queue_is_first_in_first_out() {
    let mut q: Queue<u32> = Queue::new();
    q.enqueue(1);
    q.enqueue(2);
    q.enqueue(3);
    assert_eq!(q.dequeue(), Some(1));
    assert_eq!(q.dequeue(), Some(2));
    assert_eq!(q.dequeue(), Some(3));
    assert_eq!(q.dequeue(), None);
}

#[test]
fn stack_is_last_in_first_out() {
    let mut s: Stack<u32> = Stack::new();
    s.push(1);
    s.push(2);
    s.push(3);
    assert_eq!(s.peek(), Some(&3));
    assert_eq!(s.pop(), Some(3));
    assert_eq!(s.pop(), Some(2));
    assert_eq!(s.pop(), Some(1));
    assert_eq!(s.pop(), None);
}

#[test]
fn priority_queue_hands_out_the_smallest_priority_first() {
    let mut pq: PriorityQueue<&str> = PriorityQueue::new();
    pq.enqueue("low", 10);
    pq.enqueue("high", 5);
    pq.enqueue("mid", 7);
    assert_eq!(pq.len(), 3);
    assert_eq!(pq.dequeue(), Some("high"));
    assert_eq!(pq.dequeue(), Some("mid"));
    assert_eq!(pq.dequeue(), Some("low"));
    assert!(pq.is_empty());
}

#[test]
fn dynamic_array_operations() {
    let mut a: DynamicArray<u32> = DynamicArray::new();
    a.init();
    a.push(10);
    a.push(20);
    a.push(30);
    assert_eq!(a.length(), 3);
    a.swap(0, 2);
    assert_eq!(*a.get(0), 30);
    assert_eq!(*a.get(2), 10);
    assert_eq!(a.pop(), Some(10));
    let found = a.find_where(&|v: &u32, key: usize| *v as usize == key, 20);
    assert_eq!(found, Some(1));
}

#[test]
fn list_keeps_order() {
    let mut l: List<u32> = List::new();
    l.push_back(2);
    l.push_front(1);
    l.push_back(3);
    assert_eq!(l.get(0), Some(&1));
    assert_eq!(l.get(1), Some(&2));
    assert_eq!(l.get(2), Some(&3));
    assert_eq!(l.remove(1), Some(2));
    assert_eq!(l.length(), 2);
}

#[test]
fn hashmap_stores_and_replaces() {
    let mut m: HashMap<u32> = HashMap::new();
    m.set(3, 33);
    m.set(13, 133);  // same bucket as 3
    m.set(4, 44);
    assert_eq!(m.get(3), Some(&33));
    assert_eq!(m.get(13), Some(&133));
    assert_eq!(m.get(4), Some(&44));
    assert_eq!(m.get(23), None);
    m.set(3, 34);
    assert_eq!(m.get(3), Some(&34));
    m.delete(13);
    assert_eq!(m.get(13), None);
    assert_eq!(m.get(3), Some(&34));
    // Deleting an absent key changes nothing.
    m.delete(99);
    assert_eq!(m.get(3), Some(&34));
    assert_eq!(m.get(4), Some(&44));
}

#[test]
fn tree_counts_its_nodes() {
    let mut root = TreeNode::new(0u32);
    let mut child = TreeNode::new(1u32);
    let leaf = TreeNode::new(2u32);
    assert!(child.add_child(leaf));
    assert!(root.add_child(child));
    let second = TreeNode::new(3u32);
    assert!(root.add_child(second));
    assert_eq!(root.traverse(), 4);
}

#[test]
fn rectangles_intersect_exactly_when_they_share_area() {
    let a = Rect::new(0, 10, 10, 0);
    let b = Rect::new(5, 15, 15, 5);
    let c = Rect::new(20, 30, 30, 20);
    assert!(a.does_intersect(&b));
    assert!(!a.does_intersect(&c));
    let i = a.intersection(&b).unwrap();
    assert_eq!(i, Rect::new(5, 10, 10, 5));
    assert!(a.intersection(&c).is_none());
    assert!(a.coord_does_intersect((5, 5)));
    assert!(!a.coord_does_intersect((10, 5)));
}

#[test]
fn splitting_a_rectangle_carves_out_the_cover() {
    let mut rect = Rect::new(0, 10, 10, 0);
    let cover = Rect::new(5, 15, 15, 5);
    let mut parts: Queue<Rect> = Queue::new();
    Rect::split_rect(&mut rect, &cover, &mut parts);
    // The remainder of `rect` is the part under the cover's spans.
    assert_eq!(rect, Rect::new(5, 10, 10, 5));
    // Left and top slivers were queued.
    assert_eq!(parts.length(), 2);
    assert_eq!(parts.dequeue(), Some(Rect::new(0, 10, 5, 0)));
    assert_eq!(parts.dequeue(), Some(Rect::new(0, 5, 10, 5)));
}

#[test]
fn clock_conversions() {
    let mut dt = DateTime::new();
    // Raw BCD registers of a 24-hour clock: 45 s, 59 min, 23 h, day 28,
    // month 12, year 24; register B has the 24-hour bit set.
    dt.update_values((0x45, 0x59, 0x23, 0x28, 0x12, 0x24));
    dt.convert_to_binary(0x02);
    assert_eq!(dt.get_time(), (23, 59, 45));
    dt.convert_to_24(0x02);
    assert_eq!(dt.get_time(), (23, 59, 45));
    dt.convert_to_bst(0x02);
    assert_eq!(dt.get_time(), (24, 59, 45));
    dt.calculate_year();
    assert_eq!(dt.get_date(), (28, 12, 2024));
}

#[test]
fn clock_pm_hour_becomes_24_hour_form() {
    let mut dt = DateTime::new();
    // A binary 12-hour clock reporting 9 pm: the PM flag rides on bit 7.
    dt.update_values((0, 0, 0x80 | 9, 1, 1, 24));
    dt.convert_to_24(0x04);
    assert_eq!(dt.get_time(), (21, 0, 0));
}

#[test]
fn clock_binary_mode_passes_through() {
    let mut dt = DateTime::new();
    dt.update_values((45, 59, 23, 28, 12, 24));
    dt.convert_to_binary(0x04);
    assert_eq!(dt.get_time(), (23, 59, 45));
}

#[test]
fn descriptor_packing() {
    // The kernel code segment: accessed, writable, executable, the
    // code-or-data bit, present and 64-bit, over the maximal-limit base.
    let expected: u64 = (1 << 40)
        | (1 << 41)
        | (1 << 43)
        | (1 << 44)
        | (1 << 47)
        | (1 << 53)
        | 0xffff
        | (0xf << 48);
    match Descriptor::kernel_code_segment() {
        Descriptor::UserSegment(v) => assert_eq!(v, expected),
        Descriptor::SystemSegment(_) => panic!("wrong descriptor kind"),
    }
}

#[test]
fn descriptor_table_grows_by_entry_kind() {
    let mut gdt = GlobalDescriptorTable::new();
    assert!(gdt.add_entry(Descriptor::kernel_code_segment()));
    assert!(gdt.add_entry(Descriptor::task_state_segment(0x2000, 104)));
    let p = gdt.pointer(0x1000);
    // Null + code + two TSS slots, eight bytes each.
    assert_eq!(p.limit, 4 * 8 - 1);
    assert_eq!(p.base, 0x1000);
    match Descriptor::task_state_segment(0x2000, 104) {
        Descriptor::SystemSegment(v) => assert_eq!(gdt.entry(2), v),
        Descriptor::UserSegment(_) => panic!("wrong descriptor kind"),
    }
    assert_eq!(gdt.entry(3), 0);
}

#[test]
fn interrupt_gate_splits_the_handler_address() {
    let e = IDTEntry::new(GateType::Interrupt, PrivilegeLevel::Ring0, 0x1234_5678_9abc_def0);
    assert_eq!(e.isr_low, 0xdef0);
    assert_eq!(e.isr_mid, 0x9abc);
    assert_eq!(e.isr_high, 0x1234_5678);
    assert_eq!(e.attributes, 0x8e);
    let t = IDTEntry::new(GateType::Trap, PrivilegeLevel::Ring3, 0);
    assert_eq!(t.attributes, 0x8f | 0x20 | 0x40);
}

#[test]
fn timer_divisor_and_ticks() {
    let mut pit = Pit::new(100);
    let (lo, hi) = pit.frequency_bytes();
    assert_eq!(lo as usize + ((hi as usize) << 8), 1193180 / 100);
    pit.handle_timer();
    pit.handle_timer();
}

#[test]
fn controller_pair_routing() {
    let pics = ChainedPics::new(0x20, 0x28);
    assert_eq!(pics.controller_for(0x21), pics.master);
    assert_eq!(pics.controller_for(0x2c), pics.slave);
    assert_eq!(sidos::pic::masked_value(0, 0x21), 0b10);
    assert_eq!(sidos::pic::unmasked_value(0xff, 0x21), 0xfd);
}

#[test]
fn vga_cell_packing() {
    let colour = ColourCode::new((0, 15));
    assert_eq!(colour.generate_vga_entry(b'A'), 15 * 256 + 65);
}

#[test]
fn screen_writes_cells_and_wraps() {
    let mut screen = Screen::new();
    screen.put_char(b'A');
    assert_eq!(screen.cell_at(0), Some(15 * 256 + 65));
    screen.put_char(b'\n');
    screen.put_char(b'B');
    assert_eq!(screen.cell_at(80), Some(15 * 256 + 66));
    screen.clear();
    assert_eq!(screen.cell_at(0), Some(0));
    assert_eq!(screen.cell_at(80), Some(0));
}

#[test]
fn page_entry_packing() {
    let page = Page::new(0x101000);
    assert_eq!(page.0, 0x101000 | 0b111);
    assert_eq!(page.get_physical_address(), 0x101000);
    assert!(!page.is_unused());
    let mut p2 = Page::new(0);
    p2.set_to_unused();
    assert!(p2.is_unused());
}

#[test]
fn font_and_image_headers() {
    let good = PsfFont {
        magic: 0x864ab572,
        version: 0,
        header_size: 32,
        flags: 0,
        glymph_num: 256,
        bytes_per_glyph: 16,
        height: 16,
        width: 8,
    };
    assert!(good.verify());
    let bad = PsfFont { magic: 0, ..good };
    assert!(!bad.verify());
    assert_eq!(good.glyph_offset(2), 32 + 32);
    let tga = TgaHeader {
        magic1: 0,
        colormap: 0,
        encoding: 2,
        cmaporig: 0,
        cmaplen: 0,
        cmapent: 0,
        x: 0,
        y: 0,
        h: 10,
        w: 10,
        bpp: 32,
        pixeltype: 40,
    };
    assert!(tga.is_supported());
}

#[test]
fn event_slot_is_cleared_on_read() {
    let mut em = EventManager::init();
    em.update_key_event(0x1c, b'\n');
    em.update_mouse_event(10, 20, true, false);
    let e = em.get_event();
    assert_eq!(e.scancode, 0x1c);
    assert_eq!(e.mouse_x, 10);
    assert_eq!(e.flags, 0b011);
    let empty = em.get_event();
    assert_eq!(empty.flags, 0);
}

#[test]
fn advisory_lock_flags() {
    let mut l: Lock<u32> = Lock::new(7);
    assert!(!l.is_locked());
    assert_eq!(*l.lock(), 7);
    assert!(l.is_locked());
    l.store(9);
    l.free();
    assert!(!l.is_locked());
}
