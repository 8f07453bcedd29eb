//! Checks of the platform-facing logic: boot-information parsing, the
//! filesystem arithmetic, device protocol decoding and process
//! bookkeeping.

use sidos::allocator::{HeapAllocator, HeapError};
use sidos::fat;
use sidos::fat::{BiosParameterBlock, ExtendedBootRecord, FatError};
use sidos::keyboard::Keyboard;
use sidos::mem::PhysicalMemory;
use sidos::mouse::Mouse;
use sidos::multiboot2::MultibootBootInfo;
use sidos::page_frame_allocator::PageFrameAllocator;
use sidos::paging::{MapError, Mapper};
use sidos::process::{Process, ProcessPriority, ProcessState};
use sidos::process_manager::ProcessManager;
use sidos::ps2;
use sidos::ps2::{PS2Device, PS2Error};
use sidos::ds::queue::Queue;
use sidos::rect::Rect;
use sidos::strutil;
use sidos::vfs::{File, FileType, Vfs};
use sidos::window::{Window, WINDOW_TITLE_COLOUR};
use sidos::wm::{WMState, WindowManager};
use sidos::grub;

fn push_u32(v: &mut Vec<u8>, x: u32) {
    for i in 0..4 {
        v.push(((x >> (i * 8)) & 0xff) as u8);
    }
}

fn push_u64(v: &mut Vec<u8>, x: u64) {
    for i in 0..8 {
        v.push(((x >> (i * 8)) & 0xff) as u8);
    }
}

#[test]
fn boot_information_parses_tags() {
    // A synthetic boot block: total size, reserved word, one module tag,
    // one memory-map tag with two entries, and the end tag.
    let mut b: Vec<u8> = Vec::new();
    push_u32(&mut b, 0);  // total size, patched below
    push_u32(&mut b, 0);  // reserved
    // module tag: type 3, size 16+, start/end
    push_u32(&mut b, 3);
    push_u32(&mut b, 16);
    push_u32(&mut b, 0x5000);
    push_u32(&mut b, 0x6000);
    // memory map tag: type 6, size 16 + 2 * 24
    push_u32(&mut b, 6);
    push_u32(&mut b, 16 + 48);
    push_u32(&mut b, 24);  // entry size
    push_u32(&mut b, 0);  // entry version
    push_u64(&mut b, 0x0);
    push_u64(&mut b, 0x9f000);
    push_u32(&mut b, 1);  // available
    push_u32(&mut b, 0);
    push_u64(&mut b, 0x100000);
    push_u64(&mut b, 0x700000);
    push_u32(&mut b, 1);  // available
    push_u32(&mut b, 0);
    // end tag
    push_u32(&mut b, 0);
    push_u32(&mut b, 8);
    let total = b.len() as u32;
    for (i, byte) in total.to_le_bytes().iter().enumerate() {
        b[i] = *byte;
    }
    let info = MultibootBootInfo::load(0x7e00, b);
    assert_eq!(info.start_address(), 0x7e00);
    assert_eq!(info.get_size(), total as usize);
    let mut modules = info.get_module_tags();
    let m = modules.next(&info).unwrap();
    assert_eq!((m.mod_start, m.mod_end), (0x5000, 0x6000));
    assert!(modules.next(&info).is_none());
    let mmap = info.get_memory_map_tag().unwrap();
    let entries = info.get_available_mmap_entries(&mmap);
    assert_eq!(entries.len(), 2);
    assert_eq!(entries[1].start_address(), 0x100000);
    assert_eq!(entries[1].end_address(), 0x800000);
    assert_eq!(info.end_of_useable_memory(), 0x800000);
    assert!(info.get_framebuffer_tag().is_none());
}

#[test]
fn filesystem_arithmetic_and_table_access() {
    assert_eq!(fat::convert_sector_to_bytes(3), 3 * 512);
    assert_eq!(fat::get_sector_from_cluster(0x9000, 2), 0x9000);
    assert_eq!(fat::get_sector_from_cluster(0x9000, 5), 0x9000 + 12);
    let mut table: Vec<u8> = vec![0; 64];
    // cluster 2 -> 3 -> end of chain; cluster 4 bad; cluster 5 empty.
    fat::write_fat(&mut table, 2, 3);
    fat::write_fat(&mut table, 3, 0xfff8);
    fat::write_fat(&mut table, 4, 0xfff7);
    assert_eq!(fat::get_next_cluster(&table, 2), Ok(Some(3)));
    assert_eq!(fat::get_next_cluster(&table, 3), Ok(None));
    assert_eq!(fat::get_next_cluster(&table, 4), Err(FatError::BadCluster));
    assert_eq!(fat::get_next_cluster(&table, 5), Err(FatError::EmptyCluster));
    // The first free cluster is claimed and marked end of chain.
    let free = fat::find_free_cluster(&mut table).unwrap();
    assert_eq!(free, 0);
    assert_eq!(fat::get_next_cluster(&table, 0), Ok(None));
}

#[test]
fn boot_sector_checks() {
    let bpb = BiosParameterBlock {
        jmp: (0xeb, 0x3c, 0x90),
        bytes_per_sector: 512,
        sectors_per_cluster: 4,
        reserved_sector_count: 4,
        table_count: 2,
        root_entry_count: 512,
        sector_count_16: 1000,
        media_type: 0xf8,
        table_size_16: 20,
        sectors_per_track: 63,
        head_count: 16,
        hidden_sector_count: 0,
        large_sector_count: 0,
    };
    assert!(bpb.verify());
    let (fat_addr, rd_addr, ds_addr) = fat::init(0, &bpb);
    assert_eq!(fat_addr, 4 * 512);
    assert_eq!(rd_addr, (4 + 40) * 512);
    assert_eq!(ds_addr, rd_addr + 32 * 512);
    let ebr = ExtendedBootRecord {
        drive_number: 0x80,
        nt_flags: 0,
        signature: 0x29,
        serial: 7,
        bootable_partition_signature: 0xaa55,
    };
    assert!(ebr.verify());
}

#[test]
fn device_identification() {
    assert_eq!(ps2::identify_device_type(0x00, 0), Ok(PS2Device::PS2Mouse));
    assert_eq!(
        ps2::identify_device_type(0x03, 0),
        Ok(PS2Device::PS2MouseScrollWheel)
    );
    assert_eq!(
        ps2::identify_device_type(0xab, 0x41),
        Ok(PS2Device::MF2KeyboardTranslation)
    );
    assert_eq!(ps2::identify_device_type(0xab, 0x83), Ok(PS2Device::MF2Keyboard));
    assert_eq!(
        ps2::identify_device_type(0x7f, 0),
        Err(PS2Error::UnknownDevice)
    );
    assert!(ps2::is_from_mouse(0x20));
    assert!(!ps2::is_from_mouse(0x01));
    assert!(ps2::read_is_ready(0x01));
    assert!(ps2::write_must_wait(0x02));
}

#[test]
fn keyboard_translation_and_shift() {
    let mut kbd = Keyboard::init();
    // Scancode 0x10 is the letter q in the first scancode set.
    assert_eq!(kbd.handle_keyboard(0x10), Some(b'q'));
    assert_eq!(kbd.handle_keyboard(0x2a), None);  // left shift pressed
    assert_eq!(kbd.handle_keyboard(0x10), Some(b'Q'));
    assert_eq!(kbd.handle_keyboard(0xaa), None);  // left shift released
    assert_eq!(kbd.handle_keyboard(0x10), Some(b'q'));
    assert_eq!(kbd.handle_keyboard(0x1c), Some(0x1c));  // enter
    // A released-key code past the table gives nothing.
    assert_eq!(kbd.handle_keyboard(0x90), None);
}

#[test]
fn mouse_negative_movement_is_sign_extended() {
    let mut m = Mouse::init();
    // Flags: well-formed packet with both sign bits set; X moves by -5,
    // Y by -3 (downward axis: the pointer goes down the screen).
    m.handle_mouse_interrupt(0b0011_1000);
    m.handle_mouse_interrupt(251);
    m.handle_mouse_interrupt(253);
    m.handle_mouse_interrupt(0);
    assert_eq!((m.x, m.y), (512 - 5, 384 + 3));
}

#[test]
fn splitting_partitions_the_rectangle() {
    let original = Rect::new(0, 8, 8, 0);
    let mut remainder = original;
    let cover = Rect::new(2, 6, 6, 2);
    let mut parts: Queue<Rect> = Queue::new();
    Rect::split_rect(&mut remainder, &cover, &mut parts);
    let mut pieces: Vec<Rect> = vec![remainder];
    let n = parts.length();
    for i in 0..n {
        pieces.push(*parts.get_element(i).unwrap());
    }
    // Every point of the first rectangle lies in exactly one piece, and
    // points of the cut-out lie only in the remainder.
    for x in 0..8u16 {
        for y in 0..8u16 {
            let holders = pieces
                .iter()
                .filter(|r| r.left <= x && x < r.right && r.top <= y && y < r.bottom)
                .count();
            assert_eq!(holders, 1);
            let in_cover = cover.left <= x && x < cover.right && cover.top <= y && y < cover.bottom;
            if in_cover {
                let rr = &remainder;
                assert!(rr.left <= x && x < rr.right && rr.top <= y && y < rr.bottom);
            }
        }
    }
}

#[test]
fn mouse_packet_moves_the_pointer() {
    let mut m = Mouse::init();
    assert_eq!((m.x, m.y), (512, 384));
    // First byte: well-formed, no buttons; then +5 right, 3 toward the
    // top of the screen (positive Y movement), then a wheel byte.
    m.handle_mouse_interrupt(0b0000_1000);
    m.handle_mouse_interrupt(5);
    m.handle_mouse_interrupt(3);
    m.handle_mouse_interrupt(0);
    assert_eq!((m.x, m.y), (517, 381));
    // A malformed first byte is dropped.
    m.handle_mouse_interrupt(0);
    assert_eq!(m.current_byte, 0);
}

#[test]
fn process_lifecycle_and_scheduling() {
    let mut mem = PhysicalMemory::new(0x100000, 0x100000);
    let mut pfa = PageFrameAllocator::new();
    pfa.init(0x100000, 0x200000);
    let kernel_task = Process::init(&mut mem, &mut pfa, false, 1, 0x1000).unwrap();
    let user_task = Process::init(&mut mem, &mut pfa, true, 2, 0x2000).unwrap();
    assert_eq!(kernel_task.priority, ProcessPriority::High);
    assert_eq!(user_task.priority, ProcessPriority::Low);
    assert_eq!(kernel_task.state, ProcessState::Running);
    let mut blocked = user_task;
    blocked.block();
    assert_eq!(blocked.state, ProcessState::Blocked);
    blocked.unblock();
    assert_eq!(blocked.state, ProcessState::Running);

    let mut pm = ProcessManager::new();
    pm.init();
    pm.add_process(user_task);
    pm.add_process(kernel_task);
    assert_eq!(pm.len(), 2);
    // The high-priority (smaller value) kernel task runs first.
    let first = pm.get_current_process().unwrap();
    assert_eq!(first.pid, 1);
    pm.remove_process();
    assert_eq!(pm.len(), 0);
}

#[test]
fn priority_convert_values() {
    assert_eq!(ProcessPriority::convert(ProcessPriority::High), 5);
    assert_eq!(ProcessPriority::convert(ProcessPriority::Low), 10);
}

#[test]
fn filename_trimming_and_joining() {
    let padded = vec![b'R', b'E', b'A', b'D', b'M', b'E', b' ', b' '];
    let trimmed = strutil::convert_utf8_to_trimmed_string(&padded);
    assert_eq!(trimmed, vec![b'R', b'E', b'A', b'D', b'M', b'E']);
    let ext = vec![b'T', b'X', b'T'];
    let joined = strutil::concatenate_filename_ext(&trimmed, &ext);
    assert_eq!(joined, b"readme.txt".to_vec());
}

#[test]
fn open_file_offsets() {
    let mut f = File::new(b"a.txt".to_vec(), 100, FileType::File, 3);
    assert_eq!(f.get_offset(), 0);
    f.set_offset(42);
    assert_eq!(f.get_offset(), 42);
    let mut vfs = Vfs::new();
    vfs.init((0x1000, 0x2000, 0x3000));
    assert_eq!((vfs.fat_addr, vfs.rd_addr, vfs.ds_addr), (0x1000, 0x2000, 0x3000));
}

#[test]
fn exhaustion_is_reported_not_hidden() {
    // A managed region with a single usable frame: the heap cannot grow
    // by two frames, and the mapper cannot build a three-table chain.
    let mut pfa = PageFrameAllocator::new();
    pfa.init(0x100000, 0x102000);
    let mut heap = HeapAllocator::new();
    assert_eq!(heap.kmalloc(&mut pfa, 5000), Err(HeapError::OutOfMemory));
    let mut mapper = Mapper::new(&mut pfa).unwrap();
    let r = mapper.map_one(&mut pfa, 0x400000, 0x9000);
    assert_eq!(r, Err(MapError::OutOfFrames));
}

#[test]
fn windows_and_the_manager() {
    let w = Window::new(b"shell".to_vec(), 100, 100, 40, 30, 0x363636);
    assert_eq!(w.pixel(0), Some(WINDOW_TITLE_COLOUR));
    assert_eq!(w.pixel(40 * 20), Some(0x363636));
    assert_eq!(w.pixel(40 * 30), None);
    let r = w.generate_rect();
    assert_eq!((r.top, r.bottom, r.left, r.right), (100, 130, 100, 140));

    let mut wm = WindowManager::new();
    wm.set_fb_address(0xa0000);
    let wid = wm.add_window(w);
    assert_eq!(wid, 0);
    let wid2 = wm.add_window(Window::new(b"log".to_vec(), 300, 300, 40, 30, 0x111111));
    assert_eq!(wid2, 1);
    // A press over the first window arms the selection, a second press
    // starts the drag, and a release returns to idle.
    wm.handle_mouse_event((120, 110), false);
    assert_eq!(wm.current_state, WMState::Idle);
    wm.handle_mouse_event((120, 110), true);
    assert_eq!(wm.current_state, WMState::Select);
    wm.handle_mouse_event((121, 111), true);
    assert_eq!(wm.current_state, WMState::Drag);
    wm.handle_mouse_event((121, 111), false);
    assert_eq!(wm.current_state, WMState::Idle);
}

#[test]
fn boot_module_processes() {
    let mut b: Vec<u8> = Vec::new();
    push_u32(&mut b, 40);
    push_u32(&mut b, 0);
    push_u32(&mut b, 3);
    push_u32(&mut b, 16);
    push_u32(&mut b, 0x5000);
    push_u32(&mut b, 0x6000);
    push_u32(&mut b, 0);
    push_u32(&mut b, 8);
    let info = MultibootBootInfo::load(0x7e00, b);
    let mut mem = PhysicalMemory::new(0x100000, 0x100000);
    let mut pfa = PageFrameAllocator::new();
    pfa.init(0x100000, 0x200000);
    let mut pm = ProcessManager::new();
    let started = grub::initalise_userland(&info, &mut mem, &mut pfa, &mut pm, 0x1000);
    assert_eq!(started, 1);
    assert_eq!(pm.len(), 1);
}
