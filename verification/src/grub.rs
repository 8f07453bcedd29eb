//! What the kernel takes from the bootloader at start: the top of useable
//! memory, and one process per loaded module.

use vstd::prelude::*;

use crate::mem::PhysicalMemory;
use crate::multiboot2::MultibootBootInfo;
use crate::page_frame_allocator::PageFrameAllocator;
use crate::process::Process;
use crate::process_manager::ProcessManager;

verus! {

/// The highest available physical address the boot information reports.
pub fn get_end_of_memory(multiboot_info: &MultibootBootInfo) -> (end: u64)
{
    multiboot_info.end_of_useable_memory()
}

/// Starts one user process per module the bootloader loaded, under the
/// paging root `p4`.  Returns how many processes were started; frame
/// exhaustion stops the walk early.
pub fn initalise_userland(
    multiboot_info: &MultibootBootInfo,
    mem: &mut PhysicalMemory,
    pfa: &mut PageFrameAllocator,
    manager: &mut ProcessManager,
    p4: usize,
) -> (started: usize)
    requires
        old(pfa).wf(),
        old(mem).contains_range(old(pfa).start(), old(pfa).end()),
        old(manager).tasks.wf(),
    ensures
        final(pfa).wf(),
        final(manager).tasks.wf(),
        final(manager).tasks.view().len() == old(manager).tasks.view().len() + started,
    {
        let mut it = multiboot_info.get_module_tags();
        let mut started: usize = 0;
        let mut pid: usize = 0;
        let mut fuel: usize = multiboot_info.size_bytes() / 8 + 2;
        let ghost base = old(manager).tasks.view().len();
        loop
            invariant
                pfa.wf(),
                manager.tasks.wf(),
                mem.contains_range(pfa.start(), pfa.end()),
                pfa.start() == old(pfa).start(),
                pfa.end() == old(pfa).end(),
                base == old(manager).tasks.view().len(),
                manager.tasks.view().len() == base + started,
                started <= usize::MAX - 1,
                pid <= usize::MAX - 1,
            decreases fuel,
        {
            if fuel == 0 {
                return started;
            }
            fuel = fuel - 1;
            match it.next(multiboot_info) {
                Some(_tag) => {
                    match Process::init(mem, pfa, true, pid, p4) {
                        Some(process) => {
                            manager.add_process(process);
                            if started == usize::MAX - 1 || pid == usize::MAX - 1 {
                                return started + 1;
                            }
                            started = started + 1;
                            pid = pid + 1;
                        }
                        None => {
                            return started;
                        }
                    }
                }
                None => {
                    return started;
                }
            }
        }
    }

} // verus!
