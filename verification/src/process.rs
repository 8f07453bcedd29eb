//! Processes: their scheduling state, priorities, and the initial stack
//! image a new process starts from, written into its stack frame.

use vstd::prelude::*;

use crate::mem::PhysicalMemory;
use crate::page_frame_allocator::PageFrameAllocator;

verus! {

/// The virtual address every user process is entered at.
pub const USER_PROCESS_START_ADDRESS: u64 = 0x8000000;

/// A message passed between processes: sender, receiver, and where its
/// bytes lie.
#[derive(Clone, Copy, Debug, PartialEq, Eq, Structural)]
pub struct Message {
    pub sender_pid: usize,
    pub receiver_pid: usize,
    pub message: usize,
    pub length: usize,
    pub m_type: usize,
}

/// What the scheduler may do with a process.
#[derive(Clone, Copy, Debug, PartialEq, Eq, Structural)]
pub enum ProcessState {
    Running,
    Blocked,
    Terminated,
}

/// Scheduling priority classes.
#[derive(Clone, Copy, Debug, PartialEq, Eq, Structural)]
pub enum ProcessPriority {
    High,
    Low,
}

impl ProcessPriority {
    /// The queue priority value of a class; smaller leaves the run queue
    /// first.
    pub fn convert(process_priority: ProcessPriority) -> (v: usize)
        ensures
            process_priority == ProcessPriority::High ==> v == 5,
            process_priority == ProcessPriority::Low ==> v == 10,
    {
        match process_priority {
            ProcessPriority::High => 5,
            ProcessPriority::Low => 10,
        }
    }
}

/// One process: its identity, saved stack pointer, paging root and
/// scheduling state.
#[derive(Clone, Copy, Debug, PartialEq, Eq, Structural)]
pub struct Process {
    pub pid: usize,
    pub rsp: usize,
    pub priority: ProcessPriority,
    pub p4: usize,
    pub state: ProcessState,
}

impl Process {
    /// Marks the process blocked.
    pub fn block(&mut self)
        ensures
            final(self).state == ProcessState::Blocked,
            final(self).pid == old(self).pid,
            final(self).rsp == old(self).rsp,
            final(self).priority == old(self).priority,
            final(self).p4 == old(self).p4,
    {
        self.state = ProcessState::Blocked;
    }

    /// Marks the process runnable again.
    pub fn unblock(&mut self)
        ensures
            final(self).state == ProcessState::Running,
            final(self).pid == old(self).pid,
            final(self).rsp == old(self).rsp,
            final(self).priority == old(self).priority,
            final(self).p4 == old(self).p4,
    {
        self.state = ProcessState::Running;
    }

    /// Builds a new process: one frame becomes its stack, filled from the
    /// top with the register image an interrupt return expects — segment
    /// selectors by ring, the entry point, cleared general registers and
    /// the paging root.  Fails only when no frame is left.
    pub fn init(
        mem: &mut PhysicalMemory,
        pfa: &mut PageFrameAllocator,
        is_user: bool,
        pid: usize,
        p4: usize,
    ) -> (r: Option<Process>)
        requires
            old(pfa).wf(),
            old(mem).contains_range(old(pfa).start(), old(pfa).end()),
        ensures
            final(pfa).wf(),
            final(pfa).start() == old(pfa).start(),
            final(pfa).end() == old(pfa).end(),
            final(mem).agrees_outside(old(mem), old(pfa).start(), old(pfa).end()),
            r is Some <==> (old(pfa).stack().len() > 0 || old(pfa).watermark() < old(pfa).end()),
            r matches Some(p) ==> {
                &&& p.pid == pid
                &&& p.p4 == p4
                &&& p.state == ProcessState::Running
                &&& p.priority == if is_user {
                    ProcessPriority::Low
                } else {
                    ProcessPriority::High
                }
            },
    {
        let frame = match pfa.alloc_page_frame() {
            Some(f) => f,
            None => {
                return None;
            }
        };
        proof {
            assert(pfa.issuable(frame as int));
        }
        // The stack grows down from the frame's top; each slot is one
        // 64-bit word.
        let top = frame + 4096;
        let ss: u64 = if is_user {
            0x20 | 0x3
        } else {
            0x10
        };
        let cs: u64 = if is_user {
            0x18 | 0x3
        } else {
            0x08
        };
        write_word(mem, top - 8, ss);
        write_word(mem, top - 16, top as u64);
        write_word(mem, top - 24, 0x202);
        write_word(mem, top - 32, cs);
        write_word(mem, top - 40, USER_PROCESS_START_ADDRESS);
        let mut off: usize = 48;
        while off <= 160
            invariant
                48 <= off <= 168,
                off % 8 == 0,
                mem.contains_range(frame as int, frame as int + 4096),
                frame + 4096 == top,
                mem.base_addr() == old(mem).base_addr(),
                mem.size() == old(mem).size(),
                mem.agrees_outside(old(mem), old(pfa).start(), old(pfa).end()),
                old(pfa).start() <= frame as int && frame as int + 4096 <= old(pfa).end(),
            decreases 168 - off,
        {
            // The sixteen general registers start cleared.
            write_word(mem, top - off, 0);
            off = off + 8;
        }
        write_word(mem, top - 168, p4 as u64);
        Some(
            Process {
                pid,
                rsp: top - 168,
                priority: if is_user {
                    ProcessPriority::Low
                } else {
                    ProcessPriority::High
                },
                p4,
                state: ProcessState::Running,
            },
        )
    }
}

/// Writes one little-endian 64-bit word at `addr`.
fn write_word(mem: &mut PhysicalMemory, addr: usize, value: u64)
    requires
        addr + 8 <= usize::MAX,
        old(mem).contains_range(addr as int, addr as int + 8),
    ensures
        final(mem).agrees_outside(old(mem), addr as int, addr as int + 8),
        final(mem).base_addr() == old(mem).base_addr(),
        final(mem).size() == old(mem).size(),
{
    let mut i: usize = 0;
    while i < 8
        invariant
            i <= 8,
            addr + 8 <= usize::MAX,
            mem.contains_range(addr as int, addr as int + 8),
            mem.agrees_outside(old(mem), addr as int, addr as int + 8),
        decreases 8 - i,
    {
        proof {
            let sh: u64 = (i * 8) as u64;
            assert((value >> sh) & 0xff < 256u64) by (bit_vector);
        }
        let byte = ((value >> (i as u64 * 8)) & 0xff) as u8;
        mem.write_byte(addr + i, byte);
        i = i + 1;
    }
}

} // verus!
