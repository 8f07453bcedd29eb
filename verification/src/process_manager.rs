//! The scheduler's bookkeeping: runnable processes queued by priority.

use vstd::prelude::*;

use crate::ds::queue::PriorityQueue;
use crate::process::{Process, ProcessPriority, ProcessState};

verus! {

/// The run queue and whose turn it is.
pub struct ProcessManager {
    pub tasks: PriorityQueue<Process>,
    pub current_process_id: usize,
    pub is_from_kernel: bool,
}

impl ProcessManager {
    /// A manager with an empty run queue, starting from kernel context.
    pub fn new() -> (m: ProcessManager)
        ensures
            m.tasks.wf(),
            m.tasks.view().len() == 0,
            m.current_process_id == 0,
            m.is_from_kernel,
    {
        ProcessManager { tasks: PriorityQueue::new(), current_process_id: 0, is_from_kernel: true }
    }

    /// Clears the run queue.
    pub fn init(&mut self)
        ensures
            final(self).tasks.wf(),
            final(self).tasks.view().len() == 0,
    {
        self.tasks.init();
    }

    /// Queues `process` under its priority class.
    pub fn add_process(&mut self, process: Process)
        requires
            old(self).tasks.wf(),
        ensures
            final(self).tasks.wf(),
            final(self).tasks.view().len() == old(self).tasks.view().len() + 1,
    {
        let converted = ProcessPriority::convert(process.priority);
        self.tasks.enqueue(process, converted);
    }

    /// Number of queued processes.
    pub fn len(&self) -> (n: usize)
        ensures
            n == self.tasks.view().len(),
    {
        self.tasks.len()
    }

    /// Takes the next process off the queue: the one with the smallest
    /// priority value.
    pub fn get_current_process(&mut self) -> (r: Option<Process>)
        requires
            old(self).tasks.wf(),
        ensures
            final(self).tasks.wf(),
            old(self).tasks.view().len() == 0 ==> r is None,
            old(self).tasks.view().len() > 0 ==> {
                &&& r matches Some(p)
                &&& p == old(self).tasks.view()[0].value
                &&& final(self).tasks.view().len() == old(self).tasks.view().len() - 1
            },
    {
        self.tasks.dequeue()
    }

    /// Drops the process at the head of the queue, as terminating the
    /// current process does.
    pub fn remove_process(&mut self)
        requires
            old(self).tasks.wf(),
        ensures
            final(self).tasks.wf(),
            old(self).tasks.view().len() > 0 ==> final(self).tasks.view().len() == old(
                self,
            ).tasks.view().len() - 1,
            old(self).tasks.view().len() == 0 ==> final(self).tasks.view().len() == 0,
    {
        let removed = self.tasks.dequeue();
        proof {
            if removed is None {
            }
            if old(self).tasks.view().len() == 0 {
                assert(self.tasks.view() == old(self).tasks.view());
            }
        }
    }

    /// Picks the stack pointer to run next: a queued process when one
    /// exists and the caller came from a process, else the caller's own.
    /// The first switch out of kernel context keeps the kernel stack.
    pub fn switch_process(&mut self, old_rsp: usize) -> (rsp: usize)
        requires
            old(self).tasks.wf(),
        ensures
            final(self).tasks.wf(),
            final(self).tasks.view().len() == 0 ==> rsp == old_rsp,
    {
        if self.is_from_kernel {
            self.is_from_kernel = false;
        } else {
            match self.tasks.dequeue() {
                Some(mut process) => {
                    if !matches_terminated(&process) {
                        process.rsp = old_rsp;
                        let converted = ProcessPriority::convert(process.priority);
                        self.tasks.enqueue(process, converted);
                    }
                }
                None => {}
            }
        }
        if self.tasks.is_empty() {
            self.is_from_kernel = true;
            old_rsp
        } else {
            match self.tasks.dequeue() {
                Some(next) => {
                    let converted = ProcessPriority::convert(next.priority);
                    let rsp = next.rsp;
                    self.tasks.enqueue(next, converted);
                    rsp
                }
                None => old_rsp,
            }
        }
    }
}

/// Whether a process has been marked terminated.
fn matches_terminated(p: &Process) -> (r: bool)
    ensures
        r == (p.state == ProcessState::Terminated),
{
    match p.state {
        ProcessState::Terminated => true,
        _ => false,
    }
}

} // verus!
