//! Memory-management core of a small bare-metal kernel, together with the
//! surrounding kernel services that build on it.
//!
//! The heart of the crate is the memory subsystem: a page-frame allocator
//! handing out fixed 4096-byte frames, a free-list heap allocator built on
//! top of it, and a four-level page-table mapper.  Physical memory itself is
//! modelled explicitly by [`mem::PhysicalMemory`], so every byte the
//! allocators touch is accounted for in the proofs.

pub mod allocator;
pub mod bitwise;
pub mod ds;
pub mod event;
pub mod fat;
pub mod gdt;
pub mod grub;
pub mod idt;
pub mod keyboard;
pub mod mem;
pub mod mouse;
pub mod multiboot2;
pub mod output;
pub mod page_frame_allocator;
pub mod paging;
pub mod pic;
pub mod pit;
pub mod process;
pub mod process_manager;
pub mod ps2;
pub mod psf;
pub mod rect;
pub mod rtc;
pub mod spinlock;
pub mod strutil;
pub mod tga;
pub mod vfs;
pub mod window;
pub mod wm;
pub mod wrapping_zero;
