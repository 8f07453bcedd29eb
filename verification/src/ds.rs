//! The kernel's own collection types.

pub mod dynarray;
pub mod hashmap;
pub mod list;
pub mod queue;
pub mod stack;
pub mod tree;
