//! The virtual filesystem's view of files: open-file records and the
//! mount bookkeeping.  Walking the on-disk directory tree reads raw disk
//! clusters through the cluster arithmetic of the filesystem module.

use vstd::prelude::*;

use crate::ds::tree::TreeNode;

verus! {

/// What a directory entry is.
#[derive(Clone, Copy, Debug, PartialEq, Eq, Structural)]
pub enum FileType {
    File,
    Directory,
    Syslink,
}

/// One open file: its name, size, read offset and where its data starts.
pub struct File {
    pub name: Vec<u8>,
    pub size: usize,
    pub flags: usize,
    pub id: usize,
    pub offset: usize,
    pub current_cluster: usize,
    pub f_type: FileType,
}

impl File {
    /// An open-file record at offset zero.
    pub fn new(name: Vec<u8>, size: usize, f_type: FileType, current_cluster: usize) -> (f: File)
        ensures
            f.name@ == name@,
            f.size == size,
            f.f_type == f_type,
            f.current_cluster == current_cluster,
            f.get_offset_spec() == 0,
            f.flags == 0,
            f.id == 0,
    {
        File { name, size, flags: 0, id: 0, offset: 0, current_cluster, f_type }
    }

    /// The current read offset, for specification.
    pub closed spec fn get_offset_spec(&self) -> int {
        self.offset as int
    }

    /// The current read offset.
    pub fn get_offset(&self) -> (o: usize)
        ensures
            o == self.get_offset_spec(),
    {
        self.offset
    }

    /// Moves the read offset.
    pub fn set_offset(&mut self, offset: usize)
        ensures
            final(self).get_offset_spec() == offset,
            final(self).name@ == old(self).name@,
            final(self).size == old(self).size,
            final(self).f_type == old(self).f_type,
            final(self).current_cluster == old(self).current_cluster,
    {
        self.offset = offset;
    }
}

/// The mounted filesystem: where its table, root directory and data
/// region lie, and the tree of known files.
pub struct Vfs {
    pub fat_addr: usize,
    pub rd_addr: usize,
    pub ds_addr: usize,
    pub root: TreeNode<File>,
}

impl Vfs {
    /// An unmounted filesystem.
    pub fn new() -> (v: Vfs)
        ensures
            v.fat_addr == 0,
            v.rd_addr == 0,
            v.ds_addr == 0,
    {
        Vfs {
            fat_addr: 0,
            rd_addr: 0,
            ds_addr: 0,
            root: TreeNode::new_const(File::new(Vec::new(), 0, FileType::Directory, 0)),
        }
    }

    /// Adopts the table, root-directory and data addresses of a freshly
    /// mounted volume and resets the file tree to an empty root.
    pub fn init(&mut self, values: (usize, usize, usize))
        ensures
            final(self).fat_addr == values.0,
            final(self).rd_addr == values.1,
            final(self).ds_addr == values.2,
            final(self).root.children@.len() == 0,
    {
        self.fat_addr = values.0;
        self.rd_addr = values.1;
        self.ds_addr = values.2;
        let mut name: Vec<u8> = Vec::new();
        name.push(114);
        name.push(111);
        name.push(111);
        name.push(116);
        self.root = TreeNode::new(File::new(name, 0, FileType::Directory, 0));
    }
}

} // verus!
