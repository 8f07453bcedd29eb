//! FAT16 filesystem arithmetic and table access, over an in-memory copy
//! of the disk: cluster chains, free-cluster search and the boot-sector
//! checks.

use vstd::prelude::*;

verus! {

/// Bytes per disk sector.
pub const BYTES_PER_SECTOR: usize = 512;

/// Bytes per cluster of this volume layout.
pub const BYTES_PER_CLUSTER: usize = 2048;

/// Bytes of one file allocation table.
pub const BYTES_PER_FAT: usize = 10240;

/// The boot sector's BIOS parameter block.
#[derive(Clone, Copy, Debug, PartialEq, Eq)]
pub struct BiosParameterBlock {
    pub jmp: (u8, u8, u8),
    pub bytes_per_sector: u16,
    pub sectors_per_cluster: u8,
    pub reserved_sector_count: u16,
    pub table_count: u8,
    pub root_entry_count: u16,
    pub sector_count_16: u16,
    pub media_type: u8,
    pub table_size_16: u16,
    pub sectors_per_track: u16,
    pub head_count: u16,
    pub hidden_sector_count: u32,
    pub large_sector_count: u32,
}

impl BiosParameterBlock {
    /// Whether the block describes a volume this driver accepts: the boot
    /// jump sequence, 512-byte sectors, four sectors per cluster, two
    /// tables of twenty sectors, and no large sector count.
    pub fn verify(&self) -> (r: bool)
        ensures
            r == (self.jmp == (0xebu8, 0x3cu8, 0x90u8) && self.bytes_per_sector == 512
                && self.sectors_per_cluster == 4 && self.table_count == 2 && self.table_size_16
                == 20 && self.large_sector_count == 0),
    {
        self.jmp.0 == 0xeb && self.jmp.1 == 0x3c && self.jmp.2 == 0x90 && self.bytes_per_sector
            == 512 && self.sectors_per_cluster == 4 && self.table_count == 2 && self.table_size_16
            == 20 && self.large_sector_count == 0
    }
}

/// The extended boot record following the parameter block.
#[derive(Clone, Copy, Debug, PartialEq, Eq, Structural)]
pub struct ExtendedBootRecord {
    pub drive_number: u8,
    pub nt_flags: u8,
    pub signature: u8,
    pub serial: u32,
    pub bootable_partition_signature: u16,
}

impl ExtendedBootRecord {
    /// Whether the record carries a valid signature pair.
    pub fn verify(&self) -> (r: bool)
        ensures
            r == ((self.signature == 0x29 || self.signature == 0x28)
                && self.bootable_partition_signature == 0xaa55),
    {
        (self.signature == 0x29 || self.signature == 0x28) && self.bootable_partition_signature
            == 0xaa55
    }
}

/// One 32-byte directory entry.
#[derive(Clone, Copy, Debug, PartialEq, Eq)]
pub struct FileEntry {
    pub filename: (u8, u8, u8, u8, u8, u8, u8, u8),
    pub ext: (u8, u8, u8),
    pub attributes: u8,
    pub cluster_high: u16,
    pub time: u16,
    pub date: u16,
    pub cluster_low: u16,
    pub size: u32,
}

impl FileEntry {
    /// An all-zero entry, as written for a fresh file slot.
    pub fn new() -> (e: FileEntry)
        ensures
            e.attributes == 0,
            e.cluster_low == 0,
            e.size == 0,
    {
        FileEntry {
            filename: (0, 0, 0, 0, 0, 0, 0, 0),
            ext: (0, 0, 0),
            attributes: 0,
            cluster_high: 0,
            time: 0,
            date: 0,
            cluster_low: 0,
            size: 0,
        }
    }
}

/// A long-file-name directory entry's fixed fields.
#[derive(Clone, Copy, Debug, PartialEq, Eq, Structural)]
pub struct LongFileEntry {
    pub order: u8,
    pub attribute: u8,
    pub long_entry_type: u8,
    pub checksum: u8,
    pub zero: u16,
}

/// Why a table access failed.
#[derive(Clone, Copy, Debug, PartialEq, Eq, Structural)]
pub enum FatError {
    /// A chain pointed at a cluster recorded as empty.
    EmptyCluster,
    /// A chain pointed at a cluster marked bad.
    BadCluster,
}

/// Bytes a number of sectors cover.
pub fn convert_sector_to_bytes(sector: usize) -> (r: usize)
    requires
        sector * BYTES_PER_SECTOR <= usize::MAX,
    ensures
        r == sector * BYTES_PER_SECTOR,
{
    sector * BYTES_PER_SECTOR
}

/// Address of a cluster's data, four sectors per cluster from the data
/// region at `sector_addr`.
pub fn get_sector_from_cluster(sector_addr: usize, cluster_num: usize) -> (r: usize)
    requires
        cluster_num >= 2,
        (cluster_num - 2) * 4 + sector_addr <= usize::MAX,
    ensures
        r == (cluster_num - 2) * 4 + sector_addr,
{
    (cluster_num - 2) * 4 + sector_addr
}

/// The 16-bit table value at byte offset `fat_offset`.
pub fn read_fat(fat: &Vec<u8>, fat_offset: usize) -> (r: Option<u16>)
    ensures
        fat_offset + 2 <= fat@.len() ==> r == Some(
            ((fat@[fat_offset as int] as u16) | ((fat@[fat_offset as int + 1] as u16) << 8)) as u16,
        ),
        fat_offset + 2 > fat@.len() ==> r is None,
{
    if fat.len() >= 2 && fat_offset <= fat.len() - 2 {
        Some((fat[fat_offset] as u16) | ((fat[fat_offset + 1] as u16) << 8))
    } else {
        None
    }
}

/// The cluster following `active_cluster` in its chain: `Ok(None)` at the
/// end of the chain, and an error for an empty or bad table value — a
/// corrupted chain, fatal for the caller.
pub fn get_next_cluster(fat: &Vec<u8>, active_cluster: usize) -> (r: Result<
    Option<usize>,
    FatError,
>)
    requires
        active_cluster * 2 + 2 <= fat@.len(),
    ensures
        ({
            let v = (fat@[active_cluster as int * 2] as u16) | ((fat@[active_cluster as int * 2
                + 1] as u16) << 8);
            match r {
                Ok(None) => 0xfff8 <= v <= 0xffff,
                Ok(Some(c)) => c == v && v != 0 && v != 0xfff7 && !(0xfff8 <= v <= 0xffff),
                Err(FatError::EmptyCluster) => v == 0,
                Err(FatError::BadCluster) => v == 0xfff7,
            }
        }),
{
    let table_len = fat.len();
    proof {
        // The table's length bounds the cluster arithmetic.
        assert(active_cluster * 2 + 2 <= table_len);
    }
    let v = match read_fat(fat, active_cluster * 2) {
        Some(v) => v,
        None => {
            proof {
                assert(false);
            }
            return Err(FatError::EmptyCluster);
        }
    };
    if v == 0 {
        Err(FatError::EmptyCluster)
    } else if v == 0xfff7 {
        Err(FatError::BadCluster)
    } else if v >= 0xfff8 {
        Ok(None)
    } else {
        Ok(Some(v as usize))
    }
}

/// Records `next_cluster` as the successor of `cluster` in the table.
pub fn write_fat(fat: &mut Vec<u8>, cluster: usize, next_cluster: usize)
    requires
        cluster * 2 + 2 <= old(fat)@.len(),
    ensures
        final(fat)@.len() == old(fat)@.len(),
        final(fat)@[cluster as int * 2] == (next_cluster % 256) as u8,
        final(fat)@[cluster as int * 2 + 1] == ((next_cluster / 256) % 256) as u8,
        forall|i: int|
            0 <= i < old(fat)@.len() && i != cluster as int * 2 && i != cluster as int * 2 + 1
                ==> final(fat)@[i] == old(fat)@[i],
{
    let table_len = fat.len();
    proof {
        // The table's length bounds the cluster arithmetic.
        assert(cluster * 2 + 2 <= table_len);
    }
    let lo = (next_cluster % 256) as u8;
    let hi = ((next_cluster / 256) % 256) as u8;
    fat.set(cluster * 2, lo);
    fat.set(cluster * 2 + 1, hi);
}

/// The first cluster whose table value is zero, claimed by marking it as
/// end of chain; `None` when the table has no free cluster.
pub fn find_free_cluster(fat: &mut Vec<u8>) -> (r: Option<usize>)
    ensures
        final(fat)@.len() == old(fat)@.len(),
        r matches Some(i) ==> i * 2 + 2 <= old(fat)@.len() && old(fat)@[i as int * 2] == 0
            && old(fat)@[i as int * 2 + 1] == 0 && final(fat)@[i as int * 2] == 0xff
            && final(fat)@[i as int * 2 + 1] == 0xff,
        r is None ==> final(fat)@ == old(fat)@,
{
    let mut i: usize = 0;
    let limit = BYTES_PER_FAT / 2;
    while i < limit
        invariant
            i <= limit,
            limit == BYTES_PER_FAT / 2,
            fat@ == old(fat)@,
        decreases limit - i,
    {
        if i * 2 + 2 <= fat.len() {
            if fat[i * 2] == 0 && fat[i * 2 + 1] == 0 {
                fat.set(i * 2, 0xff);
                fat.set(i * 2 + 1, 0xff);
                return Some(i);
            }
        }
        i = i + 1;
    }
    None
}

/// Where the table, root directory and data region of a volume described
/// by `bpb` lie, as byte addresses from `start_addr`.
pub fn init(start_addr: usize, bpb: &BiosParameterBlock) -> (r: (usize, usize, usize))
    requires
        bpb.verify_spec(),
        start_addr + 0x800_0000 <= usize::MAX,
    ensures
        r.0 == start_addr + bpb.reserved_sector_count * BYTES_PER_SECTOR,
        r.1 == start_addr + (bpb.reserved_sector_count + bpb.table_count * bpb.table_size_16)
            * BYTES_PER_SECTOR,
{
    let fat_addr = start_addr + convert_sector_to_bytes(bpb.reserved_sector_count as usize);
    let rd_sector_num = (bpb.reserved_sector_count as usize) + (bpb.table_count as usize) * (
    bpb.table_size_16 as usize);
    let rd_addr = start_addr + convert_sector_to_bytes(rd_sector_num);
    let rd_size = (((bpb.root_entry_count as usize) * 32) + (bpb.bytes_per_sector as usize - 1))
        / (bpb.bytes_per_sector as usize);
    let ds_addr = convert_sector_to_bytes(rd_size) + rd_addr;
    (fat_addr, rd_addr, ds_addr)
}

impl BiosParameterBlock {
    /// What [`Self::verify`] accepts, for specification.
    pub open spec fn verify_spec(&self) -> bool {
        self.jmp == (0xebu8, 0x3cu8, 0x90u8) && self.bytes_per_sector == 512
            && self.sectors_per_cluster == 4 && self.table_count == 2 && self.table_size_16 == 20
            && self.large_sector_count == 0
    }
}

} // verus!
