//! The fixed on-disk layout: little-endian integers and the boot sector.

use vstd::prelude::*;

verus! {

/// Length of the boot sector in bytes.
pub const BOOT_SECTOR_LEN: usize = 512;

/// Length of one directory record in bytes.
pub const DIR_RECORD_LEN: usize = 32;

/// The masked table values from this one upwards end a cluster chain.
pub const END_OF_CHAIN: u32 = 0x0FFF_FFF8;

/// The bits of a table entry that carry a cluster number.
pub const CLUSTER_MASK: u32 = 0x0FFF_FFFF;

/// The longest cluster chain that is ever followed.
pub const MAX_CHAIN_LEN: usize = 4096;

/// The 16-bit little-endian number stored in `s` at offset `at`.
pub open spec fn spec_le_u16(s: Seq<u8>, at: int) -> int {
    s[at] + 0x100 * s[at + 1]
}

/// The 32-bit little-endian number stored in `s` at offset `at`.
pub open spec fn spec_le_u32(s: Seq<u8>, at: int) -> int {
    s[at] + 0x100 * s[at + 1] + 0x1_0000 * s[at + 2] + 0x100_0000 * s[at + 3]
}

/// Reads the 16-bit little-endian number at offset `at`.
pub fn le_u16(bytes: &[u8], at: usize) -> (r: u16)
    requires
        at + 2 <= bytes@.len(),
    ensures
        r == spec_le_u16(bytes@, at as int),
{
    let lo: u16 = bytes[at] as u16;
    let hi: u16 = bytes[at + 1] as u16;
    lo + 0x100 * hi
}

/// Reads the 32-bit little-endian number at offset `at`.
pub fn le_u32(bytes: &[u8], at: usize) -> (r: u32)
    requires
        at + 4 <= bytes@.len(),
    ensures
        r == spec_le_u32(bytes@, at as int),
{
    let b0: u32 = bytes[at] as u32;
    let b1: u32 = bytes[at + 1] as u32;
    let b2: u32 = bytes[at + 2] as u32;
    let b3: u32 = bytes[at + 3] as u32;
    b0 + 0x100 * b1 + 0x1_0000 * b2 + 0x100_0000 * b3
}

/// The static geometry of a volume, as its boot sector declares it.
pub struct Geometry {
    pub bytes_per_sector: u16,
    pub sectors_per_cluster: u8,
    pub reserved_sectors: u16,
    pub num_fats: u8,
    pub sectors_per_fat: u32,
    pub root_cluster: u32,
}

impl Geometry {
    /// Bytes in one cluster.
    pub open spec fn cluster_size(self) -> int {
        self.bytes_per_sector * self.sectors_per_cluster
    }

    /// Byte offset at which the first allocation table starts.
    pub open spec fn fat_start(self) -> int {
        self.reserved_sectors * self.bytes_per_sector
    }

    /// Byte offset at which the data region, and with it cluster 2, starts.
    pub open spec fn data_start(self) -> int {
        self.fat_start() + self.num_fats * self.sectors_per_fat * self.bytes_per_sector
    }
}

/// The geometry that the boot sector at the start of `disk` declares.
pub open spec fn spec_decode_geometry(disk: Seq<u8>) -> Geometry {
    Geometry {
        bytes_per_sector: spec_le_u16(disk, 11) as u16,
        sectors_per_cluster: disk[13],
        reserved_sectors: spec_le_u16(disk, 14) as u16,
        num_fats: disk[16],
        sectors_per_fat: spec_le_u32(disk, 36) as u32,
        root_cluster: spec_le_u32(disk, 44) as u32,
    }
}

} // verus!
