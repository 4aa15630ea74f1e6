//! The volume view: a borrowed image, its geometry, and the operations that
//! read it.

use vstd::prelude::*;
use crate::dir_entry::{spec_entry_views, DirEntry, DirEntryView};
use crate::error::FatError;
use crate::layout::{
    le_u16, le_u32, spec_decode_geometry, BOOT_SECTOR_LEN, CLUSTER_MASK, DIR_RECORD_LEN,
    END_OF_CHAIN, MAX_CHAIN_LEN,
};
use crate::model::{spec_find_entry, spec_records, spec_volume, Volume};
use crate::path::{path_segments, spec_segments, SEPARATOR};
use crate::text::{same_text, spec_string_views, spec_upper, starts_with_char, upper};

verus! {

/// A read-only view of a FAT32 volume held in a buffer. The view borrows the
/// buffer and never copies it; the geometry is decoded once, when the view is
/// made.
pub struct Fat32<'a> {
    disk: &'a [u8],
    bytes_per_sector: u16,
    sectors_per_cluster: u8,
    reserved_sectors: u16,
    num_fats: u8,
    sectors_per_fat: u32,
    root_cluster: u32,
}

impl<'a> View for Fat32<'a> {
    type V = Volume;

    /// The volume that the borrowed image is.
    open spec fn view(&self) -> Volume {
        spec_volume(self.image())
    }
}

impl<'a> Fat32<'a> {
    /// The stored geometry is the one that the image's boot sector declares,
    /// and that boot sector counts at least one sector per table.
    #[verifier::type_invariant]
    spec fn inv(&self) -> bool {
        &&& self.disk@.len() >= BOOT_SECTOR_LEN
        &&& self.bytes_per_sector == spec_decode_geometry(self.disk@).bytes_per_sector
        &&& self.sectors_per_cluster == spec_decode_geometry(self.disk@).sectors_per_cluster
        &&& self.reserved_sectors == spec_decode_geometry(self.disk@).reserved_sectors
        &&& self.num_fats == spec_decode_geometry(self.disk@).num_fats
        &&& self.sectors_per_fat == spec_decode_geometry(self.disk@).sectors_per_fat
        &&& self.root_cluster == spec_decode_geometry(self.disk@).root_cluster
        &&& self.sectors_per_fat > 0
    }

    /// The bytes of the borrowed image.
    pub closed spec fn image(&self) -> Seq<u8> {
        self.disk@
    }

    /// Makes a view of the volume in `disk`. This succeeds on every buffer
    /// that holds a whole boot sector with a sectors-per-table count other
    /// than zero.
    pub fn new(disk: &'a [u8]) -> (r: Result<Self, FatError>)
        ensures
            disk@.len() < 512 ==> r matches Err(FatError::BufferTooSmall),
            disk@.len() >= 512 && spec_decode_geometry(disk@).sectors_per_fat == 0 ==> r matches Err(
                FatError::NotFat32,
            ),
            disk@.len() >= 512 && spec_decode_geometry(disk@).sectors_per_fat != 0 ==> r is Ok,
            r matches Ok(fs) ==> fs.image() == disk@ && fs@.disk == disk@ && fs@.geom
                == spec_decode_geometry(disk@),
    {
        if disk.len() < BOOT_SECTOR_LEN {
            return Err(FatError::BufferTooSmall);
        }
        let bytes_per_sector = le_u16(disk, 11);
        let sectors_per_cluster = disk[13];
        let reserved_sectors = le_u16(disk, 14);
        let num_fats = disk[16];
        let sectors_per_fat = le_u32(disk, 36);
        let root_cluster = le_u32(disk, 44);

        if sectors_per_fat == 0 {
            return Err(FatError::NotFat32);
        }
        Ok(
            Self {
                disk,
                bytes_per_sector,
                sectors_per_cluster,
                reserved_sectors,
                num_fats,
                sectors_per_fat,
                root_cluster,
            },
        )
    }

    /// Bytes in one sector.
    pub fn bytes_per_sector(&self) -> (r: usize)
        ensures
            r == self@.geom.bytes_per_sector,
    {
        proof {
            use_type_invariant(self);
        }
        self.bytes_per_sector as usize
    }

    /// Sectors in one cluster.
    pub fn sectors_per_cluster(&self) -> (r: u8)
        ensures
            r == self@.geom.sectors_per_cluster,
    {
        proof {
            use_type_invariant(self);
        }
        self.sectors_per_cluster
    }

    /// Sectors before the first allocation table.
    pub fn reserved_sectors(&self) -> (r: u16)
        ensures
            r == self@.geom.reserved_sectors,
    {
        proof {
            use_type_invariant(self);
        }
        self.reserved_sectors
    }

    /// Number of allocation tables.
    pub fn num_fats(&self) -> (r: u8)
        ensures
            r == self@.geom.num_fats,
    {
        proof {
            use_type_invariant(self);
        }
        self.num_fats
    }

    /// Sectors in one allocation table; never zero.
    pub fn sectors_per_fat(&self) -> (r: u32)
        ensures
            r == self@.geom.sectors_per_fat,
            r > 0,
    {
        proof {
            use_type_invariant(self);
        }
        self.sectors_per_fat
    }

    /// The cluster at which the root directory starts.
    pub fn root_cluster(&self) -> (r: u32)
        ensures
            r == self@.geom.root_cluster,
    {
        proof {
            use_type_invariant(self);
        }
        self.root_cluster
    }

    /// Bytes in one cluster.
    pub fn cluster_size(&self) -> (r: usize)
        ensures
            r == self@.geom.cluster_size(),
            r <= 0xFFFF * 0xFF,
    {
        proof {
            use_type_invariant(self);
            assert(self.bytes_per_sector * self.sectors_per_cluster <= 0xFFFF * 0xFF)
                by (nonlinear_arith)
                requires
                    self.bytes_per_sector <= 0xFFFF,
                    self.sectors_per_cluster <= 0xFF,
            ;
        }
        self.bytes_per_sector() * self.sectors_per_cluster as usize
    }

    /// Byte offset of the first allocation table.
    pub fn fat_start_byte(&self) -> (r: usize)
        ensures
            r == self@.geom.fat_start(),
            r <= 0xFFFF * 0xFFFF,
    {
        proof {
            use_type_invariant(self);
            assert(self.reserved_sectors * self.bytes_per_sector <= 0xFFFF * 0xFFFF)
                by (nonlinear_arith)
                requires
                    self.bytes_per_sector <= 0xFFFF,
                    self.reserved_sectors <= 0xFFFF,
            ;
        }
        self.reserved_sectors as usize * self.bytes_per_sector()
    }

    /// Byte offset of the data region. It may lie beyond what a `usize`
    /// holds, so it is given as a `u64`.
    pub fn data_start_byte(&self) -> (r: u64)
        ensures
            r == self@.geom.data_start(),
            r <= 0xFFFF * 0xFFFF + 0xFF * 0xFFFF_FFFF * 0xFFFF,
    {
        proof {
            use_type_invariant(self);
            assert(self.num_fats * self.sectors_per_fat <= 0xFF * 0xFFFF_FFFF) by (nonlinear_arith)
                requires
                    self.num_fats <= 0xFF,
                    self.sectors_per_fat <= 0xFFFF_FFFF,
            ;
            assert(self.num_fats * self.sectors_per_fat * self.bytes_per_sector <= 0xFF
                * 0xFFFF_FFFF * 0xFFFF) by (nonlinear_arith)
                requires
                    0 <= self.num_fats * self.sectors_per_fat <= 0xFF * 0xFFFF_FFFF,
                    self.bytes_per_sector <= 0xFFFF,
            ;
        }
        let tables: u64 = self.num_fats as u64 * self.sectors_per_fat as u64;
        self.fat_start_byte() as u64 + tables * self.bytes_per_sector as u64
    }

    /// Byte offset of the data of `cluster`. A cluster below 2 is invalid;
    /// one that does not lie inside the image as a whole is out of bounds.
    pub fn cluster_to_offset(&self, cluster: u32) -> (r: Result<usize, FatError>)
        ensures
            match r {
                Ok(offset) => self@.cluster_offset(cluster) == Ok::<int, FatError>(offset as int),
                Err(e) => self@.cluster_offset(cluster) == Err::<int, FatError>(e),
            },
            cluster < 2 ==> r matches Err(FatError::InvalidCluster),
            r matches Ok(offset) ==> offset + self@.geom.cluster_size() <= self@.disk.len()
                <= usize::MAX,
    {
        if cluster < 2 {
            return Err(FatError::InvalidCluster);
        }
        let index: u64 = (cluster - 2) as u64;
        let size: u64 = self.cluster_size() as u64;
        proof {
            assert(index * size <= 0xFFFF_FFFF * (0xFFFF * 0xFF)) by (nonlinear_arith)
                requires
                    index <= 0xFFFF_FFFF,
                    size <= 0xFFFF * 0xFF,
            ;
        }
        let offset: u64 = self.data_start_byte() + index * size;
        let len = self.disk.len();
        if offset + size > len as u64 {
            return Err(FatError::OutOfBounds);
        }
        Ok(offset as usize)
    }

    /// The bytes of `cluster`, borrowed from the image.
    pub fn read_cluster(&self, cluster: u32) -> (r: Result<&'a [u8], FatError>)
        ensures
            match r {
                Ok(data) => self@.cluster_data(cluster) == Ok::<Seq<u8>, FatError>(data@),
                Err(e) => self@.cluster_data(cluster) == Err::<Seq<u8>, FatError>(e),
            },
            r matches Ok(data) ==> data@.len() == self@.geom.cluster_size(),
    {
        let offset = self.cluster_to_offset(cluster)?;
        let end = offset + self.cluster_size();
        Ok(&self.disk[offset..end])
    }

    /// The allocation table's entry for `cluster`, masked to its 28 bits.
    pub fn read_fat_entry(&self, cluster: u32) -> (r: Result<u32, FatError>)
        ensures
            match r {
                Ok(next) => self@.fat_entry(cluster) == Ok::<u32, FatError>(next),
                Err(e) => self@.fat_entry(cluster) == Err::<u32, FatError>(e),
            },
    {
        let at: u64 = self.fat_start_byte() as u64 + 4 * (cluster as u64);
        if at + 4 > self.disk.len() as u64 {
            return Err(FatError::OutOfBounds);
        }
        let val = le_u32(self.disk, at as usize);
        Ok(val & CLUSTER_MASK)
    }

    /// Follows the cluster chain from `start_cluster`, for at most
    /// `max_clusters` clusters. A chain that is longer, or that runs in a
    /// circle, is cut off there without an error.
    pub fn follow_chain(&self, start_cluster: u32, max_clusters: usize) -> (r: Result<
        Vec<u32>,
        FatError,
    >)
        ensures
            match r {
                Ok(chain) => self@.chain(start_cluster, max_clusters as nat) == Ok::<
                    Seq<u32>,
                    FatError,
                >(chain@),
                Err(e) => self@.chain(start_cluster, max_clusters as nat) == Err::<
                    Seq<u32>,
                    FatError,
                >(e),
            },
            r matches Ok(chain) ==> chain@.len() <= max_clusters,
            max_clusters > 0 && start_cluster < 2 ==> r matches Err(FatError::InvalidCluster),
    {
        let mut result: Vec<u32> = Vec::new();
        let mut current = start_cluster;
        let mut count: usize = 0;
        let ghost vol = self@;
        let ghost whole = vol.chain(start_cluster, max_clusters as nat);
        while count < max_clusters
            invariant_except_break
                result@.len() == count,
                match vol.chain(current, (max_clusters - count) as nat) {
                    Ok(rest) => whole == Ok::<Seq<u32>, FatError>(result@ + rest),
                    Err(e) => whole == Err::<Seq<u32>, FatError>(e),
                },
            invariant
                count <= max_clusters,
                vol == self@,
                whole == vol.chain(start_cluster, max_clusters as nat),
            ensures
                whole == Ok::<Seq<u32>, FatError>(result@),
                result@.len() <= max_clusters,
            decreases max_clusters - count,
        {
            if current < 2 {
                return Err(FatError::InvalidCluster);
            }
            let ghost before = result@;
            result.push(current);
            let next = self.read_fat_entry(current)?;
            if next >= END_OF_CHAIN {
                assert(before + seq![current] =~= result@);
                break;
            }
            proof {
                if let Ok(rest) = vol.chain(next, (max_clusters - count - 1) as nat) {
                    assert(before + (seq![current] + rest) =~= result@ + rest);
                }
            }
            current = next;
            count += 1;
        }
        Ok(result)
    }

    /// Lists the directory whose cluster chain starts at `start_cluster`:
    /// every entry that its records decode to, in chain order and within a
    /// cluster in slot order.
    pub fn list_dir_cluster(&self, start_cluster: u32) -> (r: Result<Vec<DirEntry>, FatError>)
        ensures
            match r {
                Ok(entries) => self@.list_dir(start_cluster) == Ok::<Seq<DirEntryView>, FatError>(
                    spec_entry_views(entries@),
                ),
                Err(e) => self@.list_dir(start_cluster) == Err::<Seq<DirEntryView>, FatError>(e),
            },
    {
        let mut entries: Vec<DirEntry> = Vec::new();
        let chain = self.follow_chain(start_cluster, MAX_CHAIN_LEN)?;
        let ghost vol = self@;
        let ghost whole = vol.list_clusters(chain@);
        let mut i: usize = 0;
        assert(chain@.skip(0) =~= chain@);
        while i < chain.len()
            invariant
                i <= chain@.len(),
                vol == self@,
                whole == vol.list_dir(start_cluster),
                match vol.list_clusters(chain@.skip(i as int)) {
                    Ok(rest) => whole == Ok::<Seq<DirEntryView>, FatError>(
                        spec_entry_views(entries@) + rest,
                    ),
                    Err(e) => whole == Err::<Seq<DirEntryView>, FatError>(e),
                },
            decreases chain@.len() - i,
        {
            let ghost before = spec_entry_views(entries@);
            assert(chain@.skip(i as int).drop_first() =~= chain@.skip(i + 1));
            let data = self.read_cluster(chain[i])?;
            append_records(data, &mut entries);
            proof {
                if let Ok(rest) = vol.list_clusters(chain@.skip(i + 1)) {
                    assert(before + (spec_records(data@) + rest) =~= (before + spec_records(
                        data@,
                    )) + rest);
                }
            }
            i += 1;
        }
        Ok(entries)
    }

    /// A name as names are compared: with its ASCII letters in upper case.
    pub fn normalize_name(s: &str) -> (r: String)
        ensures
            r@ == spec_upper(s@),
    {
        upper(s)
    }

    /// Lists the root directory.
    pub fn list_root(&self) -> (r: Result<Vec<DirEntry>, FatError>)
        ensures
            match r {
                Ok(entries) => self@.list_dir(self@.geom.root_cluster) == Ok::<
                    Seq<DirEntryView>,
                    FatError,
                >(spec_entry_views(entries@)),
                Err(e) => self@.list_dir(self@.geom.root_cluster) == Err::<
                    Seq<DirEntryView>,
                    FatError,
                >(e),
            },
    {
        proof {
            use_type_invariant(self);
        }
        self.list_dir_cluster(self.root_cluster)
    }

    /// Resolves an absolute path to the entry that it names, without reading
    /// what the entry refers to. A path that does not start with `/` is an
    /// error; a path of which some segment names nothing resolves to nothing.
    pub fn open_path(&self, path: &str) -> (r: Result<Option<DirEntry>, FatError>)
        ensures
            match r {
                Ok(found) => self@.open_path(path@) == Ok::<Option<DirEntryView>, FatError>(
                    spec_option_view(found),
                ),
                Err(e) => self@.open_path(path@) == Err::<Option<DirEntryView>, FatError>(e),
            },
            path@.len() == 0 || path@[0] != SEPARATOR ==> r matches Err(FatError::Other),
    {
        if !starts_with_char(path, SEPARATOR) {
            return Err(FatError::Other);
        }
        proof {
            use_type_invariant(self);
        }
        let mut current_cluster = self.root_cluster;
        let mut last_entry: Option<DirEntry> = None;
        let parts = path_segments(path);
        let ghost vol = self@;
        let ghost whole = vol.open_path(path@);
        let ghost segments = spec_segments(path@);
        let mut k: usize = 0;
        assert(segments.skip(0) =~= segments);
        while k < parts.len()
            invariant
                k <= parts@.len(),
                vol == self@,
                segments == spec_string_views(parts@),
                whole == vol.open_path(path@),
                whole == vol.resolve(
                    current_cluster,
                    segments.skip(k as int),
                    spec_option_view(last_entry),
                ),
            decreases parts@.len() - k,
        {
            assert(segments.skip(k as int).drop_first() =~= segments.skip(k + 1));
            let entries = self.list_dir_cluster(current_cluster)?;
            match find_entry(&entries, parts[k].as_str()) {
                Some(e) => {
                    current_cluster = e.first_cluster;
                    last_entry = Some(e);
                },
                None => {
                    return Ok(None);
                },
            }
            k += 1;
        }
        Ok(last_entry)
    }

    /// Lists the directory that an absolute path names; `/` is the root.
    pub fn list_dir_path(&self, path: &str) -> (r: Result<Vec<DirEntry>, FatError>)
        ensures
            match r {
                Ok(entries) => self@.list_dir_path(path@) == Ok::<Seq<DirEntryView>, FatError>(
                    spec_entry_views(entries@),
                ),
                Err(e) => self@.list_dir_path(path@) == Err::<Seq<DirEntryView>, FatError>(e),
            },
            path@ != seq![SEPARATOR] && self@.open_path(path@) == Ok::<
                Option<DirEntryView>,
                FatError,
            >(None) ==> r matches Err(FatError::PathNotFound),
    {
        proof {
            reveal_strlit("/");
            assert("/"@ =~= seq![SEPARATOR]);
        }
        if same_text(path, "/") {
            return self.list_root();
        }
        let entry = match self.open_path(path)? {
            Some(e) => e,
            None => {
                return Err(FatError::PathNotFound);
            },
        };
        if !entry.is_dir() {
            return Err(FatError::NotADirectory);
        }
        self.list_dir_cluster(entry.first_cluster)
    }

    /// Reads the file that an absolute path names. A path that names nothing
    /// gives no content; one that names a directory is an error.
    pub fn read_file_by_path(&self, path: &str) -> (r: Result<Option<Vec<u8>>, FatError>)
        ensures
            match r {
                Ok(Some(content)) => self@.read_file_by_path(path@) == Ok::<
                    Option<Seq<u8>>,
                    FatError,
                >(Some(content@)),
                Ok(None) => self@.read_file_by_path(path@) == Ok::<Option<Seq<u8>>, FatError>(None),
                Err(e) => self@.read_file_by_path(path@) == Err::<Option<Seq<u8>>, FatError>(e),
            },
            self@.open_path(path@) == Ok::<Option<DirEntryView>, FatError>(None) ==> r matches Ok(
                None,
            ),
            self@.open_path(path@) matches Ok(Some(e)) && e.attrs.directory ==> r matches Err(
                FatError::NotAFile,
            ),
    {
        let entry = match self.open_path(path)? {
            Some(e) => e,
            None => {
                return Ok(None);
            },
        };
        if !entry.is_file() {
            return Err(FatError::NotAFile);
        }
        let content = self.read_file(&entry)?;
        Ok(Some(content))
    }

    /// Reads the content of the file that `entry` describes: the first
    /// `entry.size` bytes of its cluster chain, or all the chain holds where
    /// that is less. A directory is an error, whatever else the entry says.
    /// A file of size zero is empty, whatever cluster it names and whatever
    /// the table holds: nothing is followed or read for it.
    pub fn read_file(&self, entry: &DirEntry) -> (r: Result<Vec<u8>, FatError>)
        ensures
            match r {
                Ok(content) => self@.read_file(entry@) == Ok::<Seq<u8>, FatError>(content@),
                Err(e) => self@.read_file(entry@) == Err::<Seq<u8>, FatError>(e),
            },
            entry@.attrs.directory ==> r matches Err(FatError::NotAFile),
            !entry@.attrs.directory && entry@.size == 0 ==> (r matches Ok(content)
                && content@.len() == 0),
            r matches Ok(content) ==> content@.len() <= entry@.size,
    {
        if !entry.is_file() {
            return Err(FatError::NotAFile);
        }
        let mut data: Vec<u8> = Vec::new();
        if entry.size == 0 {
            return Ok(data);
        }
        let cluster_size = self.cluster_size();
        let mut remaining: usize = entry.size as usize;
        let chain = self.follow_chain(entry.first_cluster, MAX_CHAIN_LEN)?;
        let ghost vol = self@;
        let ghost whole = vol.read_file(entry@);
        let mut i: usize = 0;
        assert(chain@.skip(0) =~= chain@);
        while i < chain.len() && remaining > 0
            invariant
                i <= chain@.len(),
                vol == self@,
                cluster_size == vol.geom.cluster_size(),
                whole == vol.read_file(entry@),
                data@.len() + remaining == entry@.size,
                match vol.read_chain(chain@.skip(i as int), remaining as nat) {
                    Ok(rest) => whole == Ok::<Seq<u8>, FatError>(data@ + rest),
                    Err(e) => whole == Err::<Seq<u8>, FatError>(e),
                },
            decreases chain@.len() - i,
        {
            let ghost before = data@;
            assert(chain@.skip(i as int).drop_first() =~= chain@.skip(i + 1));
            let cluster = self.read_cluster(chain[i])?;
            let to_take: usize = if remaining < cluster_size {
                remaining
            } else {
                cluster_size
            };
            data.extend_from_slice(&cluster[0..to_take]);
            proof {
                if let Ok(rest) = vol.read_chain(
                    chain@.skip(i + 1),
                    (remaining - to_take) as nat,
                ) {
                    assert(before + (cluster@.take(to_take as int) + rest) =~= data@ + rest);
                }
            }
            remaining -= to_take;
            i += 1;
        }
        Ok(data)
    }
}

/// Decodes the records of `data` and appends the entries among them to
/// `entries`, in slot order.
pub fn append_records(data: &[u8], entries: &mut Vec<DirEntry>)
    ensures
        spec_entry_views(final(entries)@) == spec_entry_views(old(entries)@) + spec_records(data@),
{
    let ghost before = spec_entry_views(entries@);
    let mut at: usize = 0;
    proof {
        assert(data@.skip(0) =~= data@);
    }
    while data.len() - at >= DIR_RECORD_LEN
        invariant
            at <= data@.len(),
            before == spec_entry_views(old(entries)@),
            before + spec_records(data@) == spec_entry_views(entries@) + spec_records(
                data@.skip(at as int),
            ),
        decreases data@.len() - at,
    {
        let ghost rest = data@.skip(at as int);
        assert(rest.take(32) =~= data@.subrange(at as int, at + 32));
        assert(rest.skip(32) =~= data@.skip(at + 32));
        if let Some(entry) = DirEntry::parse(&data[at..at + DIR_RECORD_LEN]) {
            entries.push(entry);
        }
        at += DIR_RECORD_LEN;
    }
}

/// The view of an entry that may be absent.
pub open spec fn spec_option_view(entry: Option<DirEntry>) -> Option<DirEntryView> {
    match entry {
        Some(e) => Some(e@),
        None => None,
    }
}

/// Finds the first of `entries` whose name is `name`, the case of ASCII
/// letters aside.
pub fn find_entry(entries: &Vec<DirEntry>, name: &str) -> (r: Option<DirEntry>)
    ensures
        spec_option_view(r) == spec_find_entry(spec_entry_views(entries@), name@),
{
    let target = Fat32::normalize_name(name);
    let ghost views = spec_entry_views(entries@);
    let mut i: usize = 0;
    assert(views.skip(0) =~= views);
    while i < entries.len()
        invariant
            i <= entries@.len(),
            views == spec_entry_views(entries@),
            target@ == spec_upper(name@),
            spec_find_entry(views, name@) == spec_find_entry(views.skip(i as int), name@),
        decreases entries@.len() - i,
    {
        assert(views.skip(i as int).drop_first() =~= views.skip(i + 1));
        let candidate = Fat32::normalize_name(entries[i].name.as_str());
        if candidate == target {
            return Some(entries[i].clone());
        }
        i += 1;
    }
    None
}

} // verus!
