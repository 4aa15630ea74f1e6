//! The mathematical model of a volume: what each operation yields, as a
//! function of the bytes and the geometry.

use vstd::prelude::*;
use crate::dir_entry::{spec_parse, DirEntryView};
use crate::error::FatError;
use crate::layout::{
    spec_decode_geometry, spec_le_u32, Geometry, CLUSTER_MASK, END_OF_CHAIN, MAX_CHAIN_LEN,
};
use crate::path::{spec_segments, SEPARATOR};
use crate::text::spec_upper;

verus! {

/// A volume as the contracts see it: the bytes of the image and the geometry
/// by which they are read.
pub struct Volume {
    pub disk: Seq<u8>,
    pub geom: Geometry,
}

/// The volume that an image is, read by the geometry of its own boot sector.
pub open spec fn spec_volume(disk: Seq<u8>) -> Volume {
    Volume { disk, geom: spec_decode_geometry(disk) }
}

/// The entries that the records of `data` decode to, in slot order. The data
/// is walked in strides of 32 bytes; a rest of fewer bytes holds no record.
pub open spec fn spec_records(data: Seq<u8>) -> Seq<DirEntryView>
    decreases data.len(),
{
    if data.len() < 32 {
        Seq::empty()
    } else {
        let head = match spec_parse(data.take(32)) {
            Some(e) => seq![e],
            None => Seq::empty(),
        };
        head + spec_records(data.skip(32))
    }
}

/// Whether two names are the same but for the case of ASCII letters.
pub open spec fn spec_same_name(a: Seq<char>, b: Seq<char>) -> bool {
    spec_upper(a) == spec_upper(b)
}

/// The first of `entries` whose name is `name`, the case of letters aside.
pub open spec fn spec_find_entry(entries: Seq<DirEntryView>, name: Seq<char>) -> Option<
    DirEntryView,
>
    decreases entries.len(),
{
    if entries.len() == 0 {
        None
    } else if spec_same_name(entries[0].name, name) {
        Some(entries[0])
    } else {
        spec_find_entry(entries.drop_first(), name)
    }
}

impl Volume {
    /// Byte offset of the data of `cluster`. Clusters are numbered from 2,
    /// and the cluster must lie inside the image as a whole: one that the end
    /// of the image cuts off is out of bounds.
    pub open spec fn cluster_offset(self, cluster: u32) -> Result<int, FatError> {
        if cluster < 2 {
            Err(FatError::InvalidCluster)
        } else {
            let offset = self.geom.data_start() + (cluster - 2) * self.geom.cluster_size();
            if offset + self.geom.cluster_size() > self.disk.len() {
                Err(FatError::OutOfBounds)
            } else {
                Ok(offset)
            }
        }
    }

    /// The bytes of `cluster`: those from its offset on, as many as a cluster
    /// has.
    pub open spec fn cluster_data(self, cluster: u32) -> Result<Seq<u8>, FatError> {
        match self.cluster_offset(cluster) {
            Err(e) => Err(e),
            Ok(offset) => Ok(self.disk.subrange(offset, offset + self.geom.cluster_size())),
        }
    }

    /// The allocation table's entry for `cluster`: the low 28 bits of the
    /// four bytes that the first table holds for it.
    pub open spec fn fat_entry(self, cluster: u32) -> Result<u32, FatError> {
        let at = self.geom.fat_start() + 4 * cluster;
        if at + 4 > self.disk.len() {
            Err(FatError::OutOfBounds)
        } else {
            Ok((spec_le_u32(self.disk, at) as u32) & CLUSTER_MASK)
        }
    }

    /// The chain of clusters that starts at `start`, cut off after `max`
    /// clusters. Each cluster is followed by the one that its table entry
    /// names, until an entry marks the end of the chain.
    pub open spec fn chain(self, start: u32, max: nat) -> Result<Seq<u32>, FatError>
        decreases max,
    {
        if max == 0 {
            Ok(Seq::empty())
        } else if start < 2 {
            Err(FatError::InvalidCluster)
        } else {
            match self.fat_entry(start) {
                Err(e) => Err(e),
                Ok(next) => {
                    if next >= END_OF_CHAIN {
                        Ok(seq![start])
                    } else {
                        match self.chain(next, (max - 1) as nat) {
                            Err(e) => Err(e),
                            Ok(rest) => Ok(seq![start] + rest),
                        }
                    }
                },
            }
        }
    }

    /// The entries in the clusters of `chain`, in chain order and within a
    /// cluster in slot order.
    pub open spec fn list_clusters(self, chain: Seq<u32>) -> Result<Seq<DirEntryView>, FatError>
        decreases chain.len(),
    {
        if chain.len() == 0 {
            Ok(Seq::empty())
        } else {
            match self.cluster_data(chain[0]) {
                Err(e) => Err(e),
                Ok(data) => match self.list_clusters(chain.drop_first()) {
                    Err(e) => Err(e),
                    Ok(rest) => Ok(spec_records(data) + rest),
                },
            }
        }
    }

    /// The entries of the directory whose chain starts at `start`.
    pub open spec fn list_dir(self, start: u32) -> Result<Seq<DirEntryView>, FatError> {
        match self.chain(start, MAX_CHAIN_LEN as nat) {
            Err(e) => Err(e),
            Ok(chain) => self.list_clusters(chain),
        }
    }

    /// Descends from the directory at `cluster` along `segments`. `last` is
    /// the entry that the segment before matched. A segment that matches no
    /// entry ends the descent with no entry at all.
    pub open spec fn resolve(
        self,
        cluster: u32,
        segments: Seq<Seq<char>>,
        last: Option<DirEntryView>,
    ) -> Result<Option<DirEntryView>, FatError>
        decreases segments.len(),
    {
        if segments.len() == 0 {
            Ok(last)
        } else {
            match self.list_dir(cluster) {
                Err(e) => Err(e),
                Ok(entries) => match spec_find_entry(entries, segments[0]) {
                    None => Ok(None),
                    Some(e) => self.resolve(e.first_cluster, segments.drop_first(), Some(e)),
                },
            }
        }
    }

    /// The entry that an absolute path names, if it names one.
    pub open spec fn open_path(self, path: Seq<char>) -> Result<Option<DirEntryView>, FatError> {
        if path.len() == 0 || path[0] != SEPARATOR {
            Err(FatError::Other)
        } else {
            self.resolve(self.geom.root_cluster, spec_segments(path), None)
        }
    }

    /// The entries of the directory that an absolute path names.
    pub open spec fn list_dir_path(self, path: Seq<char>) -> Result<Seq<DirEntryView>, FatError> {
        if path == seq![SEPARATOR] {
            self.list_dir(self.geom.root_cluster)
        } else {
            match self.open_path(path) {
                Err(e) => Err(e),
                Ok(None) => Err(FatError::PathNotFound),
                Ok(Some(e)) => {
                    if !e.attrs.directory {
                        Err(FatError::NotADirectory)
                    } else {
                        self.list_dir(e.first_cluster)
                    }
                },
            }
        }
    }

    /// The first `remaining` bytes of the clusters of `chain`, or all their
    /// bytes where they hold fewer. The clusters are read in order, and none
    /// is read once nothing remains to be read.
    pub open spec fn read_chain(self, chain: Seq<u32>, remaining: nat) -> Result<
        Seq<u8>,
        FatError,
    >
        decreases chain.len(),
    {
        if remaining == 0 || chain.len() == 0 {
            Ok(Seq::empty())
        } else {
            match self.cluster_data(chain[0]) {
                Err(e) => Err(e),
                Ok(data) => {
                    let n = if remaining <= data.len() {
                        remaining
                    } else {
                        data.len()
                    };
                    match self.read_chain(chain.drop_first(), (remaining - n) as nat) {
                        Err(e) => Err(e),
                        Ok(rest) => Ok(data.take(n as int) + rest),
                    }
                },
            }
        }
    }

    /// The content of the file that `entry` describes. A file of size zero
    /// has no content, whatever cluster it names and whatever the table
    /// holds: no chain is followed for it.
    pub open spec fn read_file(self, entry: DirEntryView) -> Result<Seq<u8>, FatError> {
        if entry.attrs.directory {
            Err(FatError::NotAFile)
        } else if entry.size == 0 {
            Ok(Seq::empty())
        } else {
            match self.chain(entry.first_cluster, MAX_CHAIN_LEN as nat) {
                Err(e) => Err(e),
                Ok(chain) => self.read_chain(chain, entry.size as nat),
            }
        }
    }

    /// The content of the file that an absolute path names, if it names
    /// anything.
    pub open spec fn read_file_by_path(self, path: Seq<char>) -> Result<Option<Seq<u8>>, FatError> {
        match self.open_path(path) {
            Err(e) => Err(e),
            Ok(None) => Ok(None),
            Ok(Some(e)) => match self.read_file(e) {
                Err(e) => Err(e),
                Ok(content) => Ok(Some(content)),
            },
        }
    }
}

/// A chain is never longer than its cap, starts at the cluster it was asked
/// for, holds data clusters only, and each of its clusters is followed by the
/// one that the table names for it.
pub proof fn lemma_chain_shape(vol: Volume, start: u32, max: nat)
    ensures
        vol.chain(start, max) matches Ok(chain) ==> {
            &&& chain.len() <= max
            &&& max > 0 ==> chain.len() > 0 && chain[0] == start
            &&& forall|i: int| 0 <= i < chain.len() ==> chain[i] >= 2
            &&& forall|i: int|
                0 <= i < chain.len() - 1 ==> vol.fat_entry(#[trigger] chain[i]) == Ok::<
                    u32,
                    FatError,
                >(chain[i + 1])
        },
    decreases max,
{
    if max > 0 && start >= 2 {
        if let Ok(next) = vol.fat_entry(start) {
            if next < END_OF_CHAIN {
                lemma_chain_shape(vol, next, (max - 1) as nat);
            }
        }
    }
}

/// Where the table never marks an end, a chain is as long as its cap and no
/// longer: `live` is a set of data clusters that holds `start`, and the table
/// names for each of them another of them. Such a table may run in a circle.
pub proof fn lemma_chain_without_end(vol: Volume, start: u32, max: nat, live: Set<u32>)
    requires
        live.contains(start),
        forall|c: u32|
            live.contains(c) ==> c >= 2 && (vol.fat_entry(c) matches Ok(next) && next
                < END_OF_CHAIN && live.contains(next)),
    ensures
        vol.chain(start, max) matches Ok(chain) && chain.len() == max,
    decreases max,
{
    if max > 0 {
        let next = vol.fat_entry(start)->Ok_0;
        lemma_chain_without_end(vol, next, (max - 1) as nat, live);
    }
}

/// Of several entries with the same name the first one is found, and only
/// where no entry has the name is none found.
pub proof fn lemma_find_entry_first(entries: Seq<DirEntryView>, name: Seq<char>)
    ensures
        match spec_find_entry(entries, name) {
            Some(e) => exists|i: int|
                {
                    &&& 0 <= i < entries.len()
                    &&& #[trigger] entries[i] == e
                    &&& spec_same_name(entries[i].name, name)
                    &&& forall|j: int| 0 <= j < i ==> !spec_same_name(entries[j].name, name)
                },
            None => forall|j: int| 0 <= j < entries.len() ==> !spec_same_name(entries[j].name, name),
        },
    decreases entries.len(),
{
    if entries.len() > 0 && !spec_same_name(entries[0].name, name) {
        let rest = entries.drop_first();
        lemma_find_entry_first(rest, name);
        match spec_find_entry(rest, name) {
            Some(e) => {
                let i = choose|i: int|
                    {
                        &&& 0 <= i < rest.len()
                        &&& #[trigger] rest[i] == e
                        &&& spec_same_name(rest[i].name, name)
                        &&& forall|j: int| 0 <= j < i ==> !spec_same_name(rest[j].name, name)
                    };
                assert forall|j: int| 0 <= j < i + 1 implies !spec_same_name(
                    entries[j].name,
                    name,
                ) by {
                    if j > 0 {
                        assert(entries[j] == rest[j - 1]);
                    }
                }
            },
            None => {
                assert forall|j: int| 0 <= j < entries.len() implies !spec_same_name(
                    entries[j].name,
                    name,
                ) by {
                    if j > 0 {
                        assert(entries[j] == rest[j - 1]);
                    }
                }
            },
        }
    }
}

/// A read gives at most the bytes asked for.
pub proof fn lemma_read_chain_len(vol: Volume, chain: Seq<u32>, remaining: nat)
    ensures
        vol.read_chain(chain, remaining) matches Ok(content) ==> content.len() <= remaining,
    decreases chain.len(),
{
    if remaining > 0 && chain.len() > 0 {
        if let Ok(data) = vol.cluster_data(chain[0]) {
            let n = if remaining <= data.len() {
                remaining
            } else {
                data.len()
            };
            lemma_read_chain_len(vol, chain.drop_first(), (remaining - n) as nat);
        }
    }
}

/// The geometry gives no negative sizes or offsets.
pub proof fn lemma_geometry_nonnegative(geom: Geometry)
    ensures
        geom.cluster_size() >= 0,
        geom.fat_start() >= 0,
        geom.data_start() >= 0,
{
}

/// A cluster that has an offset lies inside the image as a whole: it starts
/// at or behind the start of the data region and ends at or before the end of
/// the image.
pub proof fn lemma_cluster_inside(vol: Volume, cluster: u32)
    ensures
        vol.cluster_offset(cluster) matches Ok(offset) ==> {
            &&& cluster >= 2
            &&& vol.geom.data_start() <= offset
            &&& offset + vol.geom.cluster_size() <= vol.disk.len()
        },
{
    lemma_geometry_nonnegative(vol.geom);
}

/// A cluster that lies inside the image holds as many bytes as the geometry
/// gives a cluster.
pub proof fn lemma_cluster_data_len(vol: Volume, cluster: u32)
    ensures
        vol.cluster_data(cluster) matches Ok(data) ==> data.len() == vol.geom.cluster_size(),
{
    lemma_geometry_nonnegative(vol.geom);
    lemma_cluster_inside(vol, cluster);
}

/// Where every cluster of the chain lies inside the image, a read gives
/// exactly the bytes asked for, or all that the chain holds where that is
/// less: the last cluster that is read is cut to what remains.
pub proof fn lemma_read_chain_exact(vol: Volume, chain: Seq<u32>, remaining: nat)
    requires
        forall|i: int| 0 <= i < chain.len() ==> vol.cluster_data(#[trigger] chain[i]) is Ok,
    ensures
        vol.read_chain(chain, remaining) matches Ok(content) && content.len() == if remaining
            <= chain.len() * vol.geom.cluster_size() {
            remaining as int
        } else {
            chain.len() * vol.geom.cluster_size()
        },
    decreases chain.len(),
{
    let size = vol.geom.cluster_size();
    lemma_geometry_nonnegative(vol.geom);
    if chain.len() > 0 {
        let data = vol.cluster_data(chain[0])->Ok_0;
        let rest = chain.drop_first();
        lemma_cluster_data_len(vol, chain[0]);
        assert(chain.len() * size == size + rest.len() * size) by (nonlinear_arith)
            requires
                chain.len() == rest.len() + 1,
        ;
        if remaining > 0 {
            let n = if remaining <= data.len() {
                remaining
            } else {
                data.len()
            };
            lemma_read_chain_exact(vol, rest, (remaining - n) as nat);
        }
    }
}

/// The bytes of the clusters of `chain`, one cluster after the other. A
/// cluster outside the image adds nothing.
pub open spec fn spec_chain_bytes(vol: Volume, chain: Seq<u32>) -> Seq<u8>
    decreases chain.len(),
{
    if chain.len() == 0 {
        Seq::empty()
    } else {
        let head = match vol.cluster_data(chain[0]) {
            Ok(data) => data,
            Err(_) => Seq::empty(),
        };
        head + spec_chain_bytes(vol, chain.drop_first())
    }
}

/// Where every cluster of the chain lies inside the image, what is read is
/// the start of the clusters' bytes laid end to end.
pub proof fn lemma_read_chain_prefix(vol: Volume, chain: Seq<u32>, remaining: nat)
    requires
        forall|i: int| 0 <= i < chain.len() ==> vol.cluster_data(#[trigger] chain[i]) is Ok,
    ensures
        vol.read_chain(chain, remaining) == Ok::<Seq<u8>, FatError>(
            if remaining <= spec_chain_bytes(vol, chain).len() {
                spec_chain_bytes(vol, chain).take(remaining as int)
            } else {
                spec_chain_bytes(vol, chain)
            },
        ),
    decreases chain.len(),
{
    let all = spec_chain_bytes(vol, chain);
    if remaining == 0 {
        assert(all.take(0) =~= Seq::<u8>::empty());
    } else if chain.len() > 0 {
        let data = vol.cluster_data(chain[0])->Ok_0;
        let rest = chain.drop_first();
        let tail = spec_chain_bytes(vol, rest);
        let n = if remaining <= data.len() {
            remaining
        } else {
            data.len()
        };
        let left = (remaining - n) as nat;
        lemma_read_chain_prefix(vol, rest, left);
        if remaining <= data.len() {
            assert((data + tail).take(remaining as int) =~= data.take(remaining as int)
                + Seq::<u8>::empty());
        } else {
            assert(data.take(data.len() as int) =~= data);
            if left <= tail.len() {
                assert((data + tail).take(remaining as int) =~= data + tail.take(left as int));
            }
        }
    }
}

/// Two names that differ in the case of ASCII letters only find the same
/// entry.
pub proof fn lemma_find_entry_same_name(entries: Seq<DirEntryView>, a: Seq<char>, b: Seq<char>)
    requires
        spec_same_name(a, b),
    ensures
        spec_find_entry(entries, a) == spec_find_entry(entries, b),
    decreases entries.len(),
{
    if entries.len() > 0 {
        lemma_find_entry_same_name(entries.drop_first(), a, b);
    }
}

/// A descent depends on the segments only through their names as they are
/// compared: segments that differ in the case of ASCII letters only lead to
/// the same entry.
pub proof fn lemma_resolve_same_names(
    vol: Volume,
    cluster: u32,
    a: Seq<Seq<char>>,
    b: Seq<Seq<char>>,
    last: Option<DirEntryView>,
)
    requires
        a.len() == b.len(),
        forall|k: int| 0 <= k < a.len() ==> spec_same_name(#[trigger] a[k], b[k]),
    ensures
        vol.resolve(cluster, a, last) == vol.resolve(cluster, b, last),
    decreases a.len(),
{
    if a.len() > 0 {
        if let Ok(entries) = vol.list_dir(cluster) {
            lemma_find_entry_same_name(entries, a[0], b[0]);
            if let Some(e) = spec_find_entry(entries, a[0]) {
                lemma_resolve_same_names(
                    vol,
                    e.first_cluster,
                    a.drop_first(),
                    b.drop_first(),
                    Some(e),
                );
            }
        }
    }
}

/// Two absolute paths with the same segments name the same entry, however
/// many separators stand between the segments or at the end.
pub proof fn lemma_open_path_same_segments(vol: Volume, p: Seq<char>, q: Seq<char>)
    requires
        p.len() > 0 && p[0] == SEPARATOR,
        q.len() > 0 && q[0] == SEPARATOR,
        spec_segments(p) == spec_segments(q),
    ensures
        vol.open_path(p) == vol.open_path(q),
{
}

} // verus!
