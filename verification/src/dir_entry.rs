//! Short-name directory records: the attribute byte and the 32-byte entry.

use vstd::prelude::*;
use vstd::string::StringExecFns;
use crate::layout::{le_u16, le_u32, spec_le_u16, spec_le_u32, DIR_RECORD_LEN};
use crate::text::spec_byte_chars;

verus! {

/// The six attribute flags of a directory record.
#[derive(Debug, Clone, Copy)]
pub struct Attributes {
    pub read_only: bool,
    pub hidden: bool,
    pub system: bool,
    pub volume_id: bool,
    pub directory: bool,
    pub archive: bool,
}

impl Attributes {
    /// The flags that an attribute byte stands for, one bit each.
    pub open spec fn spec_from_byte(b: u8) -> Attributes {
        Attributes {
            read_only: b & 0x01 != 0,
            hidden: b & 0x02 != 0,
            system: b & 0x04 != 0,
            volume_id: b & 0x08 != 0,
            directory: b & 0x10 != 0,
            archive: b & 0x20 != 0,
        }
    }

    /// Decodes the attribute byte of a directory record.
    pub fn from_byte(b: u8) -> (r: Self)
        ensures
            r == Self::spec_from_byte(b),
    {
        Self {
            read_only: b & 0x01 != 0,
            hidden: b & 0x02 != 0,
            system: b & 0x04 != 0,
            volume_id: b & 0x08 != 0,
            directory: b & 0x10 != 0,
            archive: b & 0x20 != 0,
        }
    }
}

/// One decoded directory record: a file or a subdirectory.
#[derive(Debug)]
pub struct DirEntry {
    pub name: String,
    pub attrs: Attributes,
    pub first_cluster: u32,
    pub size: u32,
}

/// What a `DirEntry` holds, with the name as a sequence of characters.
pub struct DirEntryView {
    pub name: Seq<char>,
    pub attrs: Attributes,
    pub first_cluster: u32,
    pub size: u32,
}

impl View for DirEntry {
    type V = DirEntryView;

    open spec fn view(&self) -> DirEntryView {
        DirEntryView {
            name: self.name@,
            attrs: self.attrs,
            first_cluster: self.first_cluster,
            size: self.size,
        }
    }
}

impl Clone for DirEntry {
    fn clone(&self) -> (r: Self)
        ensures
            r == *self,
    {
        DirEntry {
            name: self.name.clone(),
            attrs: self.attrs,
            first_cluster: self.first_cluster,
            size: self.size,
        }
    }
}

/// The views of a sequence of entries, in the same order.
pub open spec fn spec_entry_views(entries: Seq<DirEntry>) -> Seq<DirEntryView> {
    Seq::new(entries.len(), |i: int| entries[i]@)
}

/// `s` without the spaces at its end.
pub open spec fn spec_trim_end(s: Seq<u8>) -> Seq<u8>
    decreases s.len(),
{
    if s.len() > 0 && s.last() == 0x20 {
        spec_trim_end(s.drop_last())
    } else {
        s
    }
}

/// The text of a space-padded name field: its bytes up to the trailing
/// spaces, each taken as the character with that code.
pub open spec fn spec_decode_ascii_trim(s: Seq<u8>) -> Seq<char> {
    spec_byte_chars(spec_trim_end(s))
}

/// The name that a record carries: the base, and behind a dot the extension
/// where there is one.
pub open spec fn spec_short_name(rec: Seq<u8>) -> Seq<char> {
    let base = spec_decode_ascii_trim(rec.subrange(0, 8));
    let ext = spec_decode_ascii_trim(rec.subrange(8, 11));
    if ext.len() > 0 {
        base + seq!['.'] + ext
    } else {
        base
    }
}

/// The first cluster that a record names: the 16 bits at offset 20 above
/// the 16 bits at offset 26.
pub open spec fn spec_first_cluster(rec: Seq<u8>) -> int {
    0x1_0000 * spec_le_u16(rec, 20) + spec_le_u16(rec, 26)
}

/// The entry that a record decodes to, if it is one: not a record that is too
/// short, unused or deleted, and not a volume label.
pub open spec fn spec_parse(rec: Seq<u8>) -> Option<DirEntryView> {
    if rec.len() < 32 {
        None
    } else if rec[0] == 0x00 || rec[0] == 0xE5 {
        None
    } else if Attributes::spec_from_byte(rec[11]).volume_id {
        None
    } else {
        Some(
            DirEntryView {
                name: spec_short_name(rec),
                attrs: Attributes::spec_from_byte(rec[11]),
                first_cluster: spec_first_cluster(rec) as u32,
                size: spec_le_u32(rec, 28) as u32,
            },
        )
    }
}

/// What trimming leaves is the longest prefix that does not end in a space.
pub proof fn lemma_trim_end(s: Seq<u8>)
    ensures
        spec_trim_end(s).len() <= s.len(),
        spec_trim_end(s) == s.take(spec_trim_end(s).len() as int),
        spec_trim_end(s).len() > 0 ==> spec_trim_end(s).last() != 0x20,
        forall|i: int| spec_trim_end(s).len() <= i < s.len() ==> s[i] == 0x20,
    decreases s.len(),
{
    if s.len() > 0 && s.last() == 0x20 {
        let t = s.drop_last();
        lemma_trim_end(t);
        assert forall|i: int| spec_trim_end(s).len() <= i < s.len() implies s[i] == 0x20 by {
            if i < t.len() {
                assert(s[i] == t[i]);
            }
        }
    }
}

/// Decodes a space-padded name field.
pub fn decode_ascii_trim(bytes: &[u8]) -> (r: String)
    ensures
        r@ == spec_decode_ascii_trim(bytes@),
{
    let mut end: usize = bytes.len();
    proof {
        assert(bytes@.take(end as int) =~= bytes@);
    }
    while end > 0 && bytes[end - 1] == 0x20
        invariant
            end <= bytes@.len(),
            spec_trim_end(bytes@) == spec_trim_end(bytes@.take(end as int)),
        decreases end,
    {
        proof {
            assert(bytes@.take(end as int).drop_last() =~= bytes@.take(end - 1));
        }
        end -= 1;
    }
    let ghost kept = bytes@.take(end as int);
    let mut s = String::new();
    let mut i: usize = 0;
    while i < end
        invariant
            i <= end <= bytes@.len(),
            kept == bytes@.take(end as int),
            s@ == spec_byte_chars(kept.take(i as int)),
        decreases end - i,
    {
        s.push(bytes[i] as char);
        i += 1;
    }
    s
}

impl DirEntry {
    /// Decodes one directory record. A slice of fewer than 32 bytes holds no
    /// record; of a longer one the first 32 bytes are read.
    pub fn parse(entry: &[u8]) -> (r: Option<Self>)
        ensures
            match r {
                Some(e) => spec_parse(entry@) == Some(e@),
                None => spec_parse(entry@) is None,
            },
            entry@.len() < 32 ==> r is None,
            entry@.len() >= 32 && (entry@[0] == 0x00 || entry@[0] == 0xE5) ==> r is None,
            entry@.len() >= 32 && entry@[11] & 0x08 != 0 ==> r is None,
    {
        if entry.len() < DIR_RECORD_LEN {
            return None;
        }
        if entry[0] == 0x00 || entry[0] == 0xE5 {
            return None;
        }
        let attrs = Attributes::from_byte(entry[11]);
        if attrs.volume_id {
            return None;
        }
        let name = decode_ascii_trim(&entry[0..8]);
        let ext = decode_ascii_trim(&entry[8..11]);

        let full_name = if !ext.as_str().is_empty() {
            let mut s = name;
            s.push('.');
            s.append(ext.as_str());
            s
        } else {
            name
        };
        assert(full_name@ == spec_short_name(entry@));

        let first_cluster_high: u32 = le_u16(entry, 20) as u32;
        let first_cluster_low: u32 = le_u16(entry, 26) as u32;
        let first_cluster: u32 = 0x1_0000 * first_cluster_high + first_cluster_low;

        let size = le_u32(entry, 28);

        Some(Self { name: full_name, attrs, first_cluster, size })
    }

    /// Whether the entry is a directory.
    pub fn is_dir(&self) -> (r: bool)
        ensures
            r == self@.attrs.directory,
    {
        self.attrs.directory
    }

    /// Whether the entry is a file.
    pub fn is_file(&self) -> (r: bool)
        ensures
            r == !self@.attrs.directory,
    {
        !self.attrs.directory
    }
}

} // verus!
