//! The records of the entry table: one 16-byte slot per entry, read as a
//! directory, a binary file or a resource file.

use crate::error::RpfError;
use crate::le::{read_u16_at, read_u24_at, read_u32_at, read_u64_at, u16_le, u24_le, u32_le};
use crate::names::{decoded_name, name_run, read_name};
use crate::placeholder::{hash_name, hash_placeholder, index_placeholder, indexed_name};
use vstd::prelude::*;

verus! {

/// The second word of a directory slot.
pub const DIRECTORY_MARKER: u32 = 0x7FFFFF00;

/// The bit of the second word that marks a resource file.
pub const RESOURCE_FLAG: u32 = 0x80000000;

/// A directory name offset above this is not looked up.
pub const NAME_OFFSET_CEILING: u32 = 1000000;

/// A file stored in the archive.
#[derive(Debug, Clone)]
pub struct RpfFileEntry {
    pub name: String,
    pub path: String,
    /// Storage offset in 512-byte sectors.
    pub offset: u32,
    /// Stored byte length; 0 means the data is `uncompressed_size` bytes as is.
    pub size: u32,
    /// Byte length after decompression; 0 for resource files.
    pub uncompressed_size: u32,
    pub is_resource: bool,
}

/// A directory: its own record fields and, once the tree is built, its
/// children.
#[derive(Debug)]
pub struct RpfDirectoryEntry {
    pub name: String,
    pub path: String,
    /// Index of the first child in the flat entry list.
    pub entries_index: u32,
    /// Number of consecutive children starting at `entries_index`.
    pub entries_count: u32,
    pub files: Vec<RpfFileEntry>,
    pub directories: Vec<RpfDirectoryEntry>,
}

/// One decoded slot of the entry table.
#[derive(Debug)]
pub enum RpfEntry {
    Directory(RpfDirectoryEntry),
    File(RpfFileEntry),
}

/// Byte position of slot `i` in the entry table.
pub open spec fn slot_base(i: int) -> int {
    16 * i
}

/// The name of a directory slot whose first word is `y`: the name table run
/// at the low 24 bits of `y`, unless that offset is outside the table or above
/// the sanity ceiling.
pub open spec fn directory_name(names: Seq<u8>, y: u32) -> Seq<char> {
    let off = y & 0xFFFFFFu32;
    if off as int >= names.len() || off > NAME_OFFSET_CEILING {
        hash_name(y)
    } else {
        decoded_name(name_run(names, off as int))
    }
}

/// The name of a file slot whose 16-bit name offset is `off`; slots whose
/// offset lies outside the name table are named by `prefix` and their index.
pub open spec fn file_name(names: Seq<u8>, off: u32, prefix: Seq<char>, i: int) -> Seq<char> {
    if off as int >= names.len() {
        indexed_name(prefix, i as u32)
    } else {
        decoded_name(name_run(names, off as int))
    }
}

/// `d` is a directory record as decoded, before the tree is built.
pub open spec fn is_bare_directory(
    d: RpfDirectoryEntry,
    name: Seq<char>,
    index: u32,
    count: u32,
) -> bool {
    &&& d.name@ == name
    &&& d.path@.len() == 0
    &&& d.entries_index == index
    &&& d.entries_count == count
    &&& d.files@.len() == 0
    &&& d.directories@.len() == 0
}

/// `f` has the given record fields and no path yet.
pub open spec fn is_bare_file(
    f: RpfFileEntry,
    name: Seq<char>,
    offset: u32,
    size: u32,
    uncompressed_size: u32,
    is_resource: bool,
) -> bool {
    &&& f.name@ == name
    &&& f.path@.len() == 0
    &&& f.offset == offset
    &&& f.size == size
    &&& f.uncompressed_size == uncompressed_size
    &&& f.is_resource == is_resource
}

/// `e` is what slot `i` of `table` decodes to, with names from `names`.
///
/// A slot whose second word is the directory marker is a directory (name
/// offset in the low 24 bits of the first word, then child index and count).
/// Otherwise the top bit of the second word tells a binary file (clear) from a
/// resource file (set). Both start with a 16-bit name offset, a 24-bit stored
/// size and a 24-bit sector offset (23 bits for resources); a binary file then
/// holds its uncompressed size.
pub open spec fn slot_decodes_to(e: RpfEntry, table: Seq<u8>, names: Seq<u8>, i: int) -> bool {
    let b = slot_base(i);
    let y = u32_le(table, b);
    let x = u32_le(table, b + 4);
    if x == DIRECTORY_MARKER {
        e matches RpfEntry::Directory(d) && is_bare_directory(
            d,
            directory_name(names, y),
            u32_le(table, b + 8),
            u32_le(table, b + 12),
        )
    } else if x & RESOURCE_FLAG == 0 {
        e matches RpfEntry::File(f) && is_bare_file(
            f,
            file_name(names, u16_le(table, b), "binary_entry_"@, i),
            u24_le(table, b + 5),
            u24_le(table, b + 2),
            u32_le(table, b + 8),
            false,
        )
    } else {
        e matches RpfEntry::File(f) && is_bare_file(
            f,
            file_name(names, u16_le(table, b), "resource_entry_"@, i),
            u24_le(table, b + 5) & 0x7FFFFFu32,
            u24_le(table, b + 2),
            0,
            true,
        )
    }
}

proof fn lemma_packed_fields(b0: u8, b1: u8, b2: u8, b3: u8, b4: u8, b5: u8, b6: u8, b7: u8, p: u64)
    requires
        p == (b0 as u64) | ((b1 as u64) << 8u64) | ((b2 as u64) << 16u64) | ((b3 as u64)
            << 24u64) | ((b4 as u64) << 32u64) | ((b5 as u64) << 40u64) | ((b6 as u64) << 48u64)
            | ((b7 as u64) << 56u64),
    ensures
        (p & 0xFFFFu64) as u32 == (b0 as u32) | ((b1 as u32) << 8u32),
        ((p >> 16u64) & 0xFFFFFFu64) as u32 == (b2 as u32) | ((b3 as u32) << 8u32) | ((
        b4 as u32) << 16u32),
        ((p >> 40u64) & 0xFFFFFFu64) as u32 == (b5 as u32) | ((b6 as u32) << 8u32) | ((
        b7 as u32) << 16u32),
        p & 0xFFFFu64 <= 0xFFFFu64,
        (p >> 16u64) & 0xFFFFFFu64 <= 0xFFFFFFu64,
        (p >> 40u64) & 0xFFFFFFu64 <= 0xFFFFFFu64,
{
    assert(p & 0xFFFFu64 <= 0xFFFFu64) by (bit_vector);
    assert((p >> 16u64) & 0xFFFFFFu64 <= 0xFFFFFFu64) by (bit_vector);
    assert((p >> 40u64) & 0xFFFFFFu64 <= 0xFFFFFFu64) by (bit_vector);
    assert((p & 0xFFFFu64) as u32 == (b0 as u32) | ((b1 as u32) << 8u32)) by (bit_vector)
        requires
            p == (b0 as u64) | ((b1 as u64) << 8u64) | ((b2 as u64) << 16u64) | ((b3 as u64)
                << 24u64) | ((b4 as u64) << 32u64) | ((b5 as u64) << 40u64) | ((b6 as u64)
                << 48u64) | ((b7 as u64) << 56u64),
    ;
    assert(((p >> 16u64) & 0xFFFFFFu64) as u32 == (b2 as u32) | ((b3 as u32) << 8u32) | ((
    b4 as u32) << 16u32)) by (bit_vector)
        requires
            p == (b0 as u64) | ((b1 as u64) << 8u64) | ((b2 as u64) << 16u64) | ((b3 as u64)
                << 24u64) | ((b4 as u64) << 32u64) | ((b5 as u64) << 40u64) | ((b6 as u64)
                << 48u64) | ((b7 as u64) << 56u64),
    ;
    assert(((p >> 40u64) & 0xFFFFFFu64) as u32 == (b5 as u32) | ((b6 as u32) << 8u32) | ((
    b7 as u32) << 16u32)) by (bit_vector)
        requires
            p == (b0 as u64) | ((b1 as u64) << 8u64) | ((b2 as u64) << 16u64) | ((b3 as u64)
                << 24u64) | ((b4 as u64) << 32u64) | ((b5 as u64) << 40u64) | ((b6 as u64)
                << 48u64) | ((b7 as u64) << 56u64),
    ;
}

/// Decodes slot `i` of the entry table.
pub fn decode_slot(table: &[u8], names: &[u8], i: u32) -> (e: RpfEntry)
    requires
        slot_base(i as int) + 16 <= table@.len(),
    ensures
        slot_decodes_to(e, table@, names@, i as int),
{
    assert(table@.len() == table.len());
    let base = i as usize * 16;
    let y = read_u32_at(table, base);
    let x = read_u32_at(table, base + 4);
    if x == DIRECTORY_MARKER {
        let name_offset = y & 0xFFFFFF;
        let name = if name_offset as usize >= names.len() || name_offset > NAME_OFFSET_CEILING {
            hash_placeholder(y)
        } else {
            match read_name(names, name_offset) {
                Some(n) => n,
                None => index_placeholder("entry_", i),
            }
        };
        let entries_index = read_u32_at(table, base + 8);
        let entries_count = read_u32_at(table, base + 12);
        RpfEntry::Directory(
            RpfDirectoryEntry {
                name,
                path: String::new(),
                entries_index,
                entries_count,
                files: Vec::new(),
                directories: Vec::new(),
            },
        )
    } else if x & RESOURCE_FLAG == 0 {
        let packed = read_u64_at(table, base);
        proof {
            let t = table@;
            let b = base as int;
            lemma_packed_fields(
                t[b],
                t[b + 1],
                t[b + 2],
                t[b + 3],
                t[b + 4],
                t[b + 5],
                t[b + 6],
                t[b + 7],
                packed,
            );
        }
        let name_offset = (packed & 0xFFFF) as u32;
        let file_size = ((packed >> 16) & 0xFFFFFF) as u32;
        let file_offset = ((packed >> 40) & 0xFFFFFF) as u32;
        let uncompressed_size = read_u32_at(table, base + 8);
        let name = match read_name(names, name_offset) {
            Some(n) => n,
            None => index_placeholder("binary_entry_", i),
        };
        RpfEntry::File(
            RpfFileEntry {
                name,
                path: String::new(),
                offset: file_offset,
                size: file_size,
                uncompressed_size,
                is_resource: false,
            },
        )
    } else {
        let name_offset = read_u16_at(table, base) as u32;
        let file_size = read_u24_at(table, base + 2);
        let file_offset = read_u24_at(table, base + 5) & 0x7FFFFF;
        let name = match read_name(names, name_offset) {
            Some(n) => n,
            None => index_placeholder("resource_entry_", i),
        };
        RpfEntry::File(
            RpfFileEntry {
                name,
                path: String::new(),
                offset: file_offset,
                size: file_size,
                uncompressed_size: 0,
                is_resource: true,
            },
        )
    }
}

/// Decodes the first `count` slots of the entry table, in table order.
pub fn parse_entries(table: &[u8], names: &[u8], count: u32) -> (r: Result<Vec<RpfEntry>, RpfError>)
    ensures
        r is Err <==> table@.len() < 16 * count,
        r is Err ==> r == Err::<Vec<RpfEntry>, RpfError>(RpfError::ShortInput),
        r matches Ok(v) ==> v@.len() == count && forall|i: int|
            0 <= i < count ==> slot_decodes_to(#[trigger] v@[i], table@, names@, i),
{
    if (table.len() as u64) < count as u64 * 16 {
        return Err(RpfError::ShortInput);
    }
    let mut entries: Vec<RpfEntry> = Vec::new();
    let mut i: u32 = 0;
    while i < count
        invariant
            i <= count,
            16 * count <= table@.len(),
            entries@.len() == i,
            forall|j: int| 0 <= j < i ==> slot_decodes_to(#[trigger] entries@[j], table@, names@, j),
        decreases count - i,
    {
        let e = decode_slot(table, names, i);
        entries.push(e);
        i += 1;
    }
    Ok(entries)
}

} // verus!
