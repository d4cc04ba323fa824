//! The decoded archive: header, flat entry list and directory tree, with
//! listing, lookup and extraction.

use crate::entry::{slot_decodes_to, parse_entries, RpfDirectoryEntry, RpfEntry, RpfFileEntry};
use crate::error::RpfError;
use crate::header::RpfHeader;
use crate::inflate::{deflate_inflated, inflate_deflate, inflate_zlib, zlib_inflated};
use crate::names::push_char;
use crate::pattern::{matches_pattern, pattern_matches};
use crate::tree::{
    build_directory_structure, build_outcome, dir_positions, file_placed, file_positions, is_synthetic, is_tree_of,
    join_path, populated, populated_from,
};
use vstd::prelude::*;
use vstd::string::*;

verus! {

/// Size of one storage sector in bytes.
pub const SECTOR_SIZE: u64 = 512;

/// A decoded archive.
#[derive(Debug)]
pub struct RpfArchive {
    /// Where the archive is stored.
    pub path: String,
    pub header: RpfHeader,
    /// Every record of the entry table, in table order.
    pub entries: Vec<RpfEntry>,
    /// The directory tree built from `entries`.
    pub root: RpfDirectoryEntry,
}

/// The files of the tree under `d`, depth first: `d`'s own files, then those
/// under each of its directories in order.
pub open spec fn all_files(d: RpfDirectoryEntry) -> Seq<RpfFileEntry>
    decreases d,
{
    d.files@ + files_under(d.directories@)
}

/// The files of the trees under each of `ds`, in order.
pub open spec fn files_under(ds: Seq<RpfDirectoryEntry>) -> Seq<RpfFileEntry>
    decreases ds,
{
    if ds.len() == 0 {
        Seq::empty()
    } else {
        files_under(ds.subrange(0, ds.len() - 1)) + all_files(ds[ds.len() - 1])
    }
}

/// The files of the tree under `d` in search order: those under each of its
/// directories in order, searched the same way, then `d`'s own files.
pub open spec fn search_files(d: RpfDirectoryEntry) -> Seq<RpfFileEntry>
    decreases d,
{
    search_under(d.directories@) + d.files@
}

/// The files of the trees under each of `ds`, in search order.
pub open spec fn search_under(ds: Seq<RpfDirectoryEntry>) -> Seq<RpfFileEntry>
    decreases ds,
{
    if ds.len() == 0 {
        Seq::empty()
    } else {
        search_under(ds.subrange(0, ds.len() - 1)) + search_files(ds[ds.len() - 1])
    }
}

/// Number of directories of the tree under `d`, `d` included.
pub open spec fn dir_count(d: RpfDirectoryEntry) -> nat
    decreases d,
{
    1 + dirs_under(d.directories@)
}

/// Number of directories of the trees under each of `ds`.
pub open spec fn dirs_under(ds: Seq<RpfDirectoryEntry>) -> nat
    decreases ds,
{
    if ds.len() == 0 {
        0
    } else {
        dirs_under(ds.subrange(0, ds.len() - 1)) + dir_count(ds[ds.len() - 1])
    }
}

/// Number of file records among `es`.
pub open spec fn file_record_count(es: Seq<RpfEntry>) -> nat
    decreases es.len(),
{
    if es.len() == 0 {
        0
    } else {
        file_record_count(es.drop_last()) + if es.last() is File {
            1nat
        } else {
            0nat
        }
    }
}

/// Number of directory records among `es`.
pub open spec fn dir_record_count(es: Seq<RpfEntry>) -> nat
    decreases es.len(),
{
    if es.len() == 0 {
        0
    } else {
        dir_record_count(es.drop_last()) + if es.last() is Directory {
            1nat
        } else {
            0nat
        }
    }
}

/// The files among `fs` whose path matches `pat`, in order.
pub open spec fn matching(fs: Seq<RpfFileEntry>, pat: Seq<char>) -> Seq<RpfFileEntry>
    decreases fs.len(),
{
    if fs.len() == 0 {
        fs
    } else if pattern_matches(fs.last().path@, pat) {
        matching(fs.drop_last(), pat).push(fs.last())
    } else {
        matching(fs.drop_last(), pat)
    }
}

/// A query path with each backslash turned into a forward slash.
pub open spec fn normalize(q: Seq<char>) -> Seq<char> {
    q.map_values(|c: char| if c == '\\' { '/' } else { c })
}

/// `f` answers the query `q` by its full path or by its bare name.
pub open spec fn file_matches(f: RpfFileEntry, q: Seq<char>) -> bool {
    f.path@ == q || f.name@ == q
}

/// The stored byte length of a file's data: its size, or its uncompressed
/// size where the size is 0.
pub open spec fn stored_len(f: RpfFileEntry) -> u32 {
    if f.size > 0 {
        f.size
    } else {
        f.uncompressed_size
    }
}

/// The stored data is taken to be compressed.
pub open spec fn looks_compressed(f: RpfFileEntry) -> bool {
    f.size > 0 && f.size < f.uncompressed_size
}

/// What extraction makes of file `f` given the bytes found at its storage
/// offset: the first `stored_len` of them, inflated as zlib, else as raw
/// deflate, else kept as they are when they look compressed; as they are
/// otherwise.
pub open spec fn extracted(f: RpfFileEntry, data: Seq<u8>) -> Result<Seq<u8>, RpfError> {
    let n = stored_len(f) as int;
    if n == 0 {
        Err(RpfError::EmptyFile)
    } else if data.len() < n {
        Err(RpfError::TruncatedRead)
    } else {
        let stored = data.subrange(0, n);
        if looks_compressed(f) {
            match zlib_inflated(stored) {
                Some(v) => Ok(v),
                None => match deflate_inflated(stored) {
                    Some(v) => Ok(v),
                    None => Ok(stored),
                },
            }
        } else {
            Ok(stored)
        }
    }
}

/// The view of an extraction result.
pub open spec fn result_bytes(r: Result<Vec<u8>, RpfError>) -> Result<Seq<u8>, RpfError> {
    match r {
        Ok(v) => Ok(v@),
        Err(e) => Err(e),
    }
}

/// `es` holds the first `count` slots of `table` as decoded.
pub open spec fn decoded_list(es: Seq<RpfEntry>, count: u32, table: Seq<u8>, names: Seq<u8>) -> bool {
    &&& es.len() == count
    &&& forall|i: int| 0 <= i < count ==> slot_decodes_to(#[trigger] es[i], table, names, i)
}

/// `a` holds what `header`, `table` and `names` decode to.
pub open spec fn decodes_to(a: RpfArchive, header: RpfHeader, table: Seq<u8>, names: Seq<u8>) -> bool {
    &&& a.header == header
    &&& decoded_list(a.entries@, header.entry_count, table, names)
    &&& is_tree_of(a.root, a.entries@)
}

proof fn lemma_search_under_prefix(ds: Seq<RpfDirectoryEntry>, m: int)
    requires
        0 <= m <= ds.len(),
    ensures
        search_under(ds.subrange(0, m)).len() <= search_under(ds).len(),
        forall|k: int|
            0 <= k < search_under(ds.subrange(0, m)).len() ==> #[trigger] search_under(
                ds.subrange(0, m),
            )[k] == search_under(ds)[k],
    decreases ds.len() - m,
{
    if m == ds.len() {
        assert(ds.subrange(0, m) =~= ds);
    } else {
        lemma_search_under_prefix(ds, m + 1);
        let s1 = ds.subrange(0, m + 1);
        assert(s1.subrange(0, m) =~= ds.subrange(0, m));
        assert(search_under(s1) == search_under(ds.subrange(0, m)) + search_files(s1[m]));
        assert forall|k: int| 0 <= k < search_under(ds.subrange(0, m)).len() implies #[trigger] search_under(
            ds.subrange(0, m),
        )[k] == search_under(ds)[k] by {
            assert(search_under(ds.subrange(0, m))[k] == search_under(s1)[k]);
        }
    }
}

/// The file's storage span within the archive: its byte offset and the
/// number of bytes stored there; fails for a file with no data.
pub fn stored_span(f: &RpfFileEntry) -> (r: Result<(u64, u32), RpfError>)
    ensures
        stored_len(*f) == 0 <==> r is Err,
        r is Err ==> r == Err::<(u64, u32), RpfError>(RpfError::EmptyFile),
        r matches Ok((o, n)) ==> o == f.offset as u64 * SECTOR_SIZE && n == stored_len(*f),
{
    let n = if f.size > 0 {
        f.size
    } else {
        f.uncompressed_size
    };
    if n == 0 {
        return Err(RpfError::EmptyFile);
    }
    Ok((f.offset as u64 * SECTOR_SIZE, n))
}

fn copy_prefix(data: &[u8], n: usize) -> (r: Vec<u8>)
    requires
        n <= data@.len(),
    ensures
        r@ == data@.subrange(0, n as int),
{
    let mut v: Vec<u8> = Vec::new();
    let mut i: usize = 0;
    while i < n
        invariant
            i <= n <= data@.len(),
            v@ == data@.subrange(0, i as int),
        decreases n - i,
    {
        v.push(data[i]);
        i += 1;
        assert(v@ =~= data@.subrange(0, i as int));
    }
    v
}

/// `q` with each backslash turned into a forward slash.
pub fn normalize_path(q: &str) -> (r: String)
    ensures
        r@ == normalize(q@),
{
    let n = q.unicode_len();
    let mut s = String::new();
    let mut i: usize = 0;
    while i < n
        invariant
            n == q@.len(),
            i <= n,
            s@ == normalize(q@.subrange(0, i as int)),
        decreases n - i,
    {
        let c = q.get_char(i);
        push_char(&mut s, if c == '\\' { '/' } else { c });
        i += 1;
        assert(normalize(q@.subrange(0, i as int)) =~= normalize(q@.subrange(0, i - 1)).push(
            if c == '\\' { '/' } else { c },
        ));
    }
    assert(q@.subrange(0, n as int) =~= q@);
    s
}

/// Appends every file under `dir`, depth first, to `files`.
pub fn collect_files<'a>(dir: &'a RpfDirectoryEntry, files: &mut Vec<&'a RpfFileEntry>)
    ensures
        final(files)@.len() == old(files)@.len() + all_files(*dir).len(),
        forall|k: int| 0 <= k < old(files)@.len() ==> final(files)@[k] == old(files)@[k],
        forall|k: int|
            0 <= k < all_files(*dir).len() ==> *final(files)@[old(files)@.len() + k]
                == all_files(*dir)[k],
    decreases dir,
{
    let ghost start = files@.len();
    let mut i: usize = 0;
    while i < dir.files.len()
        invariant
            i <= dir.files@.len(),
            files@.len() == start + i,
            start == old(files)@.len(),
            forall|k: int| 0 <= k < start ==> files@[k] == old(files)@[k],
            forall|k: int| 0 <= k < i ==> *files@[start + k] == dir.files@[k],
        decreases dir.files@.len() - i,
    {
        files.push(&dir.files[i]);
        i += 1;
    }
    let ghost base = files@.len();
    let mut j: usize = 0;
    while j < dir.directories.len()
        invariant
            j <= dir.directories@.len(),
            start == old(files)@.len(),
            base == start + dir.files@.len(),
            files@.len() == base + files_under(dir.directories@.subrange(0, j as int)).len(),
            forall|k: int| 0 <= k < start ==> files@[k] == old(files)@[k],
            forall|k: int| 0 <= k < dir.files@.len() ==> *files@[start + k] == dir.files@[k],
            forall|k: int|
                0 <= k < files_under(dir.directories@.subrange(0, j as int)).len()
                    ==> *files@[base + k] == files_under(dir.directories@.subrange(0, j as int))[k],
        decreases dir.directories@.len() - j,
    {
        let ghost before = files@;
        let ghost ds = dir.directories@;
        assert(ds.subrange(0, j + 1).subrange(0, j as int) =~= ds.subrange(0, j as int));
        collect_files(&dir.directories[j], files);
        j += 1;
    }
    assert(dir.directories@.subrange(0, j as int) =~= dir.directories@);
}

/// The first file under `dir` in search order (each subdirectory's tree in
/// order, then `dir`'s own files) whose path or name is `q`.
fn find_file_in_dir<'a>(dir: &'a RpfDirectoryEntry, q: &String) -> (r: Option<&'a RpfFileEntry>)
    ensures
        r is None <==> forall|k: int|
            0 <= k < search_files(*dir).len() ==> !file_matches(#[trigger] search_files(*dir)[k], q@),
        r matches Some(f) ==> exists|k: int|
            0 <= k < search_files(*dir).len() && search_files(*dir)[k] == *f && file_matches(*f, q@)
                && forall|j: int| 0 <= j < k ==> !file_matches(#[trigger] search_files(*dir)[j], q@),
    decreases dir,
{
    let ghost ds = dir.directories@;
    let mut j: usize = 0;
    while j < dir.directories.len()
        invariant
            j <= ds.len(),
            ds == dir.directories@,
            forall|k: int|
                0 <= k < search_under(ds.subrange(0, j as int)).len() ==> !file_matches(
                    #[trigger] search_under(ds.subrange(0, j as int))[k],
                    q@,
                ),
        decreases ds.len() - j,
    {
        assert(ds.subrange(0, j + 1).subrange(0, j as int) =~= ds.subrange(0, j as int));
        let found = find_file_in_dir(&dir.directories[j], q);
        proof {
            lemma_search_under_prefix(ds, j + 1);
        }
        if let Some(f) = found {
            proof {
                let pre = search_under(ds.subrange(0, j as int));
                assert(search_under(ds.subrange(0, j + 1)) == pre + search_files(ds[j as int]));
                let k2 = choose|k2: int|
                    0 <= k2 < search_files(ds[j as int]).len() && search_files(ds[j as int])[k2] == *f
                        && file_matches(*f, q@) && forall|m: int|
                        0 <= m < k2 ==> !file_matches(#[trigger] search_files(ds[j as int])[m], q@);
                let k = pre.len() + k2;
                assert(search_under(ds.subrange(0, j + 1))[k] == *f);
                assert(search_files(*dir)[k] == search_under(ds)[k]);
                assert forall|m: int| 0 <= m < k implies !file_matches(
                    #[trigger] search_files(*dir)[m],
                    q@,
                ) by {
                    assert(search_files(*dir)[m] == search_under(ds)[m]);
                    assert(search_under(ds.subrange(0, j + 1))[m] == search_under(ds)[m]);
                }
            }
            return Some(f);
        }
        j += 1;
    }
    assert(ds.subrange(0, j as int) =~= ds);
    let ghost nd = search_under(ds).len();
    let mut i: usize = 0;
    while i < dir.files.len()
        invariant
            i <= dir.files@.len(),
            ds == dir.directories@,
            nd == search_under(ds).len(),
            forall|k: int| 0 <= k < nd ==> !file_matches(#[trigger] search_under(ds)[k], q@),
            forall|k: int| 0 <= k < i ==> !file_matches(#[trigger] dir.files@[k], q@),
        decreases dir.files@.len() - i,
    {
        let f = &dir.files[i];
        if f.path == *q || f.name == *q {
            proof {
                let k = nd + i;
                assert(search_files(*dir)[k] == *f);
                assert forall|m: int| 0 <= m < k implies !file_matches(
                    #[trigger] search_files(*dir)[m],
                    q@,
                ) by {
                    if m < nd {
                        assert(search_files(*dir)[m] == search_under(ds)[m]);
                    } else {
                        assert(search_files(*dir)[m] == dir.files@[m - nd]);
                    }
                }
            }
            return Some(f);
        }
        i += 1;
    }
    proof {
        assert forall|k: int| 0 <= k < search_files(*dir).len() implies !file_matches(
            #[trigger] search_files(*dir)[k],
            q@,
        ) by {
            if k < nd {
                assert(search_files(*dir)[k] == search_under(ds)[k]);
            } else {
                assert(search_files(*dir)[k] == dir.files@[k - nd]);
            }
        }
    }
    None
}

impl RpfArchive {
    /// Decodes an archive from its header, the bytes of its entry table and
    /// the bytes of its name table.
    pub fn from_tables(path: String, header: RpfHeader, table: &[u8], names: &[u8]) -> (r: Result<RpfArchive, RpfError>)
        ensures
            table@.len() < 16 * header.entry_count ==> r == Err::<RpfArchive, RpfError>(RpfError::ShortInput),
            table@.len() >= 16 * header.entry_count ==> exists|es: Seq<RpfEntry>|
                #[trigger] decoded_list(es, header.entry_count, table@, names@) && (r is Ok
                    <==> build_outcome(es) is Ok) && (r matches Err(e) ==> build_outcome(es)
                    == Err::<(), RpfError>(e)),
            r matches Ok(a) ==> a.path == path && decodes_to(a, header, table@, names@),
            header.entry_count == 0 ==> (r matches Ok(a) && a.entries@.len() == 0 && all_files(a.root).len() == 0),
    {
        let entries = match parse_entries(table, names, header.entry_count) {
            Ok(v) => v,
            Err(e) => return Err(e),
        };
        assert(decoded_list(entries@, header.entry_count, table@, names@));
        let root = match build_directory_structure(entries.as_slice()) {
            Ok(root) => root,
            Err(e) => return Err(e),
        };
        Ok(RpfArchive { path, header, entries, root })
    }

    /// Every file of the tree, depth first: a directory's own files before
    /// those of its subdirectories, children in table order.
    pub fn list_files(&self) -> (r: Vec<&RpfFileEntry>)
        ensures
            r@.len() == all_files(self.root).len(),
            forall|k: int| 0 <= k < r@.len() ==> *r@[k] == all_files(self.root)[k],
    {
        let mut files: Vec<&RpfFileEntry> = Vec::new();
        collect_files(&self.root, &mut files);
        files
    }

    /// The first file whose full path or bare name equals `path` once
    /// backslashes are turned into forward slashes, searching depth first with
    /// each directory's subdirectories (in table order) before its own files.
    pub fn find_file(&self, path: &str) -> (r: Option<&RpfFileEntry>)
        ensures
            r is None <==> forall|k: int|
                0 <= k < search_files(self.root).len() ==> !file_matches(
                    #[trigger] search_files(self.root)[k],
                    normalize(path@),
                ),
            r matches Some(f) ==> exists|k: int|
                0 <= k < search_files(self.root).len() && search_files(self.root)[k] == *f
                    && file_matches(*f, normalize(path@)) && forall|j: int|
                    0 <= j < k ==> !file_matches(#[trigger] search_files(self.root)[j], normalize(path@)),
    {
        let q = normalize_path(path);
        find_file_in_dir(&self.root, &q)
    }

    /// The files, in listing order, whose full path matches `pattern`.
    pub fn files_matching(&self, pattern: &str) -> (r: Vec<&RpfFileEntry>)
        ensures
            r@.len() == matching(all_files(self.root), pattern@).len(),
            forall|k: int| 0 <= k < r@.len() ==> *r@[k] == matching(all_files(self.root), pattern@)[k],
    {
        let all = self.list_files();
        let ghost fs = all_files(self.root);
        let mut out: Vec<&RpfFileEntry> = Vec::new();
        let mut i: usize = 0;
        while i < all.len()
            invariant
                i <= all@.len(),
                all@.len() == fs.len(),
                forall|k: int| 0 <= k < all@.len() ==> *all@[k] == fs[k],
                out@.len() == matching(fs.subrange(0, i as int), pattern@).len(),
                forall|k: int|
                    0 <= k < out@.len() ==> *out@[k] == matching(fs.subrange(0, i as int), pattern@)[k],
            decreases all@.len() - i,
        {
            assert(fs.subrange(0, i + 1).drop_last() =~= fs.subrange(0, i as int));
            let f = all[i];
            if matches_pattern(f.path.as_str(), pattern) {
                out.push(f);
            }
            i += 1;
        }
        assert(fs.subrange(0, i as int) =~= fs);
        out
    }

    /// Extracts `file_entry` from the bytes found at its storage offset
    /// (see `stored_span`): the stored bytes, inflated when they look
    /// compressed and a decoder accepts them.
    pub fn extract_file(&self, file_entry: &RpfFileEntry, data: &[u8]) -> (r: Result<Vec<u8>, RpfError>)
        ensures
            result_bytes(r) == extracted(*file_entry, data@),
            file_entry.size == 0 && file_entry.uncompressed_size == 0 ==> r == Err::<Vec<u8>, RpfError>(
                RpfError::EmptyFile,
            ),
    {
        let n = match stored_span(file_entry) {
            Ok((_, n)) => n as usize,
            Err(e) => return Err(e),
        };
        if data.len() < n {
            return Err(RpfError::TruncatedRead);
        }
        let stored = copy_prefix(data, n);
        if file_entry.size > 0 && file_entry.size < file_entry.uncompressed_size {
            if let Some(v) = inflate_zlib(stored.as_slice()) {
                return Ok(v);
            }
            if let Some(v) = inflate_deflate(stored.as_slice()) {
                return Ok(v);
            }
        }
        Ok(stored)
    }
}

/// The number of file records and of directory records in `entries`.
pub fn count_entries(archive: &RpfArchive) -> (r: (usize, usize))
    ensures
        r.0 == file_record_count(archive.entries@),
        r.1 == dir_record_count(archive.entries@),
{
    let es = &archive.entries;
    let mut files: usize = 0;
    let mut dirs: usize = 0;
    let mut i: usize = 0;
    while i < es.len()
        invariant
            i <= es@.len(),
            files == file_record_count(es@.subrange(0, i as int)),
            dirs == dir_record_count(es@.subrange(0, i as int)),
            files + dirs == i,
        decreases es@.len() - i,
    {
        assert(es@.subrange(0, i + 1).drop_last() =~= es@.subrange(0, i as int));
        match &es[i] {
            RpfEntry::File(_) => files += 1,
            RpfEntry::Directory(_) => dirs += 1,
        }
        i += 1;
    }
    assert(es@.subrange(0, i as int) =~= es@);
    (files, dirs)
}

/// The number of directories in the tree under `dir`, `dir` included.
pub fn count_directories(dir: &RpfDirectoryEntry) -> (r: usize)
    requires
        dir_count(*dir) <= usize::MAX,
    ensures
        r == dir_count(*dir),
    decreases dir,
{
    let ghost ds = dir.directories@;
    let mut count: usize = 1;
    let mut j: usize = 0;
    while j < dir.directories.len()
        invariant
            ds == dir.directories@,
            j <= ds.len(),
            dir_count(*dir) <= usize::MAX,
            count == 1 + dirs_under(ds.subrange(0, j as int)),
        decreases ds.len() - j,
    {
        assert(ds.subrange(0, j + 1).subrange(0, j as int) =~= ds.subrange(0, j as int));
        proof {
            lemma_dirs_under_prefix(ds, j + 1);
        }
        let sub = count_directories(&dir.directories[j]);
        count = count + sub;
        j += 1;
    }
    assert(ds.subrange(0, j as int) =~= ds);
    count
}

proof fn lemma_dirs_under_prefix(ds: Seq<RpfDirectoryEntry>, m: int)
    requires
        0 <= m <= ds.len(),
    ensures
        dirs_under(ds.subrange(0, m)) <= dirs_under(ds),
    decreases ds.len() - m,
{
    if m == ds.len() {
        assert(ds.subrange(0, m) =~= ds);
    } else {
        lemma_dirs_under_prefix(ds, m + 1);
        assert(ds.subrange(0, m + 1).subrange(0, m) =~= ds.subrange(0, m));
    }
}

/// A file with stored data at sector 0, where the header lies.
pub fn has_invalid_offset(f: &RpfFileEntry) -> (r: bool)
    ensures
        r == (f.offset == 0 && f.size > 0),
{
    f.offset == 0 && f.size > 0
}

/// A file whose stored size exceeds its uncompressed size.
pub fn stored_exceeds_uncompressed(f: &RpfFileEntry) -> (r: bool)
    ensures
        r == (f.size > 0 && f.uncompressed_size > 0 && f.size > f.uncompressed_size),
{
    f.size > 0 && f.uncompressed_size > 0 && f.size > f.uncompressed_size
}

/// The name of an entry record.
pub open spec fn record_name(e: RpfEntry) -> Seq<char> {
    match e {
        RpfEntry::Directory(d) => d.name@,
        RpfEntry::File(f) => f.name@,
    }
}

/// A path that is empty or does not begin with a slash.
pub open spec fn relative_or_empty(p: Seq<char>) -> bool {
    p.len() == 0 || p[0] != '/'
}

/// Every record of `es` has a non-empty name that does not begin with a slash.
pub open spec fn names_are_relative(es: Seq<RpfEntry>) -> bool {
    forall|i: int|
        0 <= i < es.len() ==> #[trigger] record_name(es[i]).len() > 0 && record_name(es[i])[0] != '/'
}

/// Every file under `d` has a non-empty path that does not begin with a slash.
pub open spec fn file_paths_relative(fs: Seq<RpfFileEntry>) -> bool {
    forall|k: int| 0 <= k < fs.len() ==> #[trigger] fs[k].path@.len() > 0 && fs[k].path@[0] != '/'
}

proof fn lemma_join_relative(parent: Seq<char>, name: Seq<char>)
    requires
        relative_or_empty(parent),
        name.len() > 0,
        name[0] != '/',
    ensures
        join_path(parent, name).len() > 0,
        join_path(parent, name)[0] != '/',
{
}

proof fn lemma_tree_paths(d: RpfDirectoryEntry, es: Seq<RpfEntry>, fuel: nat)
    requires
        populated(d, es, fuel),
        names_are_relative(es),
        relative_or_empty(d.path@),
    ensures
        file_paths_relative(all_files(d)),
    decreases fuel, 0nat,
{
    let lo = d.entries_index as int;
    let hi = d.entries_index + d.entries_count;
    let synthetic = is_synthetic(es, d.entries_index, d.name@);
    let fp = if synthetic {
        file_positions(es, 0, es.len() as int)
    } else {
        file_positions(es, lo, hi)
    };
    assert forall|k: int| 0 <= k < d.files@.len() implies #[trigger] d.files@[k].path@.len() > 0
        && d.files@[k].path@[0] != '/' by {
        lemma_positions_in_range(es, if synthetic { 0 } else { lo }, if synthetic { es.len() as int } else { hi });
        let src = es[fp[k]];
        assert(record_name(src).len() > 0 && record_name(src)[0] != '/');
        if !synthetic {
            lemma_join_relative(d.path@, record_name(src));
        }
    }
    let ds = d.directories@;
    if ds.len() > 0 {
        let dp = dir_positions(es, lo, hi);
        assert forall|k: int| 0 <= k < ds.len() implies populated(#[trigger] ds[k], es, (fuel - 1) as nat)
            && relative_or_empty(ds[k].path@) by {
            lemma_positions_in_range(es, lo, hi);
            let src = es[dp[k]];
            assert(record_name(src).len() > 0 && record_name(src)[0] != '/');
            lemma_join_relative(d.path@, record_name(src));
        }
        lemma_subtrees_paths(ds, es, (fuel - 1) as nat);
    } else {
        assert(files_under(ds) =~= Seq::<RpfFileEntry>::empty());
    }
    assert(file_paths_relative(files_under(ds)));
    let all = all_files(d);
    assert forall|k: int| 0 <= k < all.len() implies #[trigger] all[k].path@.len() > 0 && all[k].path@[0] != '/' by {
        if k < d.files@.len() {
            assert(all[k] == d.files@[k]);
        } else {
            assert(all[k] == files_under(ds)[k - d.files@.len()]);
        }
    }
}

proof fn lemma_subtrees_paths(ds: Seq<RpfDirectoryEntry>, es: Seq<RpfEntry>, fuel: nat)
    requires
        forall|k: int| 0 <= k < ds.len() ==> populated(#[trigger] ds[k], es, fuel) && relative_or_empty(ds[k].path@),
        names_are_relative(es),
    ensures
        file_paths_relative(files_under(ds)),
    decreases fuel, ds.len() + 1,
{
    if ds.len() > 0 {
        let init = ds.subrange(0, ds.len() - 1);
        assert forall|k: int| 0 <= k < init.len() implies populated(#[trigger] init[k], es, fuel) && relative_or_empty(init[k].path@) by {
            assert(init[k] == ds[k]);
        }
        lemma_subtrees_paths(init, es, fuel);
        lemma_tree_paths(ds[ds.len() - 1], es, fuel);
        let a = files_under(init);
        let b = all_files(ds[ds.len() - 1]);
        assert(files_under(ds) == a + b);
        assert forall|k: int| 0 <= k < (a + b).len() implies #[trigger] (a + b)[k].path@.len() > 0 && (a + b)[k].path@[0] != '/' by {
            if k < a.len() {
                assert((a + b)[k] == a[k]);
            } else {
                assert((a + b)[k] == b[k - a.len()]);
            }
        }
    }
}

proof fn lemma_positions_in_range(es: Seq<RpfEntry>, lo: int, hi: int)
    requires
        0 <= lo,
        hi <= es.len(),
    ensures
        forall|k: int| 0 <= k < file_positions(es, lo, hi).len() ==> lo <= #[trigger] file_positions(es, lo, hi)[k] < hi
            && es[file_positions(es, lo, hi)[k]] is File,
        forall|k: int| 0 <= k < dir_positions(es, lo, hi).len() ==> lo <= #[trigger] dir_positions(es, lo, hi)[k] < hi
            && es[dir_positions(es, lo, hi)[k]] is Directory,
    decreases hi - lo,
{
    if hi > lo {
        lemma_positions_in_range(es, lo, hi - 1);
    }
}

/// In the tree of an archive whose records all have non-empty names that do
/// not begin with a slash, every file's path is non-empty and does not begin
/// with a slash.
pub proof fn file_paths_are_relative(a: RpfArchive)
    requires
        is_tree_of(a.root, a.entries@),
        names_are_relative(a.entries@),
    ensures
        file_paths_relative(all_files(a.root)),
{
    lemma_tree_paths(a.root, a.entries@, a.entries@.len() as nat);
}

/// Extraction depends on nothing but the entry and the stored bytes: two
/// extractions of the same entry from the same bytes give the same outcome,
/// byte for byte.
pub proof fn extraction_is_repeatable(
    f: RpfFileEntry,
    data: Seq<u8>,
    first: Result<Vec<u8>, RpfError>,
    second: Result<Vec<u8>, RpfError>,
)
    requires
        result_bytes(first) == extracted(f, data),
        result_bytes(second) == extracted(f, data),
    ensures
        first is Ok <==> second is Ok,
        first matches Ok(v) ==> second matches Ok(w) && v@ == w@,
        first matches Err(e) ==> second == Err::<Vec<u8>, RpfError>(e),
{
}

/// Stored data that looks compressed and reads as a zlib stream is
/// extracted as exactly the data that stream holds.
pub proof fn compressed_data_is_inflated(
    f: RpfFileEntry,
    data: Seq<u8>,
    decoded: Seq<u8>,
    r: Result<Vec<u8>, RpfError>,
)
    requires
        looks_compressed(f),
        data.len() >= f.size,
        zlib_inflated(data.subrange(0, f.size as int)) == Some(decoded),
        result_bytes(r) == extracted(f, data),
    ensures
        r matches Ok(out) && out@ == decoded,
{
}

/// Every file and directory under `d` sits at the path of the directory
/// holding it joined with its own name.
pub open spec fn paths_joined(d: RpfDirectoryEntry) -> bool
    decreases d,
{
    &&& forall|k: int|
        0 <= k < d.files@.len() ==> #[trigger] d.files@[k].path@ == join_path(d.path@, d.files@[k].name@)
    &&& forall|k: int|
        0 <= k < d.directories@.len() ==> {
            &&& #[trigger] d.directories@[k].path@ == join_path(d.path@, d.directories@[k].name@)
            &&& paths_joined(d.directories@[k])
        }
}

proof fn lemma_paths_joined(d: RpfDirectoryEntry, es: Seq<RpfEntry>, fuel: nat)
    requires
        populated(d, es, fuel),
        es.len() > 0 && es[0] is File ==> d.path@.len() == 0 && d.entries_index == 0 && d.name@.len() == 0,
    ensures
        paths_joined(d),
    decreases fuel,
{
    let lo = d.entries_index as int;
    let hi = d.entries_index + d.entries_count;
    if is_synthetic(es, d.entries_index, d.name@) {
        let fp = file_positions(es, 0, es.len() as int);
        assert forall|k: int| 0 <= k < d.files@.len() implies #[trigger] d.files@[k].path@ == join_path(
            d.path@,
            d.files@[k].name@,
        ) by {
            assert(file_placed(d.files@[k], es[fp[k - 0]]->File_0, es[fp[k - 0]]->File_0.name@));
        }
    } else {
        let dp = dir_positions(es, lo, hi);
        assert forall|k: int| 0 <= k < d.directories@.len() implies {
            &&& #[trigger] d.directories@[k].path@ == join_path(d.path@, d.directories@[k].name@)
            &&& paths_joined(d.directories@[k])
        } by {
            lemma_positions_in_range(es, lo, hi);
            let c = d.directories@[k];
            assert(populated_from(c, 0, 0, es, (fuel - 1) as nat));
            lemma_paths_joined(c, es, (fuel - 1) as nat);
        }
    }
}

/// In the tree of any archive, every file and directory sits at the path of
/// the directory holding it joined with its own name: the bare name under the
/// root, `parent/name` deeper down.
pub proof fn tree_paths_are_joined(a: RpfArchive)
    requires
        is_tree_of(a.root, a.entries@),
    ensures
        paths_joined(a.root),
{
    lemma_paths_joined(a.root, a.entries@, a.entries@.len() as nat);
}

} // verus!
