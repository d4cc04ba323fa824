//! Reconstruction of the directory tree from the flat entry list: each
//! directory owns the consecutive range of entries that its record names.

use crate::entry::{RpfDirectoryEntry, RpfEntry, RpfFileEntry};
use crate::error::RpfError;
use vstd::prelude::*;
use vstd::string::*;

verus! {

/// The full path of a child named `name` of a directory whose path is
/// `parent`: the bare name at the root, else the two joined by a slash.
pub open spec fn join_path(parent: Seq<char>, name: Seq<char>) -> Seq<char> {
    if parent.len() == 0 {
        name
    } else {
        parent + seq!['/'] + name
    }
}

/// Positions of the file records among `es[lo..hi]`, in order.
pub open spec fn file_positions(es: Seq<RpfEntry>, lo: int, hi: int) -> Seq<int>
    decreases hi - lo,
{
    if hi <= lo {
        Seq::empty()
    } else if es[hi - 1] is File {
        file_positions(es, lo, hi - 1).push(hi - 1)
    } else {
        file_positions(es, lo, hi - 1)
    }
}

/// Positions of the directory records among `es[lo..hi]`, in order.
pub open spec fn dir_positions(es: Seq<RpfEntry>, lo: int, hi: int) -> Seq<int>
    decreases hi - lo,
{
    if hi <= lo {
        Seq::empty()
    } else if es[hi - 1] is Directory {
        dir_positions(es, lo, hi - 1).push(hi - 1)
    } else {
        dir_positions(es, lo, hi - 1)
    }
}

/// The compatibility case of a nameless directory at index 0 in a list that
/// begins with a file: it receives every file of the list.
pub open spec fn is_synthetic(es: Seq<RpfEntry>, index: u32, name: Seq<char>) -> bool {
    index == 0 && name.len() == 0 && es.len() > 0 && es[0] is File
}

/// `f` is the file record `src` placed at `path`.
pub open spec fn file_placed(f: RpfFileEntry, src: RpfFileEntry, path: Seq<char>) -> bool {
    &&& f.name@ == src.name@
    &&& f.path@ == path
    &&& f.offset == src.offset
    &&& f.size == src.size
    &&& f.uncompressed_size == src.uncompressed_size
    &&& f.is_resource == src.is_resource
}

/// `d` carries the record fields of directory `src`, placed at `path`.
pub open spec fn dir_placed(d: RpfDirectoryEntry, src: RpfDirectoryEntry, path: Seq<char>) -> bool {
    &&& d.name@ == src.name@
    &&& d.path@ == path
    &&& d.entries_index == src.entries_index
    &&& d.entries_count == src.entries_count
}

/// The outcome of building the subtree of a directory with the given record
/// fields: the child range must lie inside the list, and each directory child
/// is built in turn, nesting at most `fuel` levels further.
pub open spec fn walk_dir(es: Seq<RpfEntry>, index: u32, count: u32, name: Seq<char>, fuel: nat) -> Result<(), RpfError>
    decreases fuel, es.len() + 1,
{
    if index + count > es.len() {
        Err(RpfError::EntryRangeOutOfBounds)
    } else if is_synthetic(es, index, name) {
        Ok(())
    } else {
        walk_children(es, index as int, index + count, fuel)
    }
}

/// The outcome of building the directory children among `es[i..hi]`, in
/// order, stopping at the first failure.
pub open spec fn walk_children(es: Seq<RpfEntry>, i: int, hi: int, fuel: nat) -> Result<(), RpfError>
    decreases fuel, hi - i,
{
    if i < 0 || i >= hi || hi > es.len() {
        Ok(())
    } else {
        match es[i] {
            RpfEntry::Directory(c) => {
                if fuel == 0 {
                    Err(RpfError::DirectoryCycle)
                } else {
                    match walk_dir(es, c.entries_index, c.entries_count, c.name@, (fuel - 1) as nat) {
                        Err(e) => Err(e),
                        Ok(_) => walk_children(es, i + 1, hi, fuel),
                    }
                }
            },
            RpfEntry::File(_) => walk_children(es, i + 1, hi, fuel),
        }
    }
}

/// After its first `nf` files and `nd` directories, `d` holds exactly the
/// children that its record's range names in `es`: the file records of the
/// range, in order, each at `d`'s path joined with its name, and the
/// directory records of the range, in order, each placed the same way and
/// populated in turn. In the compatibility case the files after the first
/// `nf` are every file of `es`, each at its bare name, and no directories
/// follow the first `nd`.
pub open spec fn populated_from(d: RpfDirectoryEntry, nf: int, nd: int, es: Seq<RpfEntry>, fuel: nat) -> bool
    decreases fuel,
{
    let lo = d.entries_index as int;
    let hi = d.entries_index + d.entries_count;
    &&& hi <= es.len()
    &&& 0 <= nf
    &&& 0 <= nd
    &&& if is_synthetic(es, d.entries_index, d.name@) {
        let fp = file_positions(es, 0, es.len() as int);
        &&& d.directories@.len() == nd
        &&& d.files@.len() == nf + fp.len()
        &&& forall|k: int|
            nf <= k < d.files@.len() ==> file_placed(
                #[trigger] d.files@[k],
                es[fp[k - nf]]->File_0,
                es[fp[k - nf]]->File_0.name@,
            )
    } else {
        let fp = file_positions(es, lo, hi);
        let dp = dir_positions(es, lo, hi);
        &&& d.files@.len() == nf + fp.len()
        &&& forall|k: int|
            nf <= k < d.files@.len() ==> file_placed(
                #[trigger] d.files@[k],
                es[fp[k - nf]]->File_0,
                join_path(d.path@, es[fp[k - nf]]->File_0.name@),
            )
        &&& d.directories@.len() == nd + dp.len()
        &&& dp.len() > 0 ==> fuel > 0
        &&& forall|k: int|
            nd <= k < d.directories@.len() ==> {
                &&& dir_placed(
                    #[trigger] d.directories@[k],
                    es[dp[k - nd]]->Directory_0,
                    join_path(d.path@, es[dp[k - nd]]->Directory_0.name@),
                )
                &&& populated_from(d.directories@[k], 0, 0, es, (fuel - 1) as nat)
            }
    }
}

/// `d` holds exactly the children that its record's range names in `es`
/// (see `populated_from`), and nothing else.
pub open spec fn populated(d: RpfDirectoryEntry, es: Seq<RpfEntry>, fuel: nat) -> bool {
    populated_from(d, 0, 0, es, fuel)
}

/// The child path: the bare name under the root, else `parent/name`.
pub fn join(parent: &String, name: &String) -> (r: String)
    ensures
        r@ == join_path(parent@, name@),
{
    if parent.as_str().is_empty() {
        name.clone()
    } else {
        let mut p = parent.clone();
        p.append("/");
        p.append(name.as_str());
        proof {
            reveal_strlit("/");
        }
        p
    }
}

/// A copy of file record `f` placed at `path`.
fn place_file(f: &RpfFileEntry, path: String) -> (r: RpfFileEntry)
    ensures
        file_placed(r, *f, path@),
{
    RpfFileEntry {
        name: f.name.clone(),
        path,
        offset: f.offset,
        size: f.size,
        uncompressed_size: f.uncompressed_size,
        is_resource: f.is_resource,
    }
}

/// Appends to `dir` its children from `all`, after the children it already
/// holds, nesting at most `depth` levels further down.
pub fn populate_directory(dir: &mut RpfDirectoryEntry, all: &[RpfEntry], depth: usize) -> (r: Result<(), RpfError>)
    ensures
        final(dir).files@.len() >= old(dir).files@.len(),
        final(dir).directories@.len() >= old(dir).directories@.len(),
        forall|k: int| 0 <= k < old(dir).files@.len() ==> #[trigger] final(dir).files@[k] == old(dir).files@[k],
        forall|k: int|
            0 <= k < old(dir).directories@.len() ==> #[trigger] final(dir).directories@[k] == old(
                dir,
            ).directories@[k],
        final(dir).name == old(dir).name,
        final(dir).path == old(dir).path,
        final(dir).entries_index == old(dir).entries_index,
        final(dir).entries_count == old(dir).entries_count,
        r == walk_dir(all@, old(dir).entries_index, old(dir).entries_count, old(dir).name@, depth as nat),
        r is Ok ==> populated_from(
            *final(dir),
            old(dir).files@.len() as int,
            old(dir).directories@.len() as int,
            all@,
            depth as nat,
        ),
    decreases depth,
{
    let ghost es = all@;
    let ghost nf = dir.files@.len() as int;
    let ghost nd = dir.directories@.len() as int;
    let start = dir.entries_index as usize;
    if dir.entries_index as u64 + dir.entries_count as u64 > all.len() as u64 {
        return Err(RpfError::EntryRangeOutOfBounds);
    }
    let end = start + dir.entries_count as usize;
    let synthetic = dir.entries_index == 0 && dir.name.as_str().is_empty() && all.len() > 0
        && matches!(all[0], RpfEntry::File(_));
    if synthetic {
        let mut j: usize = 0;
        while j < all.len()
            invariant
                j <= es.len(),
                all@ == es,
                dir.name == old(dir).name,
                dir.path == old(dir).path,
                dir.entries_index == old(dir).entries_index,
                dir.entries_count == old(dir).entries_count,
                nf == old(dir).files@.len(),
                nd == old(dir).directories@.len(),
                dir.directories@ == old(dir).directories@,
                forall|k: int| 0 <= k < nf ==> #[trigger] dir.files@[k] == old(dir).files@[k],
                dir.files@.len() == nf + file_positions(es, 0, j as int).len(),
                forall|k: int|
                    nf <= k < dir.files@.len() ==> file_placed(
                        #[trigger] dir.files@[k],
                        es[file_positions(es, 0, j as int)[k - nf]]->File_0,
                        es[file_positions(es, 0, j as int)[k - nf]]->File_0.name@,
                    ),
            decreases es.len() - j,
        {
            if let RpfEntry::File(f) = &all[j] {
                let placed = place_file(f, f.name.clone());
                dir.files.push(placed);
            }
            j += 1;
        }
        return Ok(());
    }
    let mut i: usize = start;
    while i < end
        invariant
            start <= i <= end <= es.len(),
            start == dir.entries_index,
            end == dir.entries_index + dir.entries_count,
            all@ == es,
            !is_synthetic(es, dir.entries_index, dir.name@),
            dir.name == old(dir).name,
            dir.path == old(dir).path,
            dir.entries_index == old(dir).entries_index,
            dir.entries_count == old(dir).entries_count,
            walk_dir(es, dir.entries_index, dir.entries_count, dir.name@, depth as nat)
                == walk_children(es, i as int, end as int, depth as nat),
            nf == old(dir).files@.len(),
            nd == old(dir).directories@.len(),
            forall|k: int| 0 <= k < nf ==> #[trigger] dir.files@[k] == old(dir).files@[k],
            forall|k: int| 0 <= k < nd ==> #[trigger] dir.directories@[k] == old(dir).directories@[k],
            dir.files@.len() == nf + file_positions(es, start as int, i as int).len(),
            forall|k: int|
                nf <= k < dir.files@.len() ==> file_placed(
                    #[trigger] dir.files@[k],
                    es[file_positions(es, start as int, i as int)[k - nf]]->File_0,
                    join_path(dir.path@, es[file_positions(es, start as int, i as int)[k - nf]]->File_0.name@),
                ),
            dir.directories@.len() == nd + dir_positions(es, start as int, i as int).len(),
            dir_positions(es, start as int, i as int).len() > 0 ==> depth > 0,
            forall|k: int|
                nd <= k < dir.directories@.len() ==> {
                    &&& dir_placed(
                        #[trigger] dir.directories@[k],
                        es[dir_positions(es, start as int, i as int)[k - nd]]->Directory_0,
                        join_path(dir.path@, es[dir_positions(es, start as int, i as int)[k - nd]]->Directory_0.name@),
                    )
                    &&& populated_from(dir.directories@[k], 0, 0, es, (depth - 1) as nat)
                },
        decreases end - i,
    {
        match &all[i] {
            RpfEntry::Directory(sub) => {
                if depth == 0 {
                    return Err(RpfError::DirectoryCycle);
                }
                let path = join(&dir.path, &sub.name);
                let mut child = RpfDirectoryEntry {
                    name: sub.name.clone(),
                    path,
                    entries_index: sub.entries_index,
                    entries_count: sub.entries_count,
                    files: Vec::new(),
                    directories: Vec::new(),
                };
                let res = populate_directory(&mut child, all, depth - 1);
                if res.is_err() {
                    return res;
                }
                dir.directories.push(child);
            },
            RpfEntry::File(f) => {
                let path = join(&dir.path, &f.name);
                let placed = place_file(f, path);
                dir.files.push(placed);
                assert(dir_positions(es, start as int, i + 1) == dir_positions(es, start as int, i as int));
            },
        }
        i += 1;
    }
    Ok(())
}


/// Child index of the root: the first record's when it is a directory, else 0.
pub open spec fn root_index(es: Seq<RpfEntry>) -> u32 {
    if es.len() > 0 && es[0] is Directory {
        es[0]->Directory_0.entries_index
    } else {
        0
    }
}

/// Child count of the root: the first record's when it is a directory, else
/// the whole list.
pub open spec fn root_count(es: Seq<RpfEntry>) -> u32 {
    if es.len() > 0 && es[0] is Directory {
        es[0]->Directory_0.entries_count
    } else {
        es.len() as u32
    }
}

/// Name of the root: the first record's when it is a directory, else empty.
pub open spec fn root_name(es: Seq<RpfEntry>) -> Seq<char> {
    if es.len() > 0 && es[0] is Directory {
        es[0]->Directory_0.name@
    } else {
        Seq::empty()
    }
}

/// The outcome of building the tree of `es`.
pub open spec fn build_outcome(es: Seq<RpfEntry>) -> Result<(), RpfError> {
    walk_dir(es, root_index(es), root_count(es), root_name(es), es.len() as nat)
}

/// `root` is the tree built from `es`.
pub open spec fn is_tree_of(root: RpfDirectoryEntry, es: Seq<RpfEntry>) -> bool {
    &&& root.name@ == root_name(es)
    &&& root.path@.len() == 0
    &&& root.entries_index == root_index(es)
    &&& root.entries_count == root_count(es)
    &&& populated(root, es, es.len() as nat)
}

/// Builds the directory tree of the flat entry list. The root is the first
/// record when it is a directory, else a nameless directory over the whole
/// list (an empty one for an empty list); either way it has the empty path.
pub fn build_directory_structure(entries: &[RpfEntry]) -> (r: Result<RpfDirectoryEntry, RpfError>)
    requires
        entries@.len() <= u32::MAX,
    ensures
        r is Ok <==> build_outcome(entries@) is Ok,
        r matches Err(e) ==> build_outcome(entries@) == Err::<(), RpfError>(e),
        r matches Ok(root) ==> is_tree_of(root, entries@),
        entries@.len() == 0 ==> r is Ok,
{
    let first_is_dir = entries.len() > 0 && matches!(entries[0], RpfEntry::Directory(_));
    let mut root = if first_is_dir {
        match &entries[0] {
            RpfEntry::Directory(d) => RpfDirectoryEntry {
                name: d.name.clone(),
                path: String::new(),
                entries_index: d.entries_index,
                entries_count: d.entries_count,
                files: Vec::new(),
                directories: Vec::new(),
            },
            RpfEntry::File(_) => nameless_root(0),
        }
    } else {
        nameless_root(entries.len() as u32)
    };
    assert(root.files@.len() == 0 && root.directories@.len() == 0);
    assert(root.name@ == root_name(entries@));
    match populate_directory(&mut root, entries, entries.len()) {
        Ok(()) => Ok(root),
        Err(e) => Err(e),
    }
}

/// A nameless root directory at the empty path claiming `count` records from
/// index 0.
fn nameless_root(count: u32) -> (r: RpfDirectoryEntry)
    ensures
        r.name@.len() == 0,
        r.path@.len() == 0,
        r.entries_index == 0,
        r.entries_count == count,
        r.files@.len() == 0,
        r.directories@.len() == 0,
{
    RpfDirectoryEntry {
        name: String::new(),
        path: String::new(),
        entries_index: 0,
        entries_count: count,
        files: Vec::new(),
        directories: Vec::new(),
    }
}

} // verus!
