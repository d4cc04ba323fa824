//! How the tree accounts for the records of the entry table: the records
//! that building it visits, and the files and directories it then holds.

use crate::archive::{all_files, dir_count, dir_record_count, dirs_under, file_record_count, files_under, RpfArchive};
use crate::entry::{RpfDirectoryEntry, RpfEntry};
use crate::tree::{dir_placed, dir_positions, file_positions, is_synthetic, is_tree_of, join_path, populated, root_count, root_index, root_name};
use vstd::prelude::*;
use vstd::seq_lib::group_to_multiset_ensures;

verus! {

/// Positions of the records that building the subtree of a directory with
/// these record fields visits: each index of its child range, each directory
/// child followed by what its own subtree visits; in the compatibility case,
/// the file records of the whole list.
pub open spec fn visited_dir(es: Seq<RpfEntry>, index: u32, count: u32, name: Seq<char>, fuel: nat) -> Seq<int>
    decreases fuel, es.len() + 1,
{
    if index + count > es.len() {
        Seq::empty()
    } else if is_synthetic(es, index, name) {
        file_positions(es, 0, es.len() as int)
    } else {
        visited_range(es, index as int, index + count, fuel)
    }
}

/// Positions visited for the children among `es[lo..hi]`.
pub open spec fn visited_range(es: Seq<RpfEntry>, lo: int, hi: int, fuel: nat) -> Seq<int>
    decreases fuel, hi - lo,
{
    if hi <= lo || lo < 0 || hi > es.len() {
        Seq::empty()
    } else {
        let prev = visited_range(es, lo, hi - 1, fuel).push(hi - 1);
        match es[hi - 1] {
            RpfEntry::Directory(c) => if fuel == 0 {
                prev
            } else {
                prev + visited_dir(es, c.entries_index, c.entries_count, c.name@, (fuel - 1) as nat)
            },
            RpfEntry::File(_) => prev,
        }
    }
}

/// 1 where position `x` holds a file record of `es`, else 0.
pub open spec fn file_at(es: Seq<RpfEntry>, x: int) -> nat {
    if 0 <= x < es.len() && es[x] is File {
        1
    } else {
        0
    }
}

/// 1 where position `x` holds a directory record of `es`, else 0.
pub open spec fn dir_at(es: Seq<RpfEntry>, x: int) -> nat {
    if 0 <= x < es.len() && es[x] is Directory {
        1
    } else {
        0
    }
}

/// Number of positions in `v` that hold a file record of `es`.
pub open spec fn files_at(es: Seq<RpfEntry>, v: Seq<int>) -> nat
    decreases v.len(),
{
    if v.len() == 0 {
        0
    } else {
        files_at(es, v.drop_last()) + file_at(es, v.last())
    }
}

/// Number of positions in `v` that hold a directory record of `es`.
pub open spec fn dirs_at(es: Seq<RpfEntry>, v: Seq<int>) -> nat
    decreases v.len(),
{
    if v.len() == 0 {
        0
    } else {
        dirs_at(es, v.drop_last()) + dir_at(es, v.last())
    }
}

/// The positions `1, 2, ..., n - 1`.
pub open spec fn after_root(n: int) -> Seq<int> {
    Seq::new((n - 1) as nat, |i: int| i + 1)
}

/// The root is a directory record and building the tree visits every other
/// record exactly once.
pub open spec fn visits_each_record_once(es: Seq<RpfEntry>) -> bool {
    &&& es.len() > 0
    &&& es[0] is Directory
    &&& visited_dir(es, root_index(es), root_count(es), root_name(es), es.len() as nat).to_multiset()
        == after_root(es.len() as int).to_multiset()
}

proof fn lemma_counts_concat(es: Seq<RpfEntry>, a: Seq<int>, b: Seq<int>)
    ensures
        files_at(es, a + b) == files_at(es, a) + files_at(es, b),
        dirs_at(es, a + b) == dirs_at(es, a) + dirs_at(es, b),
    decreases b.len(),
{
    if b.len() == 0 {
        assert(a + b =~= a);
    } else {
        lemma_counts_concat(es, a, b.drop_last());
        assert((a + b).drop_last() =~= a + b.drop_last());
    }
}

proof fn lemma_counts_remove(es: Seq<RpfEntry>, w: Seq<int>, j: int)
    requires
        0 <= j < w.len(),
    ensures
        files_at(es, w) == files_at(es, w.remove(j)) + file_at(es, w[j]),
        dirs_at(es, w) == dirs_at(es, w.remove(j)) + dir_at(es, w[j]),
    decreases w.len(),
{
    if j == w.len() - 1 {
        assert(w.remove(j) =~= w.drop_last());
    } else {
        lemma_counts_remove(es, w.drop_last(), j);
        assert(w.remove(j).drop_last() =~= w.drop_last().remove(j));
        assert(w.remove(j).last() == w.last());
    }
}

proof fn lemma_counts_permutation(es: Seq<RpfEntry>, v: Seq<int>, w: Seq<int>)
    requires
        v.to_multiset() == w.to_multiset(),
    ensures
        files_at(es, v) == files_at(es, w),
        dirs_at(es, v) == dirs_at(es, w),
    decreases v.len(),
{
    broadcast use group_to_multiset_ensures;

    if v.len() == 0 {
        assert(w.to_multiset().len() == 0);
    } else {
        let x = v.last();
        assert(v[v.len() - 1] == x);
        assert(v.contains(x));
        assert(v.to_multiset().count(x) > 0);
        assert(w.to_multiset().count(x) > 0);
        assert(w.contains(x));
        let j = choose|j: int| 0 <= j < w.len() && w[j] == x;
        assert(v.drop_last() =~= v.remove(v.len() - 1));
        assert(v.drop_last().to_multiset() =~= w.remove(j).to_multiset());
        lemma_counts_permutation(es, v.drop_last(), w.remove(j));
        lemma_counts_remove(es, w, j);
    }
}

proof fn lemma_counts_after_root(es: Seq<RpfEntry>, m: int)
    requires
        0 <= m < es.len(),
    ensures
        files_at(es, after_root(m + 1)) + (if es[0] is File { 1nat } else { 0nat })
            == file_record_count(es.subrange(0, m + 1)),
        dirs_at(es, after_root(m + 1)) + (if es[0] is Directory { 1nat } else { 0nat })
            == dir_record_count(es.subrange(0, m + 1)),
    decreases m,
{
    let s = es.subrange(0, m + 1);
    assert(s.last() == es[m]);
    if m == 0 {
        assert(after_root(1) =~= Seq::<int>::empty());
        assert(files_at(es, Seq::<int>::empty()) == 0);
        assert(dirs_at(es, Seq::<int>::empty()) == 0);
        assert(s.drop_last() =~= Seq::<RpfEntry>::empty());
        assert(file_record_count(Seq::<RpfEntry>::empty()) == 0);
        assert(dir_record_count(Seq::<RpfEntry>::empty()) == 0);
    } else {
        lemma_counts_after_root(es, m - 1);
        assert(after_root(m + 1).drop_last() =~= after_root(m));
        assert(after_root(m + 1).last() == m);
        assert(s.drop_last() =~= es.subrange(0, m));
    }
}

proof fn lemma_positions_prefix(es: Seq<RpfEntry>, lo: int, h: int, hi: int)
    requires
        lo <= h <= hi,
    ensures
        dir_positions(es, lo, h).len() <= dir_positions(es, lo, hi).len(),
        forall|k: int|
            0 <= k < dir_positions(es, lo, h).len() ==> #[trigger] dir_positions(es, lo, h)[k]
                == dir_positions(es, lo, hi)[k],
    decreases hi - h,
{
    if h < hi {
        lemma_positions_prefix(es, lo, h, hi - 1);
    }
}

proof fn lemma_all_files_positions(es: Seq<RpfEntry>, lo: int, hi: int)
    requires
        0 <= lo,
        hi <= es.len(),
    ensures
        files_at(es, file_positions(es, lo, hi)) == file_positions(es, lo, hi).len(),
        dirs_at(es, file_positions(es, lo, hi)) == 0,
    decreases hi - lo,
{
    if hi > lo {
        lemma_all_files_positions(es, lo, hi - 1);
        if es[hi - 1] is File {
            assert(file_positions(es, lo, hi).drop_last() =~= file_positions(es, lo, hi - 1));
        }
    }
}

/// The files and directories of a populated subtree are those of the
/// records its construction visits.
proof fn lemma_tree_counts(d: RpfDirectoryEntry, es: Seq<RpfEntry>, fuel: nat)
    requires
        populated(d, es, fuel),
    ensures
        all_files(d).len() == files_at(es, visited_dir(es, d.entries_index, d.entries_count, d.name@, fuel)),
        dir_count(d) == 1 + dirs_at(es, visited_dir(es, d.entries_index, d.entries_count, d.name@, fuel)),
    decreases fuel, es.len() + 1,
{
    let lo = d.entries_index as int;
    let hi = d.entries_index + d.entries_count;
    assert(d.directories@.subrange(0, 0) =~= Seq::<RpfDirectoryEntry>::empty());
    if is_synthetic(es, d.entries_index, d.name@) {
        assert(d.directories@ =~= Seq::<RpfDirectoryEntry>::empty());
        lemma_all_files_positions(es, 0, es.len() as int);
    } else {
        lemma_range_counts(d, es, fuel, hi);
        assert(d.directories@.subrange(0, d.directories@.len() as int) =~= d.directories@);
    }
}

proof fn lemma_range_counts(d: RpfDirectoryEntry, es: Seq<RpfEntry>, fuel: nat, h: int)
    requires
        populated(d, es, fuel),
        !is_synthetic(es, d.entries_index, d.name@),
        d.entries_index <= h <= d.entries_index + d.entries_count,
    ensures
        ({
            let lo = d.entries_index as int;
            let n = dir_positions(es, lo, h).len() as int;
            let sub = d.directories@.subrange(0, n);
            &&& n <= d.directories@.len()
            &&& files_at(es, visited_range(es, lo, h, fuel)) == file_positions(es, lo, h).len()
                + files_under(sub).len()
            &&& dirs_at(es, visited_range(es, lo, h, fuel)) == dirs_under(sub)
        }),
    decreases fuel, h - d.entries_index,
{
    let lo = d.entries_index as int;
    let hi = d.entries_index + d.entries_count;
    let ds = d.directories@;
    lemma_positions_prefix(es, lo, h, hi);
    if h == lo {
        assert(ds.subrange(0, 0) =~= Seq::<RpfDirectoryEntry>::empty());
    } else {
        lemma_range_counts(d, es, fuel, h - 1);
        let prev = visited_range(es, lo, h - 1, fuel);
        let n0 = dir_positions(es, lo, h - 1).len() as int;
        assert(prev.push(h - 1).drop_last() =~= prev);
        assert(files_at(es, prev.push(h - 1)) == files_at(es, prev) + file_at(es, h - 1));
        assert(dirs_at(es, prev.push(h - 1)) == dirs_at(es, prev) + dir_at(es, h - 1));
        match es[h - 1] {
            RpfEntry::Directory(c) => {
                lemma_positions_prefix(es, lo, h - 1, hi);
                assert(dir_positions(es, lo, h)[n0] == h - 1);
                let child = ds[n0];
                assert(dir_placed(child, c, join_path(d.path@, c.name@)));
                lemma_tree_counts(child, es, (fuel - 1) as nat);
                lemma_counts_concat(es, prev.push(h - 1), visited_dir(es, c.entries_index, c.entries_count, c.name@, (fuel - 1) as nat));
                assert(ds.subrange(0, n0 + 1).subrange(0, n0) =~= ds.subrange(0, n0));
            },
            RpfEntry::File(_) => {},
        }
    }
}

/// For an archive whose tree visits every record but the root exactly once,
/// listing finds one file per file record and the tree holds one directory
/// per directory record.
pub proof fn listing_counts_records(a: RpfArchive)
    requires
        is_tree_of(a.root, a.entries@),
        visits_each_record_once(a.entries@),
    ensures
        all_files(a.root).len() == file_record_count(a.entries@),
        dir_count(a.root) == dir_record_count(a.entries@),
{
    let es = a.entries@;
    let v = visited_dir(es, root_index(es), root_count(es), root_name(es), es.len() as nat);
    lemma_tree_counts(a.root, es, es.len() as nat);
    lemma_counts_permutation(es, v, after_root(es.len() as int));
    lemma_counts_after_root(es, es.len() - 1);
    assert(es.subrange(0, es.len() as int) =~= es);
}

} // verus!
