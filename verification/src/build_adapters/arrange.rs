//! Measured directories in another order than the index's.

use super::container::{dir_refs, lemma_filter_step, DirModel, FoldedDir};
use crate::order::{at_places, falling_key, keys_of, push_falling, sort_places, stable_places};
use crate::path::path_key;
use vstd::prelude::*;

verus! {

pub open spec fn path_keys(rows: Seq<DirModel>) -> Seq<Seq<u32>> {
    Seq::new(rows.len(), |i: int| path_key(rows[i].path))
}

pub open spec fn size_keys(rows: Seq<DirModel>) -> Seq<Seq<u32>> {
    Seq::new(rows.len(), |i: int| falling_key(rows[i].allocated_total))
}

/// Rows in path order.
pub open spec fn by_path(rows: Seq<DirModel>) -> Seq<DirModel> {
    at_places(rows, stable_places(path_keys(rows)))
}

/// Rows in size order, the largest first.
pub open spec fn by_size(rows: Seq<DirModel>) -> Seq<DirModel> {
    at_places(rows, stable_places(size_keys(rows)))
}

pub fn sort_by_path<'a>(dirs: &Vec<&'a FoldedDir>) -> (r: Vec<&'a FoldedDir>)
    ensures
        dir_refs(r@) == by_path(dir_refs(dirs@)),
{
    let ghost rows = dir_refs(dirs@);
    let mut keys: Vec<Vec<u32>> = Vec::new();
    let mut i: usize = 0;
    while i < dirs.len()
        invariant
            i <= dirs@.len(),
            rows == dir_refs(dirs@),
            keys_of(keys@) == path_keys(rows).take(i as int),
        decreases dirs@.len() - i,
    {
        let k = dirs[i].path.key();
        let ghost prior = keys@;
        assert(rows[i as int] == dirs@[i as int]@);
        keys.push(k);
        i += 1;
        assert(keys_of(keys@) =~= keys_of(prior).push(k@));
        assert(keys_of(keys@) =~= path_keys(rows).take(i as int));
    }
    assert(path_keys(rows).take(i as int) =~= path_keys(rows));
    let order = sort_places(&keys);
    take_places(dirs, &order)
}

pub fn sort_by_size<'a>(dirs: &Vec<&'a FoldedDir>) -> (r: Vec<&'a FoldedDir>)
    ensures
        dir_refs(r@) == by_size(dir_refs(dirs@)),
{
    let ghost rows = dir_refs(dirs@);
    let mut keys: Vec<Vec<u32>> = Vec::new();
    let mut i: usize = 0;
    while i < dirs.len()
        invariant
            i <= dirs@.len(),
            rows == dir_refs(dirs@),
            keys_of(keys@) == size_keys(rows).take(i as int),
        decreases dirs@.len() - i,
    {
        let mut k: Vec<u32> = Vec::new();
        push_falling(&mut k, dirs[i].allocated_total);
        let ghost prior = keys@;
        assert(rows[i as int] == dirs@[i as int]@);
        assert(k@ =~= falling_key(rows[i as int].allocated_total));
        keys.push(k);
        i += 1;
        assert(keys_of(keys@) =~= keys_of(prior).push(k@));
        assert(keys_of(keys@) =~= size_keys(rows).take(i as int));
    }
    assert(size_keys(rows).take(i as int) =~= size_keys(rows));
    let order = sort_places(&keys);
    take_places(dirs, &order)
}

fn take_places<'a>(dirs: &Vec<&'a FoldedDir>, order: &Vec<usize>) -> (r: Vec<&'a FoldedDir>)
    requires
        forall|i: int| 0 <= i < order@.len() ==> 0 <= #[trigger] order@[i] < dirs@.len(),
    ensures
        dir_refs(r@) == at_places(dir_refs(dirs@), order@),
{
    let ghost rows = dir_refs(dirs@);
    let ghost want = at_places(rows, order@);
    let mut out: Vec<&'a FoldedDir> = Vec::new();
    let mut i: usize = 0;
    assert(dir_refs(out@) =~= want.take(0));
    while i < order.len()
        invariant
            i <= order@.len(),
            forall|k: int| 0 <= k < order@.len() ==> 0 <= #[trigger] order@[k] < dirs@.len(),
            rows == dir_refs(dirs@),
            want == at_places(rows, order@),
            dir_refs(out@) == want.take(i as int),
        decreases order@.len() - i,
    {
        assert(order@[i as int] < dirs@.len());
        let d = dirs[order[i]];
        let ghost prior = out@;
        out.push(d);
        assert(want[i as int] == d@);
        i += 1;
        assert(dir_refs(out@) =~= dir_refs(prior).push(d@));
        assert(dir_refs(out@) =~= want.take(i as int));
    }
    assert(want.take(i as int) =~= want);
    out
}

/// The rows that `f` accepts, in order.
pub fn filter_dirs<'a, F: Fn(&FoldedDir) -> bool>(
    dirs: &Vec<&'a FoldedDir>,
    f: F,
    Ghost(g): Ghost<spec_fn(DirModel) -> bool>,
) -> (r: Vec<&'a FoldedDir>)
    requires
        forall|d: &FoldedDir| #[trigger] f.requires((d,)),
        forall|d: &FoldedDir, out: bool| #[trigger] f.ensures((d,), out) ==> out == g(d@),
    ensures
        dir_refs(r@) == dir_refs(dirs@).filter(g),
{
    let ghost rows = dir_refs(dirs@);
    let mut out: Vec<&'a FoldedDir> = Vec::new();
    let mut i: usize = 0;
    assert(dir_refs(out@) =~= rows.take(0).filter(g)) by {
        reveal(Seq::filter);
    }
    while i < dirs.len()
        invariant
            i <= dirs@.len(),
            rows == dir_refs(dirs@),
            forall|d: &FoldedDir| #[trigger] f.requires((d,)),
            forall|d: &FoldedDir, o: bool| #[trigger] f.ensures((d,), o) ==> o == g(d@),
            dir_refs(out@) == rows.take(i as int).filter(g),
        decreases dirs@.len() - i,
    {
        let d = dirs[i];
        assert(rows[i as int] == d@);
        let ghost prior = out@;
        if f(d) {
            out.push(d);
            assert(dir_refs(out@) =~= dir_refs(prior).push(d@));
        }
        proof {
            lemma_filter_step(rows, g, i as int);
        }
        i += 1;
    }
    assert(rows.take(i as int) =~= rows);
    out
}

/// How many of `len` rows are among the first `n`.
pub open spec fn first_of(len: nat, n: nat) -> int {
    if len < n {
        len as int
    } else {
        n as int
    }
}

/// The first `n` rows, and those after them.
pub fn split_dirs<'a>(dirs: &Vec<&'a FoldedDir>, n: usize) -> (r: (Vec<&'a FoldedDir>, Vec<&'a FoldedDir>))
    ensures
        dir_refs(r.0@) == dir_refs(dirs@).take(first_of(dirs@.len(), n as nat)),
        dir_refs(r.1@) == dir_refs(dirs@).skip(first_of(dirs@.len(), n as nat)),
{
    let ghost rows = dir_refs(dirs@);
    let cut: usize = if dirs.len() < n {
        dirs.len()
    } else {
        n
    };
    let mut first: Vec<&'a FoldedDir> = Vec::new();
    let mut i: usize = 0;
    assert(dir_refs(first@) =~= rows.take(0));
    while i < cut
        invariant
            i <= cut <= dirs@.len(),
            rows == dir_refs(dirs@),
            dir_refs(first@) == rows.take(i as int),
        decreases cut - i,
    {
        let ghost prior = first@;
        first.push(dirs[i]);
        i += 1;
        assert(dir_refs(first@) =~= dir_refs(prior).push(dirs@[i - 1]@));
        assert(dir_refs(first@) =~= rows.take(i as int));
    }
    let mut rest: Vec<&'a FoldedDir> = Vec::new();
    assert(dir_refs(rest@) =~= rows.subrange(cut as int, cut as int));
    while i < dirs.len()
        invariant
            cut <= i <= dirs@.len(),
            rows == dir_refs(dirs@),
            dir_refs(rest@) == rows.subrange(cut as int, i as int),
        decreases dirs@.len() - i,
    {
        let ghost prior = rest@;
        rest.push(dirs[i]);
        i += 1;
        assert(dir_refs(rest@) =~= dir_refs(prior).push(dirs@[i - 1]@));
        assert(dir_refs(rest@) =~= rows.subrange(cut as int, i as int));
    }
    assert(rows.subrange(cut as int, i as int) =~= rows.skip(cut as int));
    (first, rest)
}

} // verus!
