//! Facts about lists of units and of measured directories that the laws of the
//! adapters share.

use super::adapter::flat;
use super::arrange::{by_size, size_keys};
use super::container::{child_rows, rows_ordered, DirModel};
use crate::artifact::UnitModel;
use crate::order::{before, lemma_lex_irreflexive, lemma_stable_places, place_in, stable_places};
use crate::path::{law_path_order_is_total, parent, same_opt, same_path, PathModel};
use vstd::prelude::*;

verus! {

/// Whether a measured directory lies directly in a directory.
pub open spec fn directly_in(d: DirModel, path: PathModel) -> bool {
    same_opt(parent(d.path), path)
}

/// Whether no two rows have one path.
pub open spec fn apart(rows: Seq<DirModel>) -> bool {
    forall|i: int, j: int|
        0 <= i < j < rows.len() ==> !same_path((#[trigger] rows[i]).path, (#[trigger] rows[j]).path)
}

pub(crate) proof fn lemma_ordered_apart(rows: Seq<DirModel>)
    requires
        rows_ordered(rows),
    ensures
        apart(rows),
{
    assert forall|i: int, j: int| 0 <= i < j < rows.len() implies !same_path(
        (#[trigger] rows[i]).path,
        (#[trigger] rows[j]).path,
    ) by {
        law_path_order_is_total(rows[i].path, rows[j].path);
    }
}

pub(crate) proof fn lemma_filter_apart(rows: Seq<DirModel>, keep: spec_fn(DirModel) -> bool)
    requires
        apart(rows),
    ensures
        apart(rows.filter(keep)),
        forall|d: DirModel| #[trigger] rows.filter(keep).contains(d) <==> rows.contains(d) && keep(d),
    decreases rows.len(),
{
    reveal(Seq::filter);
    let out = rows.filter(keep);
    if rows.len() > 0 {
        let head = rows.drop_last();
        let last = rows.last();
        let shorter = head.filter(keep);
        assert(apart(head)) by {
            assert forall|i: int, j: int| 0 <= i < j < head.len() implies !same_path(
                (#[trigger] head[i]).path,
                (#[trigger] head[j]).path,
            ) by {
                assert(head[i] == rows[i] && head[j] == rows[j]);
            }
        }
        lemma_filter_apart(head, keep);
        assert forall|d: DirModel| rows.contains(d) <==> head.contains(d) || d == last by {
            if rows.contains(d) {
                let i = choose|i: int| 0 <= i < rows.len() && rows[i] == d;
                if i < head.len() {
                    assert(head[i] == d);
                }
            }
            if head.contains(d) {
                let i = choose|i: int| 0 <= i < head.len() && head[i] == d;
                assert(rows[i] == d);
            }
            assert(rows[rows.len() - 1] == last);
        }
        if keep(last) {
            assert(out =~= shorter.push(last));
            assert forall|d: DirModel| out.contains(d) <==> shorter.contains(d) || d == last by {
                if out.contains(d) {
                    let i = choose|i: int| 0 <= i < out.len() && out[i] == d;
                    if i < shorter.len() {
                        assert(shorter[i] == d);
                    }
                }
                if shorter.contains(d) {
                    let i = choose|i: int| 0 <= i < shorter.len() && shorter[i] == d;
                    assert(out[i] == d);
                }
                assert(out[out.len() - 1] == last);
            }
            assert forall|i: int, j: int| 0 <= i < j < out.len() implies !same_path(
                (#[trigger] out[i]).path,
                (#[trigger] out[j]).path,
            ) by {
                if j < shorter.len() {
                    assert(out[i] == shorter[i] && out[j] == shorter[j]);
                } else {
                    assert(out[i] == shorter[i]);
                    assert(shorter.contains(shorter[i]));
                    assert(head.contains(shorter[i]));
                    let k = choose|k: int| 0 <= k < head.len() && head[k] == shorter[i];
                    assert(rows[k] == shorter[i] && rows[rows.len() - 1] == last);
                }
            }
        } else {
            assert(out =~= shorter);
        }
    } else {
        assert(out =~= Seq::<DirModel>::empty());
    }
}

/// The rows directly in a directory are the rows that lie directly in it.
pub(crate) proof fn lemma_child_rows(rows: Seq<DirModel>, path: PathModel)
    requires
        apart(rows),
    ensures
        apart(child_rows(rows, path)),
        forall|d: DirModel| #[trigger] child_rows(rows, path).contains(d) <==> rows.contains(d) && directly_in(d, path),
{
    lemma_filter_apart(rows, |d: DirModel| same_opt(parent(d.path), path));
}

/// A list apart whose rows are all among others is no longer than those.
pub(crate) proof fn lemma_no_longer(some: Seq<DirModel>, all: Seq<DirModel>)
    requires
        apart(some),
        forall|d: DirModel| #[trigger] some.contains(d) ==> all.contains(d),
    ensures
        some.len() <= all.len(),
{
    assert(some.no_duplicates()) by {
        assert forall|i: int, j: int| 0 <= i < some.len() && 0 <= j < some.len() && i != j implies some[i] != some[j] by {
            if i < j {
                assert(!same_path(some[i].path, some[j].path));
            } else {
                assert(!same_path(some[j].path, some[i].path));
            }
        }
    }
    some.unique_seq_to_set();
    all.lemma_cardinality_of_set();
    assert(some.to_set().subset_of(all.to_set())) by {
        assert forall|d: DirModel| some.to_set().contains(d) implies all.to_set().contains(d) by {
            assert(some.contains(d));
        }
    }
    vstd::set_lib::lemma_len_subset(some.to_set(), all.to_set());
}

/// Putting rows in size order loses none and repeats none.
pub(crate) proof fn lemma_by_size(rows: Seq<DirModel>)
    requires
        apart(rows),
        rows.len() <= usize::MAX,
    ensures
        by_size(rows).len() == rows.len(),
        apart(by_size(rows)),
        forall|d: DirModel| #[trigger] by_size(rows).contains(d) <==> rows.contains(d),
        forall|i: int, j: int|
            0 <= i < j < rows.len() ==> (#[trigger] by_size(rows)[i]).allocated_total >= (
            #[trigger] by_size(rows)[j]).allocated_total,
{
    let keys = size_keys(rows);
    lemma_stable_places(keys);
    let order = stable_places(keys);
    let out = by_size(rows);
    assert forall|i: int, j: int| 0 <= i < j < out.len() implies !same_path(
        (#[trigger] out[i]).path,
        (#[trigger] out[j]).path,
    ) && out[i].allocated_total >= out[j].allocated_total by {
        let a = order[i] as int;
        let b = order[j] as int;
        assert(before(keys, a, b));
        lemma_lex_irreflexive(keys[a]);
        assert(out[i] == rows[a] && out[j] == rows[b]);
        if a < b {
            assert(!same_path(rows[a].path, rows[b].path));
        } else {
            assert(!same_path(rows[b].path, rows[a].path));
        }
        crate::order::law_number_keys_order_numbers(rows[a].allocated_total, rows[b].allocated_total);
        crate::order::law_number_keys_order_numbers(rows[b].allocated_total, rows[a].allocated_total);
        if keys[a] == keys[b] {
            lemma_lex_irreflexive(keys[b]);
        }
    }
    assert forall|d: DirModel| #[trigger] out.contains(d) <==> rows.contains(d) by {
        if out.contains(d) {
            let i = choose|i: int| 0 <= i < out.len() && out[i] == d;
            assert(0 <= order[i] < keys.len());
            assert(rows[order[i] as int] == d);
        }
        if rows.contains(d) {
            let k = choose|k: int| 0 <= k < rows.len() && rows[k] == d;
            assert(place_in(order, k));
            let i = choose|i: int| 0 <= i < order.len() && order[i] == k;
            assert(out[i] == d);
        }
    }
}

/// What each item gives is among what all of them give.
pub(crate) proof fn lemma_flat_holds<T>(s: Seq<T>, f: spec_fn(T) -> Seq<UnitModel>, i: int, k: int) -> (j: int)
    requires
        0 <= i < s.len(),
        0 <= k < f(s[i]).len(),
    ensures
        0 <= j < flat(s, f).len(),
        flat(s, f)[j] == f(s[i])[k],
    decreases s.len(),
{
    let head = flat(s.drop_last(), f);
    if i == s.len() - 1 {
        head.len() as int + k
    } else {
        lemma_flat_holds(s.drop_last(), f, i, k)
    }
}

/// What all items give is given by one of them.
pub(crate) proof fn lemma_flat_from<T>(s: Seq<T>, f: spec_fn(T) -> Seq<UnitModel>, j: int) -> (r: (int, int))
    requires
        0 <= j < flat(s, f).len(),
    ensures
        0 <= r.0 < s.len(),
        0 <= r.1 < f(s[r.0]).len(),
        flat(s, f)[j] == f(s[r.0])[r.1],
    decreases s.len(),
{
    let head = flat(s.drop_last(), f);
    if j < head.len() {
        lemma_flat_from(s.drop_last(), f, j)
    } else {
        ((s.len() - 1) as int, j - head.len())
    }
}

/// Where every item gives one unit, they stand in the items' order.
pub(crate) proof fn lemma_flat_ones<T>(s: Seq<T>, f: spec_fn(T) -> Seq<UnitModel>)
    requires
        forall|i: int| 0 <= i < s.len() ==> f(#[trigger] s[i]).len() == 1,
    ensures
        flat(s, f).len() == s.len(),
        forall|i: int| 0 <= i < s.len() ==> #[trigger] flat(s, f)[i] == f(s[i])[0],
    decreases s.len(),
{
    if s.len() > 0 {
        let head = s.drop_last();
        assert forall|i: int| 0 <= i < head.len() implies f(#[trigger] head[i]).len() == 1 by {
            assert(head[i] == s[i]);
        }
        lemma_flat_ones(head, f);
        assert(f(s[s.len() - 1]).len() == 1);
        assert forall|i: int| 0 <= i < s.len() implies #[trigger] flat(s, f)[i] == f(s[i])[0] by {
            if i < head.len() {
                assert(flat(head, f)[i] == f(head[i])[0]);
            }
        }
    }
}

} // verus!
