//! How the units of a freshly walked target directory lie in one another.

use super::target::{added_units, inspection_fits, physical_sum, plain_units};
use super::totals::{
    add_charge, add_child, aggregated, charge_sum, charged, charges_fit, law_charges_add_up_to_the_container,
    law_sizes_add_up_to_the_container, lemma_same_parents, lemma_size_update, lemma_sum_update, parent_place,
    place_of_id, rolled, rooted, same_tree, size_sum, sizes_fit,
};
use super::tree::{entry_keys, entry_order, visited, visited_under, TargetNode, VisitModel};
use crate::artifact::{law_different_paths_have_different_ids, relative, unit_id, UnitModel};
use crate::order::{before, lemma_lex_irreflexive, lemma_stable_places, stable_order};
use crate::path::{lemma_parent_parts, parent, same_opt, same_path, within, PathModel};
use vstd::prelude::*;

verus! {

/// Whether what was read is a tree: every entry lies directly in its directory,
/// and no two entries of a directory share a path.
pub open spec fn proper(node: TargetNode) -> bool
    decreases node, 1nat, 0nat,
{
    &&& forall|i: int, j: int|
        0 <= i < j < node.entries@.len() ==> !same_path(
            (#[trigger] node.entries@[i]).path@,
            (#[trigger] node.entries@[j]).path@,
        )
    &&& proper_upto(node, node.entries@.len())
}

/// The same of the first `n` entries.
pub open spec fn proper_upto(node: TargetNode, n: nat) -> bool
    decreases node, 0nat, n,
{
    if n == 0 {
        true
    } else if n <= node.entries@.len() {
        let e = node.entries@[n - 1];
        same_opt(parent(e.path@), node.path@) && proper(e) && proper_upto(node, (n - 1) as nat)
    } else {
        false
    }
}

proof fn lemma_proper_entry(node: TargetNode, n: nat, i: int)
    requires
        proper_upto(node, n),
        0 <= i < n,
    ensures
        n <= node.entries@.len(),
        same_opt(parent(node.entries@[i].path@), node.path@),
        proper(node.entries@[i]),
    decreases n,
{
    if i < n - 1 {
        lemma_proper_entry(node, (n - 1) as nat, i);
    }
}

/// Whether a unit is identified by its place in the target directory.
spec fn sits(v: VisitModel, u: UnitModel) -> bool {
    &&& u.id == unit_id(v.scope, relative(v.root, u.path))
    &&& !same_path(u.path, v.root) ==> u.parent_id == (match parent(u.path) {
        Some(p) => Some(unit_id(v.scope, relative(v.root, p))),
        None => None,
    })
}

/// Whether the directory of a unit stands before it.
pub open spec fn directory_before(units: Seq<UnitModel>, k: int) -> bool {
    exists|j: int| 0 <= j < k && same_opt(parent(units[k].path), (#[trigger] units[j]).path) && units[j].is_dir
}

/// Whether a path lies in one of the first `n` entries in path order.
spec fn belongs(node: TargetNode, n: nat, path: PathModel) -> bool {
    exists|m: int|
        0 <= m < n && 0 <= entry_order(node.entries@)[m] < node.entries@.len() && #[trigger] within(
            path,
            node.entries@[entry_order(node.entries@)[m] as int].path@,
        )
}

spec fn apart(units: Seq<UnitModel>) -> bool {
    forall|i: int, j: int|
        0 <= i < j < units.len() ==> !same_path((#[trigger] units[i]).path, (#[trigger] units[j]).path)
}

proof fn lemma_directly_under(p: PathModel, entry: PathModel, dir: PathModel)
    requires
        same_opt(parent(entry), dir),
        within(p, entry),
    ensures
        within(p, dir),
        p.len() > dir.len(),
        p.parts().take((dir.len() + 1) as int) == entry.parts(),
{
    lemma_parent_parts(entry);
    assert(entry.len() == dir.len() + 1);
    assert(p.parts().take(dir.len() as int) =~= p.parts().take(entry.len() as int).drop_last());
}

proof fn lemma_order_differs(node: TargetNode, m: int, n: int)
    requires
        0 <= m < n < node.entries@.len(),
    ensures
        entry_order(node.entries@)[m] != entry_order(node.entries@)[n],
        0 <= entry_order(node.entries@)[m] < node.entries@.len(),
        0 <= entry_order(node.entries@)[n] < node.entries@.len(),
{
    let keys = entry_keys(node.entries@);
    assert(node.entries@.len() == node.entries.len());
    lemma_stable_places(keys);
    let order = entry_order(node.entries@);
    assert(stable_order(keys, order));
    assert(before(keys, order[m] as int, order[n] as int));
    lemma_lex_irreflexive(keys[order[m] as int]);
}

proof fn lemma_under(v: VisitModel, node: TargetNode, n: nat)
    requires
        v.changed is None,
        proper(node),
        n <= node.entries@.len(),
    ensures
        ({
            let us = visited_under(v, node, n).units;
            &&& apart(us)
            &&& forall|k: int| 0 <= k < us.len() ==> sits(v, #[trigger] us[k]) && belongs(node, n, us[k].path)
            &&& forall|k: int|
                0 <= k < us.len() ==> directory_before(us, k) || same_opt(parent((#[trigger] us[k]).path), node.path@)
        }),
    decreases node, 0nat, n,
{
    if n > 0 {
        let order = entry_order(node.entries@);
        let m = (n - 1) as nat;
        lemma_under(v, node, m);
        let a = visited_under(v, node, m).units;
        let i = order[n - 1] as int;
        assert(node.entries@.len() == node.entries.len());
        lemma_stable_places(entry_keys(node.entries@));
        assert(stable_order(entry_keys(node.entries@), order));
        assert(0 <= order[n - 1] < node.entries@.len());
        let e = node.entries@[i];
        lemma_proper_entry(node, node.entries@.len(), i);
        lemma_visited(v, e);
        let b = visited(v, e).units;
        let us = visited_under(v, node, n).units;
        assert(us =~= a + b);
        assert forall|k: int| 0 <= k < us.len() implies sits(v, #[trigger] us[k]) && belongs(node, n, us[k].path) by {
            if k < a.len() {
                assert(us[k] == a[k]);
                let q = choose|q: int|
                    0 <= q < m && 0 <= order[q] < node.entries@.len() && #[trigger] within(
                        a[k].path,
                        node.entries@[order[q] as int].path@,
                    );
                assert(within(us[k].path, node.entries@[order[q] as int].path@));
            } else {
                assert(us[k] == b[k - a.len()]);
                assert(within(us[k].path, node.entries@[order[n - 1] as int].path@));
            }
        }
        assert forall|k: int| 0 <= k < us.len() implies directory_before(us, k) || same_opt(
            parent((#[trigger] us[k]).path),
            node.path@,
        ) by {
            if k < a.len() {
                assert(us[k] == a[k]);
                if directory_before(a, k) {
                    let j = choose|j: int|
                        0 <= j < k && same_opt(parent(a[k].path), (#[trigger] a[j]).path) && a[j].is_dir;
                    assert(us[j] == a[j]);
                }
            } else {
                let l = k - a.len();
                assert(us[k] == b[l]);
                if l > 0 {
                    assert(directory_before(b, l));
                    let j = choose|j: int|
                        0 <= j < l && same_opt(parent(b[l].path), (#[trigger] b[j]).path) && b[j].is_dir;
                    assert(us[a.len() + j] == b[j]);
                }
            }
        }
        assert forall|x: int, y: int| 0 <= x < y < us.len() implies !same_path(
            (#[trigger] us[x]).path,
            (#[trigger] us[y]).path,
        ) by {
            if y < a.len() {
                assert(us[x] == a[x] && us[y] == a[y]);
            } else if x >= a.len() {
                assert(us[x] == b[x - a.len()] && us[y] == b[y - a.len()]);
            } else {
                assert(us[x] == a[x] && us[y] == b[y - a.len()]);
                assert(belongs(node, m, a[x].path));
                let q = choose|q: int|
                    0 <= q < m && 0 <= order[q] < node.entries@.len() && #[trigger] within(
                        a[x].path,
                        node.entries@[order[q] as int].path@,
                    );
                let o = node.entries@[order[q] as int];
                lemma_proper_entry(node, node.entries@.len(), order[q] as int);
                lemma_order_differs(node, q, n - 1);
                lemma_directly_under(us[x].path, o.path@, node.path@);
                lemma_directly_under(us[y].path, e.path@, node.path@);
                if order[q] < order[n - 1] {
                    assert(!same_path(node.entries@[order[q] as int].path@, node.entries@[i].path@));
                } else {
                    assert(!same_path(node.entries@[i].path@, node.entries@[order[q] as int].path@));
                }
            }
        }
    }
}

proof fn lemma_visited(v: VisitModel, node: TargetNode)
    requires
        v.changed is None,
        proper(node),
    ensures
        ({
            let us = visited(v, node).units;
            &&& apart(us)
            &&& us.len() > 0 ==> us[0].path == node.path@
            &&& forall|k: int| 0 <= k < us.len() ==> sits(v, #[trigger] us[k]) && within(us[k].path, node.path@)
            &&& forall|k: int| 0 < k < us.len() ==> #[trigger] directory_before(us, k)
        }),
    decreases node, 1nat, 0nat,
{
    let us = visited(v, node).units;
    let path = node.path@;
    assert(path.parts().take(path.len() as int) =~= path.parts());
    if us.len() > 1 {
        let n = node.entries@.len();
        lemma_under(v, node, n);
        let under = visited_under(v, node, n).units;
        assert(us =~= seq![us[0]] + under);
        assert forall|k: int| 0 < k < us.len() implies sits(v, us[k]) && within((#[trigger] us[k]).path, path)
            && !same_path(us[k].path, path) && directory_before(us, k) by {
            let u = under[k - 1];
            assert(us[k] == u);
            assert(belongs(node, n, u.path));
            let order = entry_order(node.entries@);
            let m = choose|m: int|
                0 <= m < n && 0 <= order[m] < n && #[trigger] within(
                    u.path,
                    node.entries@[order[m] as int].path@,
                );
            lemma_proper_entry(node, n, order[m] as int);
            lemma_directly_under(u.path, node.entries@[order[m] as int].path@, path);
            if directory_before(under, k - 1) {
                let j = choose|j: int|
                    0 <= j < k - 1 && same_opt(parent(u.path), (#[trigger] under[j]).path) && under[j].is_dir;
                assert(us[j + 1] == under[j]);
            } else {
                assert(same_opt(parent(us[k].path), us[0].path) && us[0].is_dir);
            }
        }
        assert forall|x: int, y: int| 0 <= x < y < us.len() implies !same_path(
            (#[trigger] us[x]).path,
            (#[trigger] us[y]).path,
        ) by {
            if x > 0 {
                assert(us[x] == under[x - 1] && us[y] == under[y - 1]);
            }
        }
    }
}

/// A fresh walk gives every directory before what lies in it, and every path
/// once.
pub proof fn law_directories_come_before_their_contents(v: VisitModel, node: TargetNode, k: int)
    requires
        v.changed is None,
        proper(node),
        0 <= k < visited(v, node).units.len(),
    ensures
        k == 0 ==> visited(v, node).units[k].path == node.path@,
        k > 0 ==> directory_before(visited(v, node).units, k),
        forall|j: int|
            0 <= j < visited(v, node).units.len() && j != k ==> !same_path(
                (#[trigger] visited(v, node).units[j]).path,
                visited(v, node).units[k].path,
            ),
{
    lemma_visited(v, node);
}

proof fn lemma_only_place(units: Seq<UnitModel>, id: Seq<char>, j: int, n: int)
    requires
        0 <= j < n <= units.len(),
        units[j].id == id,
        forall|i: int| 0 <= i < units.len() && i != j ==> (#[trigger] units[i]).id != id,
    ensures
        place_of_id(units, id, n) == j,
    decreases n,
{
    if j < n - 1 {
        assert(units[n - 1].id != id);
        lemma_only_place(units, id, j, n - 1);
    }
}

/// Whether every unit but the first lies in a directory before it, and the
/// first in none.
pub open spec fn tree_like(units: Seq<UnitModel>) -> bool {
    &&& rooted(units)
    &&& forall|k: int| 0 < k < units.len() ==> units[#[trigger] parent_place(units, k)].is_dir
    &&& units.len() > 0 ==> parent_place(units, 0) == -1
}

pub(crate) proof fn lemma_walk_is_a_tree(v: VisitModel, node: TargetNode)
    requires
        v.changed is None,
        v.root == node.path@,
        proper(node),
    ensures
        tree_like(visited(v, node).units),
{
    lemma_visited(v, node);
    let us = visited(v, node).units;
    assert forall|k: int| 0 < k < us.len() implies 0 <= #[trigger] parent_place(us, k) < k && us[parent_place(
        us,
        k,
    )].is_dir by {
        assert(directory_before(us, k));
        let j = choose|j: int|
            0 <= j < k && same_opt(parent(us[k].path), (#[trigger] us[j]).path) && us[j].is_dir;
        assert(sits(v, us[k]) && sits(v, us[j]) && sits(v, us[0]));
        assert(!same_path(us[k].path, us[0].path));
        let id = us[j].id;
        assert(us[k].parent_id == Some(id));
        assert forall|i: int| 0 <= i < us.len() && i != j implies (#[trigger] us[i]).id != id by {
            assert(sits(v, us[i]));
            assert(!same_path(us[i].path, us[j].path));
            law_different_paths_have_different_ids(v.scope, v.root, us[i].path, us[j].path);
        }
        lemma_only_place(us, id, j, us.len() as int);
    }
    if us.len() > 0 {
        assert(us[0].parent_id is None);
    }
}

/// The lengths of units added up.
pub open spec fn length_sum(units: Seq<UnitModel>, n: int) -> nat
    decreases n,
{
    if n <= 0 {
        0
    } else {
        length_sum(units, n - 1) + units[n - 1].logical_bytes as nat
    }
}

proof fn lemma_length_update(units: Seq<UnitModel>, p: int, u: UnitModel, n: int)
    requires
        0 <= p < units.len(),
        n <= units.len(),
    ensures
        length_sum(units.update(p, u), n) == length_sum(units, n) + (if p < n {
            u.logical_bytes - units[p].logical_bytes
        } else {
            0
        }),
    decreases n,
{
    if n > 0 {
        lemma_length_update(units, p, u, n - 1);
    }
}

proof fn lemma_part_of_sum(units: Seq<UnitModel>, p: int, n: int)
    requires
        0 <= p < n <= units.len(),
    ensures
        units[p].bytes <= size_sum(units, n),
        units[p].logical_bytes <= length_sum(units, n),
        units[p].physical_total <= charge_sum(units, n),
    decreases n,
{
    if p < n - 1 {
        lemma_part_of_sum(units, p, n - 1);
    }
}

proof fn lemma_still_tree_like(a: Seq<UnitModel>, b: Seq<UnitModel>)
    requires
        tree_like(a),
        same_tree(a, b),
        forall|i: int| 0 <= i < a.len() ==> (#[trigger] b[i]).is_dir == a[i].is_dir,
    ensures
        tree_like(b),
{
    assert forall|k: int| 0 < k < b.len() implies 0 <= #[trigger] parent_place(b, k) < k && b[parent_place(
        b,
        k,
    )].is_dir by {
        lemma_same_parents(a, b, k);
        assert(0 <= parent_place(a, k) < k);
        assert(a[parent_place(a, k)].is_dir);
    }
    if b.len() > 0 {
        lemma_same_parents(a, b, 0);
    }
}

/// Folding sizes upward keeps the tree and what files have of their own.
proof fn lemma_aggregated_tree(units: Seq<UnitModel>, n: int)
    requires
        tree_like(units),
        0 <= n <= units.len(),
        size_sum(units, n) <= u64::MAX,
        length_sum(units, n) <= u64::MAX,
    ensures
        sizes_fit(units, n),
        tree_like(aggregated(units, n)),
        aggregated(units, n).len() == units.len(),
        forall|k: int|
            0 <= k < units.len() ==> (#[trigger] aggregated(units, n)[k]).is_dir == units[k].is_dir && (
            !units[k].is_dir ==> aggregated(units, n)[k].bytes == units[k].bytes),
    decreases n,
{
    if n > 0 {
        let i = n - 1;
        let p = parent_place(units, i);
        let next = add_child(units, i);
        if i > 0 {
            assert(0 <= p < i && units[p].is_dir);
            lemma_part_of_sum(units, p, i);
            lemma_size_update(units, p, next[p], i);
            lemma_length_update(units, p, next[p], i);
        }
        assert(same_tree(units, next));
        lemma_still_tree_like(units, next);
        lemma_aggregated_tree(next, i);
    }
}

/// Rolling charges up changes nothing but totals.
proof fn lemma_rolled_tree(units: Seq<UnitModel>, n: int)
    requires
        tree_like(units),
        0 <= n <= units.len(),
        charge_sum(units, n) <= u64::MAX,
    ensures
        charges_fit(units, n),
        rolled(units, n).len() == units.len(),
        forall|k: int|
            0 <= k < units.len() ==> (#[trigger] rolled(units, n)[k]).bytes == units[k].bytes && rolled(
                units,
                n,
            )[k].physical_bytes == units[k].physical_bytes,
    decreases n,
{
    if n > 0 {
        let i = n - 1;
        let p = parent_place(units, i);
        let next = add_charge(units, i);
        if i > 0 {
            assert(0 <= p < i && units[p].is_dir);
            lemma_part_of_sum(units, p, i);
            lemma_sum_update(units, p, next[p], i);
        }
        assert(same_tree(units, next));
        lemma_still_tree_like(units, next);
        lemma_rolled_tree(next, i);
    }
}

proof fn lemma_same_sums(a: Seq<UnitModel>, b: Seq<UnitModel>, n: int)
    requires
        0 <= n <= a.len() == b.len(),
        forall|k: int|
            0 <= k < a.len() ==> (#[trigger] a[k]).bytes == b[k].bytes && a[k].logical_bytes == b[k].logical_bytes,
    ensures
        size_sum(a, n) == size_sum(b, n),
        length_sum(a, n) == length_sum(b, n),
    decreases n,
{
    if n > 0 {
        assert(a[n - 1].bytes == b[n - 1].bytes && a[n - 1].logical_bytes == b[n - 1].logical_bytes);
        lemma_same_sums(a, b, n - 1);
    }
}

proof fn lemma_charges_are_sizes(plain: Seq<UnitModel>, sized: Seq<UnitModel>, n: int)
    requires
        0 <= n <= plain.len() == sized.len(),
        forall|k: int|
            0 <= k < plain.len() ==> (#[trigger] sized[k]).is_dir == plain[k].is_dir && (!plain[k].is_dir ==> sized[k].bytes
                == plain[k].bytes),
    ensures
        charge_sum(charged(sized), n) <= size_sum(plain, n),
    decreases n,
{
    if n > 0 {
        assert(sized[n - 1].is_dir == plain[n - 1].is_dir);
        lemma_charges_are_sizes(plain, sized, n - 1);
    }
}

proof fn lemma_physical_sums(units: Seq<UnitModel>, all: Seq<UnitModel>, n: int)
    requires
        0 <= n <= units.len() == all.len(),
        forall|k: int| 0 <= k < units.len() ==> (#[trigger] all[k]).physical_bytes == charged(units)[k].physical_bytes,
    ensures
        physical_sum(all, n) == charge_sum(charged(units), n),
    decreases n,
{
    if n > 0 {
        assert(all[n - 1].physical_bytes == charged(units)[n - 1].physical_bytes);
        lemma_physical_sums(units, all, n - 1);
    }
}

/// After a fresh walk nothing that is added up overflows where the sum of all
/// sizes found fits; the whole target directory's size is the sum of the sizes
/// found, and its charge the sum of what is charged, each inode once.
pub proof fn law_an_inspection_adds_up(v: VisitModel, node: TargetNode, owned: bool)
    requires
        v.changed is None,
        v.root == node.path@,
        proper(node),
        size_sum(visited(v, node).units, visited(v, node).units.len() as int) <= u64::MAX,
        length_sum(visited(v, node).units, visited(v, node).units.len() as int) <= u64::MAX,
    ensures
        inspection_fits(visited(v, node), owned),
        ({
            let found = visited(v, node).units;
            let units = added_units(visited(v, node), owned);
            found.len() > 0 ==> units.len() > 0 && units[0].bytes == size_sum(found, found.len() as int)
                && units[0].physical_total == physical_sum(units, units.len() as int)
        }),
{
    let w = visited(v, node);
    let us = w.units;
    let n = us.len() as int;
    lemma_walk_is_a_tree(v, node);
    let plain = plain_units(w, owned);
    assert(same_tree(us, plain));
    lemma_still_tree_like(us, plain);
    lemma_same_sums(us, plain, n);
    lemma_aggregated_tree(plain, n);
    let sized = aggregated(plain, n);
    let own = charged(sized);
    assert(same_tree(sized, own));
    lemma_still_tree_like(sized, own);
    lemma_charges_are_sizes(plain, sized, n);
    lemma_rolled_tree(own, n);
    let units = added_units(w, owned);
    lemma_physical_sums(sized, units, n);
    if n > 0 {
        law_sizes_add_up_to_the_container(plain);
        law_charges_add_up_to_the_container(sized);
        assert(units[0].bytes == own[0].bytes);
    }
}

} // verus!
