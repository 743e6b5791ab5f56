//! What a refresh of a target directory comes to: what changed is read again,
//! what did not is taken over, and together they are what a whole walk gives.

use super::nesting::{lemma_walk_is_a_tree, proper, tree_like};
use super::target::{added_units, enriched, law_enrichment_keeps_identity, plain_units};
use super::totals::{
    add_charge, add_child, aggregated, charged, lemma_same_parents, own_charge, parent_place, place_of_id, rolled, same_inode,
    same_tree, seen_before,
};
use super::tree::{
    entry_keys, entry_order, kept, kept_in, kept_tree, kept_under, longest, stands, taken_over, touched, visited,
    visited_under, TargetNode, VisitModel,
};
use crate::artifact::UnitModel;
use crate::facts::{opt_stat, FactModel, FileKind, StatModel};
use crate::order::{before, lemma_lex_irreflexive, lemma_stable_places, place_in, stable_order};
use crate::path::{law_nesting_chains, lemma_parent_parts, parent, same_opt, same_path, within, PathModel};
use crate::text::opt_text;
use vstd::prelude::*;

verus! {

// ---------------------------------------------------------------------
// Places in a tree
// ---------------------------------------------------------------------

/// Whether the entries of a path were read: it is a directory that could be
/// listed.
pub open spec fn is_listed(node: TargetNode) -> bool {
    &&& node.legible
    &&& opt_stat(node.stat) matches Some(meta) && meta.kind == FileKind::Directory
    &&& opt_text(node.unlisted) is None
}

/// What was read at a place of a tree: entry `place[0]` of its root, entry
/// `place[1]` of that, and so on down through listed directories.
pub open spec fn found(node: TargetNode, place: Seq<int>) -> Option<TargetNode>
    decreases place.len(),
{
    if place.len() == 0 {
        Some(node)
    } else if is_listed(node) && 0 <= place[0] < node.entries@.len() {
        found(node.entries@[place[0]], place.skip(1))
    } else {
        None
    }
}

/// Whether a batch of changes bears on a path: something changed at it or under
/// it, or the directory it lies in did.
pub open spec fn borne_on(changed: Seq<PathModel>, path: PathModel) -> bool {
    exists|i: int|
        0 <= i < changed.len() && (within(#[trigger] changed[i], path) || same_opt(parent(path), changed[i]))
}

/// Whether a unit is what was read at a path: its kind, its size and its time.
pub open spec fn as_read(u: UnitModel, path: PathModel, meta: StatModel) -> bool {
    &&& u.path == path
    &&& u.is_dir == (meta.kind == FileKind::Directory)
    &&& u.device == meta.dev
    &&& u.inode == meta.ino
    &&& u.mtime_max == meta.modified()
    &&& meta.kind == FileKind::File ==> u.bytes == meta.allocated() as u64 && u.logical_bytes == meta.len
    &&& meta.kind != FileKind::File ==> u.bytes == 0 && u.logical_bytes == 0
}

proof fn lemma_entry(node: TargetNode, n: nat, i: int)
    requires
        super::nesting::proper_upto(node, n),
        0 <= i < n,
    ensures
        n <= node.entries@.len(),
        same_opt(parent(node.entries@[i].path@), node.path@),
        proper(node.entries@[i]),
    decreases n,
{
    if i < n - 1 {
        lemma_entry(node, (n - 1) as nat, i);
    }
}

proof fn lemma_within_parent(p: PathModel)
    requires
        parent(p) is Some,
    ensures
        within(p, parent(p)->0),
        parent(p)->0.len() == p.len() - 1,
{
    lemma_parent_parts(p);
    assert(p.parts().take(p.len() - 1) =~= p.parts().drop_last());
}

proof fn lemma_within_itself(p: PathModel)
    ensures
        within(p, p),
{
    assert(p.parts().take(p.len() as int) =~= p.parts());
}

/// What is found in a proper tree is proper and lies in it; further down, so
/// does its directory.
proof fn lemma_found(node: TargetNode, place: Seq<int>)
    requires
        proper(node),
        found(node, place) is Some,
    ensures
        proper(found(node, place)->0),
        within(found(node, place)->0.path@, node.path@),
        place.len() > 0 ==> parent(found(node, place)->0.path@) is Some && within(
            parent(found(node, place)->0.path@)->0,
            node.path@,
        ),
    decreases place.len(),
{
    if place.len() == 0 {
        lemma_within_itself(node.path@);
    } else {
        let e = node.entries@[place[0]];
        lemma_entry(node, node.entries@.len(), place[0]);
        lemma_found(e, place.skip(1));
        let n = found(node, place)->0;
        lemma_within_parent(e.path@);
        let up = parent(e.path@)->0;
        assert(within(up, node.path@)) by {
            lemma_within_itself(node.path@);
            assert(up.parts() == node.path@.parts());
        }
        law_nesting_chains(e.path@, up, node.path@);
        law_nesting_chains(n.path@, e.path@, node.path@);
        if place.skip(1).len() == 0 {
            assert(n == e);
        } else {
            law_nesting_chains(parent(n.path@)->0, e.path@, node.path@);
        }
    }
}

proof fn lemma_borne_up(changed: Seq<PathModel>, node: TargetNode, place: Seq<int>)
    requires
        proper(node),
        place.len() > 0,
        found(node, place) is Some,
        borne_on(changed, found(node, place)->0.path@),
    ensures
        borne_on(changed, node.path@),
        touched(changed, node.path@),
{
    lemma_found(node, place);
    let n = found(node, place)->0;
    let i = choose|i: int|
        0 <= i < changed.len() && (within(#[trigger] changed[i], n.path@) || same_opt(parent(n.path@), changed[i]));
    if within(changed[i], n.path@) {
        law_nesting_chains(changed[i], n.path@, node.path@);
    } else {
        let up = parent(n.path@)->0;
        assert(up.parts() == changed[i].parts());
        assert(within(changed[i], node.path@));
    }
    assert(within(changed[i], node.path@));
}

proof fn lemma_borne_is_touched(changed: Seq<PathModel>, path: PathModel)
    requires
        borne_on(changed, path),
    ensures
        touched(changed, path),
{
    let i = choose|i: int|
        0 <= i < changed.len() && (within(#[trigger] changed[i], path) || same_opt(parent(path), changed[i]));
    assert(within(changed[i], path) || same_path(changed[i], parent(path)->0));
}

// ---------------------------------------------------------------------
// Where the units of an entry stand
// ---------------------------------------------------------------------

proof fn lemma_order(node: TargetNode)
    ensures
        entry_order(node.entries@).len() == node.entries@.len(),
        forall|m: int|
            0 <= m < node.entries@.len() ==> 0 <= #[trigger] entry_order(node.entries@)[m] < node.entries@.len(),
        forall|k: int| 0 <= k < node.entries@.len() ==> #[trigger] place_in(entry_order(node.entries@), k),
        forall|m: int, n: int|
            0 <= m < n < node.entries@.len() ==> #[trigger] entry_order(node.entries@)[m] != #[trigger] entry_order(
                node.entries@,
            )[n],
{
    let keys = entry_keys(node.entries@);
    assert(node.entries@.len() == node.entries.len());
    lemma_stable_places(keys);
    let order = entry_order(node.entries@);
    assert(stable_order(keys, order));
    assert forall|m: int, n: int| 0 <= m < n < node.entries@.len() implies #[trigger] order[m] != #[trigger] order[n] by {
        assert(before(keys, order[m] as int, order[n] as int));
        lemma_lex_irreflexive(keys[order[m] as int]);
    }
}

/// Where the units of entry `order[m]` begin among those of the first `n`.
proof fn lemma_block(v: VisitModel, node: TargetNode, n: nat, m: int)
    requires
        0 <= m < n <= node.entries@.len(),
    ensures
        ({
            let e = node.entries@[entry_order(node.entries@)[m] as int];
            let at = visited_under(v, node, m as nat).units.len();
            let all = visited_under(v, node, n).units;
            let own = visited(v, e).units;
            &&& at + own.len() <= all.len()
            &&& forall|k: int| 0 <= k < own.len() ==> #[trigger] all[at + k] == own[k]
        }),
    decreases n,
{
    lemma_order(node);
    let e = node.entries@[entry_order(node.entries@)[m] as int];
    let at = visited_under(v, node, m as nat).units.len();
    let all = visited_under(v, node, n).units;
    let own = visited(v, e).units;
    let prior = visited_under(v, node, (n - 1) as nat).units;
    let last = node.entries@[entry_order(node.entries@)[n - 1] as int];
    assert(all =~= prior + visited(v, last).units);
    if m < n - 1 {
        lemma_block(v, node, (n - 1) as nat, m);
        assert forall|k: int| 0 <= k < own.len() implies #[trigger] all[at + k] == own[k] by {
            assert(all[at + k] == prior[at + k]);
        }
    }
}

/// Which entry a unit of the first `n` is from.
proof fn lemma_from_entry(v: VisitModel, node: TargetNode, n: nat, k: int) -> (r: (int, int))
    requires
        n <= node.entries@.len(),
        0 <= k < visited_under(v, node, n).units.len(),
    ensures
        0 <= r.0 < n,
        0 <= entry_order(node.entries@)[r.0] < node.entries@.len(),
        0 <= r.1 < visited(v, node.entries@[entry_order(node.entries@)[r.0] as int]).units.len(),
        visited_under(v, node, n).units[k] == visited(
            v,
            node.entries@[entry_order(node.entries@)[r.0] as int],
        ).units[r.1],
        k == visited_under(v, node, r.0 as nat).units.len() + r.1,
    decreases n,
{
    lemma_order(node);
    let prior = visited_under(v, node, (n - 1) as nat).units;
    let last = node.entries@[entry_order(node.entries@)[n - 1] as int];
    assert(visited_under(v, node, n).units =~= prior + visited(v, last).units);
    if k < prior.len() {
        lemma_from_entry(v, node, (n - 1) as nat, k)
    } else {
        (n - 1, k - prior.len())
    }
}

// ---------------------------------------------------------------------
// What is kept of a path lies in it
// ---------------------------------------------------------------------

proof fn lemma_kept(cached: Seq<UnitModel>, path: PathModel, n: int)
    requires
        0 <= n <= cached.len(),
    ensures
        kept(cached, path, n) matches Some(u) ==> same_path(u.path, path) && exists|k: int|
            0 <= k < n && #[trigger] cached[k] == u,
        kept(cached, path, n) is None ==> forall|k: int| 0 <= k < n ==> !same_path((#[trigger] cached[k]).path, path),
    decreases n,
{
    if n > 0 {
        if same_path(cached[n - 1].path, path) {
            assert(cached[n - 1] == kept(cached, path, n)->0);
        } else {
            lemma_kept(cached, path, n - 1);
        }
    }
}

proof fn lemma_no_longer_than_longest(cached: Seq<UnitModel>, n: int, k: int)
    requires
        0 <= k < n <= cached.len(),
    ensures
        cached[k].path.len() <= longest(cached, n),
    decreases n,
{
    if k < n - 1 {
        lemma_no_longer_than_longest(cached, n - 1, k);
    }
}

proof fn lemma_kept_tree_within(cached: Seq<UnitModel>, root: PathModel, path: PathModel)
    requires
        path.len() <= longest(cached, cached.len() as int),
    ensures
        forall|k: int|
            0 <= k < kept_tree(cached, root, path).len() ==> within(
                (#[trigger] kept_tree(cached, root, path)[k]).path,
                path,
            ),
    decreases longest(cached, cached.len() as int) + 1 - path.len(), 1nat, 0nat,
{
    lemma_kept(cached, path, cached.len() as int);
    match kept(cached, path, cached.len() as int) {
        Some(u) => {
            lemma_kept_under_within(cached, root, path, cached.len());
            lemma_within_itself(path);
            let all = kept_tree(cached, root, path);
            let under = kept_under(cached, root, path, cached.len());
            assert forall|k: int| 0 <= k < all.len() implies within((#[trigger] all[k]).path, path) by {
                if k > 0 {
                    assert(all[k] == under[k - 1]);
                }
            }
        },
        None => {},
    }
}

proof fn lemma_kept_under_within(cached: Seq<UnitModel>, root: PathModel, path: PathModel, n: nat)
    requires
        path.len() <= longest(cached, cached.len() as int),
        n <= cached.len(),
    ensures
        forall|k: int|
            0 <= k < kept_under(cached, root, path, n).len() ==> within(
                (#[trigger] kept_under(cached, root, path, n)[k]).path,
                path,
            ),
    decreases longest(cached, cached.len() as int) + 1 - path.len(), 0nat, n,
{
    if n > 0 {
        lemma_kept_under_within(cached, root, path, (n - 1) as nat);
        let u = cached[n - 1];
        if kept_in(u, root, path) {
            lemma_no_longer_than_longest(cached, cached.len() as int, n - 1);
            lemma_within_parent(u.path);
            lemma_kept_tree_within(cached, root, u.path);
            let before = kept_under(cached, root, path, (n - 1) as nat);
            let more = kept_tree(cached, root, u.path);
            let all = kept_under(cached, root, path, n);
            assert(within(u.path, path)) by {
                assert(parent(u.path)->0.parts() == path.parts());
            }
            assert forall|k: int| 0 <= k < all.len() implies within((#[trigger] all[k]).path, path) by {
                if k < before.len() {
                    assert(all[k] == before[k]);
                } else {
                    assert(all[k] == more[k - before.len()]);
                    law_nesting_chains(all[k].path, u.path, path);
                }
            }
        }
    }
}

/// What a walk of a path gives lies at it or under it.
proof fn lemma_units_within(v: VisitModel, node: TargetNode)
    requires
        proper(node),
    ensures
        forall|k: int|
            0 <= k < visited(v, node).units.len() ==> within((#[trigger] visited(v, node).units[k]).path, node.path@),
    decreases node, 1nat, 0nat,
{
    let path = node.path@;
    let us = visited(v, node).units;
    lemma_within_itself(path);
    if node.legible {
        if stands(v, path) {
            let n = v.cached.len() as int;
            lemma_kept(v.cached, path, n);
            let u = kept(v.cached, path, n)->0;
            let k = choose|k: int| 0 <= k < n && #[trigger] v.cached[k] == u;
            lemma_no_longer_than_longest(v.cached, n, k);
            lemma_kept_tree_within(v.cached, v.root, path);
        } else if is_listed(node) {
            let n = node.entries@.len();
            lemma_under_within(v, node, n);
            let under = visited_under(v, node, n).units;
            assert(us =~= seq![us[0]] + under);
            assert forall|k: int| 0 <= k < us.len() implies within((#[trigger] us[k]).path, path) by {
                if k > 0 {
                    assert(us[k] == under[k - 1]);
                }
            }
        }
    }
}

proof fn lemma_under_within(v: VisitModel, node: TargetNode, n: nat)
    requires
        proper(node),
        n <= node.entries@.len(),
    ensures
        forall|k: int|
            0 <= k < visited_under(v, node, n).units.len() ==> within(
                (#[trigger] visited_under(v, node, n).units[k]).path,
                node.path@,
            ),
    decreases node, 0nat, n,
{
    if n > 0 {
        lemma_under_within(v, node, (n - 1) as nat);
        lemma_order(node);
        let i = entry_order(node.entries@)[n - 1] as int;
        let e = node.entries@[i];
        lemma_entry(node, node.entries@.len(), i);
        lemma_units_within(v, e);
        lemma_within_parent(e.path@);
        assert(parent(e.path@)->0.parts() == node.path@.parts());
        assert(within(e.path@, node.path@));
        let prior = visited_under(v, node, (n - 1) as nat).units;
        let own = visited(v, e).units;
        let all = visited_under(v, node, n).units;
        assert(all =~= prior + own);
        assert forall|k: int| 0 <= k < all.len() implies within((#[trigger] all[k]).path, node.path@) by {
            if k < prior.len() {
                assert(all[k] == prior[k]);
            } else {
                assert(all[k] == own[k - prior.len()]);
                law_nesting_chains(all[k].path, e.path@, node.path@);
            }
        }
    }
}

/// Two entries of one directory have nothing in common.
proof fn lemma_entries_apart(node: TargetNode, i: int, j: int, p: PathModel)
    requires
        proper(node),
        0 <= i < node.entries@.len(),
        0 <= j < node.entries@.len(),
        within(p, node.entries@[i].path@),
        within(p, node.entries@[j].path@),
    ensures
        i == j,
{
    let a = node.entries@[i].path@;
    let b = node.entries@[j].path@;
    lemma_entry(node, node.entries@.len(), i);
    lemma_entry(node, node.entries@.len(), j);
    lemma_within_parent(a);
    lemma_within_parent(b);
    assert(a.len() == node.path@.len() + 1 && b.len() == node.path@.len() + 1);
    assert(a.parts() == b.parts());
    if i < j {
        assert(!same_path(node.entries@[i].path@, node.entries@[j].path@));
    } else if j < i {
        assert(!same_path(node.entries@[j].path@, node.entries@[i].path@));
    }
}

// ---------------------------------------------------------------------
// What changed
// ---------------------------------------------------------------------

/// What a change bears on is read again, never answered from what is kept:
/// wherever a changed path, or a path above one, or an entry of a changed
/// directory was read, there is one unit at it, with the size and the time that
/// were read.
pub proof fn law_what_changed_is_read_again(v: VisitModel, node: TargetNode, place: Seq<int>) -> (k: int)
    requires
        proper(node),
        found(node, place) is Some,
        found(node, place)->0.legible,
        opt_stat(found(node, place)->0.stat) is Some,
        v.changed matches Some(changed) && borne_on(changed, found(node, place)->0.path@),
    ensures
        0 <= k < visited(v, node).units.len(),
        as_read(
            visited(v, node).units[k],
            found(node, place)->0.path@,
            opt_stat(found(node, place)->0.stat)->0,
        ),
        forall|j: int|
            0 <= j < visited(v, node).units.len() && same_path(
                (#[trigger] visited(v, node).units[j]).path,
                found(node, place)->0.path@,
            ) ==> j == k,
    decreases place.len(),
{
    let changed = v.changed->0;
    let n = found(node, place)->0;
    let us = visited(v, node).units;
    let count = node.entries@.len();
    lemma_found(node, place);
    if place.len() == 0 {
        lemma_borne_is_touched(changed, node.path@);
        assert(!stands(v, node.path@));
        if is_listed(node) {
            let under = visited_under(v, node, count).units;
            assert(us =~= seq![us[0]] + under);
            assert forall|j: int| 0 <= j < us.len() && same_path((#[trigger] us[j]).path, n.path@) implies j == 0 by {
                if j > 0 {
                    assert(us[j] == under[j - 1]);
                    let (m, q) = lemma_from_entry(v, node, count, j - 1);
                    let i = entry_order(node.entries@)[m] as int;
                    lemma_entry(node, count, i);
                    lemma_units_within(v, node.entries@[i]);
                    lemma_within_parent(node.entries@[i].path@);
                }
            }
        }
        0
    } else {
        lemma_borne_up(changed, node, place);
        assert(!stands(v, node.path@));
        let i = place[0];
        let e = node.entries@[i];
        lemma_entry(node, count, i);
        let q = law_what_changed_is_read_again(v, e, place.skip(1));
        lemma_order(node);
        assert(place_in(entry_order(node.entries@), i));
        let m = choose|m: int| 0 <= m < entry_order(node.entries@).len() && entry_order(node.entries@)[m] == i;
        lemma_block(v, node, count, m);
        let at = visited_under(v, node, m as nat).units.len();
        let under = visited_under(v, node, count).units;
        assert(us =~= seq![us[0]] + under);
        assert(under[at + q] == visited(v, e).units[q]);
        assert(us[1 + at + q] == under[at + q]);
        lemma_found(e, place.skip(1));
        assert forall|j: int| 0 <= j < us.len() && same_path((#[trigger] us[j]).path, n.path@) implies j == 1 + at + q by {
            if j == 0 {
                lemma_within_parent(e.path@);
            } else {
                assert(us[j] == under[j - 1]);
                let (x, y) = lemma_from_entry(v, node, count, j - 1);
                let h = entry_order(node.entries@)[x] as int;
                lemma_entry(node, count, h);
                lemma_units_within(v, node.entries@[h]);
                assert(within(us[j].path, node.entries@[h].path@));
                assert(within(n.path@, node.entries@[h].path@)) by {
                    assert(us[j].path.parts() == n.path@.parts());
                }
                lemma_entries_apart(node, h, i, n.path@);
                lemma_same_place(node, m, x);
            }
        }
        1 + at + q
    }
}

/// No entry stands at two places of the order.
proof fn lemma_same_place(node: TargetNode, m: int, x: int)
    requires
        0 <= m < node.entries@.len(),
        0 <= x < node.entries@.len(),
        entry_order(node.entries@)[x] == entry_order(node.entries@)[m],
    ensures
        x == m,
{
    lemma_order(node);
    if x < m {
        assert(entry_order(node.entries@)[x] != entry_order(node.entries@)[m]);
    } else if m < x {
        assert(entry_order(node.entries@)[m] != entry_order(node.entries@)[x]);
    }
}

// ---------------------------------------------------------------------
// What did not change
// ---------------------------------------------------------------------

/// What is kept of a path that no change bears on stands in for it: whatever is
/// read there does not matter.
pub proof fn law_what_did_not_change_is_not_read(v: VisitModel, a: TargetNode, b: TargetNode, k: int)
    requires
        a.legible,
        b.legible,
        a.path@ == b.path@,
        v.changed matches Some(changed) && !borne_on(changed, a.path@),
        0 <= k < v.cached.len(),
        same_path(v.cached[k].path, a.path@),
    ensures
        visited(v, a) == visited(v, b),
        visited(v, a).limits.len() == 0,
{
    let changed = v.changed->0;
    lemma_kept(v.cached, a.path@, v.cached.len() as int);
    if touched(changed, a.path@) {
        let above = match parent(a.path@) {
            Some(p) => p,
            None => a.path@,
        };
        let i = choose|i: int|
            0 <= i < changed.len() && (within(#[trigger] changed[i], a.path@) || same_path(changed[i], above));
        if parent(a.path@) is None {
            lemma_within_itself(a.path@);
            assert(within(changed[i], a.path@));
        }
        assert(borne_on(changed, a.path@));
    }
}

// ---------------------------------------------------------------------
// A refresh and a whole walk
// ---------------------------------------------------------------------

/// Whether two units are the same piece of storage, of the same size, in the
/// same place of the tree.
pub open spec fn alike(a: UnitModel, b: UnitModel) -> bool {
    &&& a.id == b.id
    &&& a.path == b.path
    &&& a.relative_path == b.relative_path
    &&& a.parent_id == b.parent_id
    &&& a.container_id == b.container_id
    &&& a.is_dir == b.is_dir
    &&& a.device == b.device
    &&& a.inode == b.inode
    &&& a.membership == b.membership
    &&& a.bytes == b.bytes
    &&& a.logical_bytes == b.logical_bytes
    &&& a.physical_bytes == b.physical_bytes
    &&& !a.is_dir ==> a.mtime_max == b.mtime_max
}

pub open spec fn all_alike(a: Seq<UnitModel>, b: Seq<UnitModel>) -> bool {
    a.len() == b.len() && forall|k: int| 0 <= k < a.len() ==> alike(#[trigger] a[k], b[k])
}

/// A walk that keeps nothing from before.
pub open spec fn whole(v: VisitModel) -> VisitModel {
    VisitModel { changed: None, ..v }
}

/// Whether what is kept are the units of an earlier whole walk: a directory's
/// size, and what is charged, are no matter, for they are added up anew.
pub open spec fn keeps(v: VisitModel, earlier: TargetNode) -> bool {
    let units = visited(whole(v), earlier).units;
    v.cached.len() == units.len() && forall|k: int|
        0 <= k < units.len() ==> alike(taken_over(#[trigger] v.cached[k]), units[k])
}

/// Whether a tree reads now as it did earlier wherever no change bears on a path
/// that is kept.
pub open spec fn otherwise_unchanged(v: VisitModel, earlier: TargetNode, now: TargetNode) -> bool {
    forall|place: Seq<int>|
        (#[trigger] found(now, place)) matches Some(n) ==> n.legible && !borne_on(v.changed->0, n.path@) && (exists|
            k: int,
        | 0 <= k < v.cached.len() && same_path((#[trigger] v.cached[k]).path, n.path@)) ==> read_before(v, earlier, n)
}

/// Whether a whole walk of a path gives what it gave earlier.
pub open spec fn read_before(v: VisitModel, earlier: TargetNode, n: TargetNode) -> bool {
    exists|place: Seq<int>|
        (#[trigger] found(earlier, place)) matches Some(b) && b.path@ == n.path@ && visited(whole(v), b).units
            == visited(whole(v), n).units
}

/// Whether the units of `b` stand at `o` among `all`, and no others lie in it.
spec fn stands_apart(v: VisitModel, all: Seq<UnitModel>, b: TargetNode, o: int) -> bool {
    let own = visited(whole(v), b).units;
    &&& 0 <= o
    &&& o + own.len() <= all.len()
    &&& forall|k: int| 0 <= k < own.len() ==> #[trigger] own[k] == all[o + k]
    &&& forall|j: int|
        0 <= j < all.len() && !(o <= j < o + own.len()) ==> !within((#[trigger] all[j]).path, b.path@)
}

/// The units of a whole walk of a path: its own first, the others deeper.
proof fn lemma_whole(v: VisitModel, b: TargetNode)
    requires
        proper(b),
    ensures
        ({
            let own = visited(whole(v), b).units;
            &&& own.len() > 0 ==> own[0].path == b.path@
            &&& own.len() > 1 ==> is_listed(b)
            &&& own.len() > 0 && is_listed(b) ==> own =~= seq![own[0]] + visited_under(
                whole(v),
                b,
                b.entries@.len(),
            ).units
            &&& forall|k: int|
                0 < k < own.len() ==> within((#[trigger] own[k]).path, b.path@) && own[k].path.len() > b.path@.len()
        }),
{
    let w = whole(v);
    let own = visited(w, b).units;
    assert(!stands(w, b.path@));
    if own.len() > 1 {
        let n = b.entries@.len();
        let under = visited_under(w, b, n).units;
        assert(own =~= seq![own[0]] + under);
        assert forall|k: int| 0 < k < own.len() implies within((#[trigger] own[k]).path, b.path@) && own[k].path.len()
            > b.path@.len() by {
            assert(own[k] == under[k - 1]);
            let (m, q) = lemma_from_entry(w, b, n, k - 1);
            let i = entry_order(b.entries@)[m] as int;
            let e = b.entries@[i];
            lemma_entry(b, n, i);
            lemma_units_within(w, e);
            lemma_within_parent(e.path@);
            assert(within(e.path@, b.path@)) by {
                assert(parent(e.path@)->0.parts() == b.path@.parts());
            }
            law_nesting_chains(own[k].path, e.path@, b.path@);
        }
    }
}

/// The units of entry `order[m]` stand apart where those of its directory do.
proof fn lemma_entry_stands_apart(v: VisitModel, all: Seq<UnitModel>, b: TargetNode, o: int, m: int)
    requires
        proper(b),
        stands_apart(v, all, b, o),
        is_listed(b),
        0 <= m < b.entries@.len(),
    ensures
        0 <= entry_order(b.entries@)[m] < b.entries@.len(),
        stands_apart(
            v,
            all,
            b.entries@[entry_order(b.entries@)[m] as int],
            o + 1 + visited_under(whole(v), b, m as nat).units.len(),
        ),
{
    let w = whole(v);
    let n = b.entries@.len();
    lemma_order(b);
    let i = entry_order(b.entries@)[m] as int;
    let e = b.entries@[i];
    let own = visited(w, b).units;
    let under = visited_under(w, b, n).units;
    let at = visited_under(w, b, m as nat).units.len();
    let mine = visited(w, e).units;
    lemma_whole(v, b);
    assert(!stands(w, b.path@));
    assert(own.len() > 0);
    assert(own =~= seq![own[0]] + under);
    lemma_block(w, b, n, m);
    lemma_entry(b, n, i);
    lemma_within_parent(e.path@);
    assert(within(e.path@, b.path@)) by {
        assert(parent(e.path@)->0.parts() == b.path@.parts());
    }
    assert forall|k: int| 0 <= k < mine.len() implies #[trigger] mine[k] == all[o + 1 + at + k] by {
        assert(under[at + k] == mine[k]);
        assert(own[1 + at + k] == under[at + k]);
        assert(own[1 + at + k] == all[o + (1 + at + k)]);
    }
    assert forall|j: int| 0 <= j < all.len() && !(o + 1 + at <= j < o + 1 + at + mine.len()) implies !within(
        (#[trigger] all[j]).path,
        e.path@,
    ) by {
        if within(all[j].path, e.path@) {
            law_nesting_chains(all[j].path, e.path@, b.path@);
            assert(o <= j < o + own.len());
            assert(own[j - o] == all[o + (j - o)]);
            if j > o {
                assert(own[j - o] == under[j - o - 1]);
                let (x, y) = lemma_from_entry(w, b, n, j - o - 1);
                let h = entry_order(b.entries@)[x] as int;
                lemma_entry(b, n, h);
                lemma_units_within(w, b.entries@[h]);
                lemma_entries_apart(b, h, i, all[j].path);
                lemma_same_place(b, m, x);
            }
        }
    }
}

/// The units of every place of a tree stand apart among those of the tree.
proof fn lemma_found_stands_apart(v: VisitModel, all: Seq<UnitModel>, node: TargetNode, o: int, place: Seq<int>) -> (r: int)
    requires
        proper(node),
        stands_apart(v, all, node, o),
        found(node, place) is Some,
    ensures
        stands_apart(v, all, found(node, place)->0, r),
    decreases place.len(),
{
    if place.len() == 0 {
        o
    } else {
        let i = place[0];
        lemma_order(node);
        lemma_entry(node, node.entries@.len(), i);
        assert(place_in(entry_order(node.entries@), i));
        let m = choose|m: int| 0 <= m < entry_order(node.entries@).len() && entry_order(node.entries@)[m] == i;
        lemma_entry_stands_apart(v, all, node, o, m);
        lemma_found_stands_apart(
            v,
            all,
            node.entries@[i],
            o + 1 + visited_under(whole(v), node, m as nat).units.len(),
            place.skip(1),
        )
    }
}

proof fn lemma_kept_there(cached: Seq<UnitModel>, path: PathModel, n: int, o: int)
    requires
        0 <= o < n <= cached.len(),
        same_path(cached[o].path, path),
        forall|j: int| 0 <= j < cached.len() && j != o ==> !same_path((#[trigger] cached[j]).path, path),
    ensures
        kept(cached, path, n) == Some(cached[o]),
    decreases n,
{
    if o < n - 1 {
        lemma_kept_there(cached, path, n - 1, o);
    }
}

proof fn lemma_nothing_under(cached: Seq<UnitModel>, root: PathModel, path: PathModel, from: nat, to: nat)
    requires
        path.len() <= longest(cached, cached.len() as int),
        from <= to <= cached.len(),
        forall|j: int| from <= j < to ==> !kept_in(#[trigger] cached[j], root, path),
    ensures
        kept_under(cached, root, path, to) == kept_under(cached, root, path, from),
    decreases to,
{
    if from < to {
        lemma_nothing_under(cached, root, path, from, (to - 1) as nat);
        assert(kept_under(cached, root, path, to) =~= kept_under(cached, root, path, (to - 1) as nat));
    }
}

/// What is kept of a path is alike to what a whole walk of it gave.
proof fn lemma_kept_alike(v: VisitModel, earlier: TargetNode, b: TargetNode, o: int)
    requires
        keeps(v, earlier),
        proper(b),
        within(b.path@, v.root),
        stands_apart(v, visited(whole(v), earlier).units, b, o),
        visited(whole(v), b).units.len() > 0,
    ensures
        b.path@.len() <= longest(v.cached, v.cached.len() as int),
        all_alike(kept_tree(v.cached, v.root, b.path@), visited(whole(v), b).units),
    decreases b, 1nat, 0nat,
{
    let w = whole(v);
    let all = visited(w, earlier).units;
    let own = visited(w, b).units;
    let path = b.path@;
    let total = v.cached.len();
    lemma_whole(v, b);
    assert(own[0] == all[o + 0]);
    assert(v.cached[o].path == path);
    lemma_no_longer_than_longest(v.cached, total as int, o);
    lemma_within_itself(path);
    assert forall|j: int| 0 <= j < total && j != o implies !same_path((#[trigger] v.cached[j]).path, path) by {
        assert(v.cached[j].path == all[j].path);
        if same_path(v.cached[j].path, path) {
            assert(within(all[j].path, path));
            assert(own[j - o] == all[o + (j - o)]);
        }
    }
    lemma_kept_there(v.cached, path, total as int, o);
    let tree = kept_tree(v.cached, v.root, path);
    assert(alike(taken_over(v.cached[o]), all[o]));
    // What lies directly in it stands in its own block.
    assert forall|j: int| 0 <= j < total && kept_in(#[trigger] v.cached[j], v.root, path) implies o < j < o + own.len() by {
        lemma_within_parent(v.cached[j].path);
        assert(parent(v.cached[j].path)->0.parts() == path.parts());
        assert(within(v.cached[j].path, path));
        assert(all[j].path == v.cached[j].path);
    }
    lemma_nothing_under(v.cached, v.root, path, 0, (o + 1) as nat);
    if is_listed(b) {
        let n = b.entries@.len();
        let under = visited_under(w, b, n).units;
        assert(own =~= seq![own[0]] + under);
        lemma_kept_under_alike(v, earlier, b, o, n);
        lemma_nothing_under(v.cached, v.root, path, (o + own.len()) as nat, total);
        let below = kept_under(v.cached, v.root, path, total);
        assert(all_alike(below, under));
        assert(tree =~= seq![taken_over(v.cached[o])] + below);
        assert forall|k: int| 0 <= k < tree.len() implies alike(#[trigger] tree[k], own[k]) by {
            if k > 0 {
                assert(tree[k] == below[k - 1]);
                assert(own[k] == under[k - 1]);
            }
        }
    } else {
        lemma_nothing_under(v.cached, v.root, path, (o + 1) as nat, total);
        assert(kept_under(v.cached, v.root, path, total).len() == 0);
        assert(tree =~= seq![taken_over(v.cached[o])]);
    }
}

proof fn lemma_kept_under_alike(v: VisitModel, earlier: TargetNode, b: TargetNode, o: int, m: nat)
    requires
        keeps(v, earlier),
        proper(b),
        is_listed(b),
        within(b.path@, v.root),
        stands_apart(v, visited(whole(v), earlier).units, b, o),
        b.path@.len() <= longest(v.cached, v.cached.len() as int),
        m <= b.entries@.len(),
        forall|j: int|
            0 <= j < v.cached.len() && kept_in(#[trigger] v.cached[j], v.root, b.path@) ==> o < j,
    ensures
        o + 1 + visited_under(whole(v), b, m).units.len() <= v.cached.len(),
        all_alike(
            kept_under(v.cached, v.root, b.path@, (o + 1 + visited_under(whole(v), b, m).units.len()) as nat),
            visited_under(whole(v), b, m).units,
        ),
    decreases b, 0nat, m,
{
    let w = whole(v);
    let all = visited(w, earlier).units;
    let path = b.path@;
    let own = visited(w, b).units;
    let n = b.entries@.len();
    lemma_whole(v, b);
    assert(!stands(w, path));
    assert(own.len() > 0);
    if m == 0 {
        lemma_nothing_under(v.cached, v.root, path, 0, (o + 1) as nat);
        assert(kept_under(v.cached, v.root, path, (o + 1) as nat).len() == 0);
    } else {
        let l = (m - 1) as nat;
        lemma_kept_under_alike(v, earlier, b, o, l);
        lemma_order(b);
        lemma_entry_stands_apart(v, all, b, o, l as int);
        let i = entry_order(b.entries@)[l as int] as int;
        let e = b.entries@[i];
        assert(decreases_to!(b => b.entries@[i]));
        lemma_entry(b, n, i);
        let mine = visited(w, e).units;
        let prior = visited_under(w, b, l).units;
        let now = visited_under(w, b, m).units;
        assert(now =~= prior + mine);
        let from = (o + 1 + prior.len()) as nat;
        let to = (o + 1 + now.len()) as nat;
        lemma_within_parent(e.path@);
        assert(parent(e.path@)->0.parts() == path.parts());
        assert(within(e.path@, path));
        law_nesting_chains(e.path@, path, v.root);
        if mine.len() == 0 {
            assert(from == to);
            assert(now =~= prior);
        } else {
            lemma_whole(v, e);
            lemma_kept_alike(v, earlier, e, from as int);
            assert(mine[0] == all[from as int + 0]);
            assert(alike(taken_over(v.cached[from as int]), all[from as int]));
            assert(v.cached[from as int].path == e.path@);
            assert(kept_in(v.cached[from as int], v.root, path));
            let before = kept_under(v.cached, v.root, path, from);
            let more = kept_tree(v.cached, v.root, e.path@);
            assert(kept_under(v.cached, v.root, path, (from + 1) as nat) == before + more);
            assert forall|j: int| from + 1 <= j < to implies !kept_in(#[trigger] v.cached[j], v.root, path) by {
                let k = j - from;
                assert(mine[k] == all[from + k]);
                assert(alike(taken_over(v.cached[j]), all[j]));
                if parent(v.cached[j].path) is Some {
                    lemma_within_parent(v.cached[j].path);
                }
            }
            lemma_nothing_under(v.cached, v.root, path, (from + 1) as nat, to);
            let after = kept_under(v.cached, v.root, path, to);
            assert forall|k: int| 0 <= k < after.len() implies alike(#[trigger] after[k], now[k]) by {
                if k < before.len() {
                    assert(after[k] == before[k]);
                } else {
                    assert(after[k] == more[k - before.len()]);
                }
            }
        }
    }
}

/// Where what is kept are the units of an earlier walk, and the tree reads as it
/// did then wherever no change bears on it, a refresh gives what a whole walk of
/// the tree gives: the same units, of the same sizes, in the same order.
pub proof fn law_a_refresh_gives_what_a_whole_walk_gives(v: VisitModel, earlier: TargetNode, now: TargetNode)
    requires
        proper(earlier),
        proper(now),
        within(earlier.path@, v.root),
        v.changed is Some,
        keeps(v, earlier),
        otherwise_unchanged(v, earlier, now),
    ensures
        all_alike(visited(v, now).units, visited(whole(v), now).units),
    decreases now, 1nat, 0nat,
{
    let w = whole(v);
    let path = now.path@;
    let changed = v.changed->0;
    let all = visited(w, earlier).units;
    assert(!stands(w, path));
    if now.legible && stands(v, path) {
        if borne_on(changed, path) {
            lemma_borne_is_touched(changed, path);
        }
        lemma_kept(v.cached, path, v.cached.len() as int);
        let u = kept(v.cached, path, v.cached.len() as int)->0;
        let k = choose|k: int| 0 <= k < v.cached.len() && #[trigger] v.cached[k] == u;
        assert(found(now, Seq::empty()) == Some(now));
        assert(same_path(v.cached[k].path, now.path@));
        assert(read_before(v, earlier, now));
        let place = choose|place: Seq<int>|
            (#[trigger] found(earlier, place)) matches Some(b) && b.path@ == path && visited(w, b).units == visited(
                w,
                now,
            ).units;
        let b = found(earlier, place)->0;
        assert(stands_apart(v, all, earlier, 0));
        let o = lemma_found_stands_apart(v, all, earlier, 0, place);
        lemma_found(earlier, place);
        law_nesting_chains(b.path@, earlier.path@, v.root);
        assert(visited(w, b).units.len() > 0) by {
            assert(alike(taken_over(v.cached[k]), all[k]));
            lemma_within_itself(path);
            assert(all[k].path == v.cached[k].path);
            assert(within(all[k].path, b.path@));
        }
        lemma_kept_alike(v, earlier, b, o);
    } else if is_listed(now) {
        let n = now.entries@.len();
        assert forall|i: int| 0 <= i < n implies otherwise_unchanged(v, earlier, #[trigger] now.entries@[i]) by {
            let e = now.entries@[i];
            assert forall|place: Seq<int>| (#[trigger] found(e, place)) matches Some(x) ==> x.legible && !borne_on(
                changed,
                x.path@,
            ) && (exists|k: int| 0 <= k < v.cached.len() && same_path((#[trigger] v.cached[k]).path, x.path@))
                ==> read_before(v, earlier, x) by {
                let longer = seq![i] + place;
                assert(longer.skip(1) =~= place);
                assert(found(now, longer) == found(e, place));
            }
        }
        lemma_refresh_under(v, earlier, now, n);
        let a = visited(v, now).units;
        let b = visited(w, now).units;
        let x = visited_under(v, now, n).units;
        let y = visited_under(w, now, n).units;
        assert(a =~= seq![a[0]] + x);
        assert(b =~= seq![b[0]] + y);
        assert forall|k: int| 0 <= k < a.len() implies alike(#[trigger] a[k], b[k]) by {
            if k > 0 {
                assert(a[k] == x[k - 1] && b[k] == y[k - 1]);
            }
        }
    }
}

proof fn lemma_refresh_under(v: VisitModel, earlier: TargetNode, now: TargetNode, n: nat)
    requires
        proper(earlier),
        proper(now),
        within(earlier.path@, v.root),
        v.changed is Some,
        keeps(v, earlier),
        n <= now.entries@.len(),
        forall|i: int| 0 <= i < now.entries@.len() ==> otherwise_unchanged(v, earlier, #[trigger] now.entries@[i]),
    ensures
        all_alike(visited_under(v, now, n).units, visited_under(whole(v), now, n).units),
    decreases now, 0nat, n,
{
    if n > 0 {
        lemma_refresh_under(v, earlier, now, (n - 1) as nat);
        lemma_order(now);
        let i = entry_order(now.entries@)[n - 1] as int;
        lemma_entry(now, now.entries@.len(), i);
        law_a_refresh_gives_what_a_whole_walk_gives(v, earlier, now.entries@[i]);
    }
}

// ---------------------------------------------------------------------
// Adding up
// ---------------------------------------------------------------------

/// Whether two lists add up alike: the same tree, and the same sizes and
/// charges.
spec fn adds_alike(a: Seq<UnitModel>, b: Seq<UnitModel>) -> bool {
    a.len() == b.len() && forall|k: int|
        0 <= k < a.len() ==> {
            &&& (#[trigger] a[k]).id == b[k].id
            &&& a[k].path == b[k].path
            &&& a[k].parent_id == b[k].parent_id
            &&& a[k].is_dir == b[k].is_dir
            &&& a[k].device == b[k].device
            &&& a[k].inode == b[k].inode
            &&& a[k].bytes == b[k].bytes
            &&& a[k].logical_bytes == b[k].logical_bytes
        }
}

spec fn charges_alike(a: Seq<UnitModel>, b: Seq<UnitModel>) -> bool {
    adds_alike(a, b) && forall|k: int|
        0 <= k < a.len() ==> (#[trigger] a[k]).physical_bytes == b[k].physical_bytes && a[k].physical_total
            == b[k].physical_total
}

proof fn lemma_parents_alike(a: Seq<UnitModel>, b: Seq<UnitModel>, k: int)
    requires
        adds_alike(a, b),
        0 <= k < a.len(),
    ensures
        parent_place(a, k) == parent_place(b, k),
{
    assert(a[k].parent_id == b[k].parent_id);
    match a[k].parent_id {
        Some(id) => {
            lemma_places_alike(a, b, id, a.len() as int);
        },
        None => {},
    }
}

proof fn lemma_places_alike(a: Seq<UnitModel>, b: Seq<UnitModel>, id: Seq<char>, n: int)
    requires
        adds_alike(a, b),
        n <= a.len(),
    ensures
        place_of_id(a, id, n) == place_of_id(b, id, n),
        place_of_id(a, id, n) < n || n <= 0,
    decreases n,
{
    if n > 0 {
        assert(a[n - 1].id == b[n - 1].id);
        lemma_places_alike(a, b, id, n - 1);
    }
}

proof fn lemma_aggregated_alike(a: Seq<UnitModel>, b: Seq<UnitModel>, n: int)
    requires
        adds_alike(a, b),
        0 <= n <= a.len(),
    ensures
        adds_alike(aggregated(a, n), aggregated(b, n)),
        aggregated(a, n).len() == a.len(),
    decreases n,
{
    if n > 0 {
        lemma_parents_alike(a, b, n - 1);
        let x = add_child(a, n - 1);
        let y = add_child(b, n - 1);
        let p = parent_place(a, n - 1);
        if 0 <= p < a.len() {
            assert(a[p].bytes == b[p].bytes && a[n - 1].bytes == b[n - 1].bytes);
        }
        assert(adds_alike(x, y)) by {
            assert forall|k: int| 0 <= k < x.len() implies (#[trigger] x[k]).id == y[k].id && x[k].path == y[k].path
                && x[k].parent_id == y[k].parent_id && x[k].is_dir == y[k].is_dir && x[k].device == y[k].device
                && x[k].inode == y[k].inode && x[k].bytes == y[k].bytes && x[k].logical_bytes == y[k].logical_bytes by {
                assert(a[k].id == b[k].id);
                assert(a[n - 1].id == b[n - 1].id);
            }
        }
        lemma_aggregated_alike(x, y, n - 1);
    }
}

proof fn lemma_charged_alike(a: Seq<UnitModel>, b: Seq<UnitModel>)
    requires
        adds_alike(a, b),
    ensures
        charges_alike(charged(a), charged(b)),
{
    let x = charged(a);
    let y = charged(b);
    assert forall|k: int| 0 <= k < a.len() implies own_charge(a, k) == own_charge(b, k) by {
        assert(a[k].id == b[k].id);
        if seen_before(a, k) {
            let j = choose|j: int| 0 <= j < k && #[trigger] same_inode(a[j], a[k]);
            assert(a[j].id == b[j].id);
            assert(same_inode(b[j], b[k]));
        }
        if seen_before(b, k) {
            let j = choose|j: int| 0 <= j < k && #[trigger] same_inode(b[j], b[k]);
            assert(a[j].id == b[j].id);
            assert(same_inode(a[j], a[k]));
        }
    }
    assert forall|k: int| 0 <= k < x.len() implies (#[trigger] x[k]).id == y[k].id && x[k].path == y[k].path
        && x[k].parent_id == y[k].parent_id && x[k].is_dir == y[k].is_dir && x[k].device == y[k].device && x[k].inode
        == y[k].inode && x[k].bytes == y[k].bytes && x[k].logical_bytes == y[k].logical_bytes && x[k].physical_bytes
        == y[k].physical_bytes && x[k].physical_total == y[k].physical_total by {
        assert(a[k].id == b[k].id);
        assert(own_charge(a, k) == own_charge(b, k));
    }
}

proof fn lemma_rolled_alike(a: Seq<UnitModel>, b: Seq<UnitModel>, n: int)
    requires
        charges_alike(a, b),
        0 <= n <= a.len(),
    ensures
        charges_alike(rolled(a, n), rolled(b, n)),
    decreases n,
{
    if n > 0 {
        lemma_parents_alike(a, b, n - 1);
        let x = add_charge(a, n - 1);
        let y = add_charge(b, n - 1);
        assert(charges_alike(x, y)) by {
            assert forall|k: int| 0 <= k < x.len() implies (#[trigger] x[k]).id == y[k].id && x[k].path == y[k].path
                && x[k].parent_id == y[k].parent_id && x[k].is_dir == y[k].is_dir && x[k].device == y[k].device
                && x[k].inode == y[k].inode && x[k].bytes == y[k].bytes && x[k].logical_bytes == y[k].logical_bytes
                && x[k].physical_bytes == y[k].physical_bytes && x[k].physical_total == y[k].physical_total by {
                assert(a[k].id == b[k].id);
                assert(a[n - 1].id == b[n - 1].id);
            }
        }
        lemma_rolled_alike(x, y, n - 1);
    }
}

/// Where what is kept are the units of an earlier walk, and the tree reads as it
/// did then wherever no change bears on it, an inspection of the refresh has the
/// units, the sizes and the charges of an inspection of the whole.
pub proof fn law_a_refreshed_inspection_has_the_sizes_of_a_whole_one(
    v: VisitModel,
    earlier: TargetNode,
    now: TargetNode,
    owned: bool,
)
    requires
        proper(earlier),
        proper(now),
        within(earlier.path@, v.root),
        v.changed is Some,
        keeps(v, earlier),
        otherwise_unchanged(v, earlier, now),
    ensures
        ({
            let a = added_units(visited(v, now), owned);
            let b = added_units(visited(whole(v), now), owned);
            a.len() == b.len() && forall|k: int|
                0 <= k < a.len() ==> {
                    &&& (#[trigger] a[k]).path == b[k].path
                    &&& a[k].id == b[k].id
                    &&& a[k].is_dir == b[k].is_dir
                    &&& a[k].bytes == b[k].bytes
                    &&& a[k].logical_bytes == b[k].logical_bytes
                    &&& a[k].physical_bytes == b[k].physical_bytes
                    &&& a[k].physical_total == b[k].physical_total
                }
        }),
{
    let x = visited(v, now);
    let y = visited(whole(v), now);
    law_a_refresh_gives_what_a_whole_walk_gives(v, earlier, now);
    let a = plain_units(x, owned);
    let b = plain_units(y, owned);
    assert(adds_alike(a, b)) by {
        assert forall|k: int| 0 <= k < a.len() implies (#[trigger] a[k]).id == b[k].id && a[k].path == b[k].path
            && a[k].parent_id == b[k].parent_id && a[k].is_dir == b[k].is_dir && a[k].device == b[k].device
            && a[k].inode == b[k].inode && a[k].bytes == b[k].bytes && a[k].logical_bytes == b[k].logical_bytes by {
            assert(alike(x.units[k], y.units[k]));
        }
    }
    let n = a.len() as int;
    lemma_aggregated_alike(a, b, n);
    lemma_charged_alike(aggregated(a, n), aggregated(b, n));
    lemma_rolled_alike(charged(aggregated(a, n)), charged(aggregated(b, n)), n);
}

/// Whether a list has the form of another: the same tree of the same storage, a
/// directory's size and newest modification aside.
spec fn has_form(a: Seq<UnitModel>, b: Seq<UnitModel>) -> bool {
    a.len() == b.len() && forall|k: int| 0 <= k < a.len() ==> form_alike(#[trigger] a[k], b[k])
}

spec fn form_alike(a: UnitModel, b: UnitModel) -> bool {
    &&& a.id == b.id
    &&& a.path == b.path
    &&& a.relative_path == b.relative_path
    &&& a.parent_id == b.parent_id
    &&& a.container_id == b.container_id
    &&& a.is_dir == b.is_dir
    &&& a.device == b.device
    &&& a.inode == b.inode
    &&& a.membership == b.membership
    &&& !a.is_dir ==> a.bytes == b.bytes && a.logical_bytes == b.logical_bytes && a.mtime_max == b.mtime_max
}

proof fn lemma_aggregated_form(units: Seq<UnitModel>, n: int)
    requires
        tree_like(units),
        0 <= n <= units.len(),
    ensures
        has_form(aggregated(units, n), units),
    decreases n,
{
    if n > 0 {
        let i = n - 1;
        let next = add_child(units, i);
        let p = parent_place(units, i);
        if i > 0 {
            assert(0 <= p < i && units[p].is_dir);
        }
        assert(same_tree(units, next));
        assert(tree_like(next)) by {
            assert forall|k: int| 0 < k < next.len() implies 0 <= #[trigger] parent_place(next, k) < k
                && next[parent_place(next, k)].is_dir by {
                lemma_same_parents(units, next, k);
                assert(0 <= parent_place(units, k) < k);
                assert(units[parent_place(units, k)].is_dir);
            }
            lemma_same_parents(units, next, 0);
        }
        lemma_aggregated_form(next, i);
        assert forall|k: int| 0 <= k < units.len() implies form_alike(#[trigger] aggregated(units, n)[k], units[k]) by {
            assert(form_alike(aggregated(next, i)[k], next[k]));
            assert(form_alike(next[k], units[k]));
        }
    }
}

proof fn lemma_rolled_form(units: Seq<UnitModel>, n: int)
    requires
        0 <= n <= units.len(),
    ensures
        has_form(rolled(units, n), units),
    decreases n,
{
    if n > 0 {
        let next = add_charge(units, n - 1);
        lemma_rolled_form(next, n - 1);
        assert forall|k: int| 0 <= k < units.len() implies form_alike(#[trigger] rolled(units, n)[k], units[k]) by {
            assert(form_alike(rolled(next, n - 1)[k], next[k]));
            assert(form_alike(next[k], units[k]));
        }
    }
}

/// A whole walk does not depend on what is kept.
proof fn lemma_whole_walks_agree(a: VisitModel, b: VisitModel, node: TargetNode)
    requires
        a.changed is None,
        b.changed is None,
        a.root == b.root,
        a.scope == b.scope,
    ensures
        visited(a, node) == visited(b, node),
    decreases node, 1nat, 0nat,
{
    assert(!stands(a, node.path@) && !stands(b, node.path@));
    lemma_whole_walks_agree_under(a, b, node, node.entries@.len());
}

proof fn lemma_whole_walks_agree_under(a: VisitModel, b: VisitModel, node: TargetNode, n: nat)
    requires
        a.changed is None,
        b.changed is None,
        a.root == b.root,
        a.scope == b.scope,
        n <= node.entries@.len(),
    ensures
        visited_under(a, node, n) == visited_under(b, node, n),
    decreases node, 0nat, n,
{
    if n > 0 {
        lemma_whole_walks_agree_under(a, b, node, (n - 1) as nat);
        lemma_order(node);
        lemma_whole_walks_agree(a, b, node.entries@[entry_order(node.entries@)[n - 1] as int]);
    }
}

/// What a whole walk gives is not added up or charged yet.
proof fn lemma_fresh_units(v: VisitModel, node: TargetNode)
    requires
        v.changed is None,
    ensures
        forall|k: int|
            0 <= k < visited(v, node).units.len() ==> {
                &&& (#[trigger] visited(v, node).units[k]).physical_bytes == 0
                &&& visited(v, node).units[k].is_dir ==> visited(v, node).units[k].bytes == 0 && visited(
                    v,
                    node,
                ).units[k].logical_bytes == 0
            },
    decreases node, 1nat, 0nat,
{
    assert(!stands(v, node.path@));
    lemma_fresh_units_under(v, node, node.entries@.len());
}

proof fn lemma_fresh_units_under(v: VisitModel, node: TargetNode, n: nat)
    requires
        v.changed is None,
        n <= node.entries@.len(),
    ensures
        forall|k: int|
            0 <= k < visited_under(v, node, n).units.len() ==> {
                &&& (#[trigger] visited_under(v, node, n).units[k]).physical_bytes == 0
                &&& visited_under(v, node, n).units[k].is_dir ==> visited_under(v, node, n).units[k].bytes == 0
                    && visited_under(v, node, n).units[k].logical_bytes == 0
            },
    decreases node, 0nat, n,
{
    if n > 0 {
        lemma_fresh_units_under(v, node, (n - 1) as nat);
        lemma_order(node);
        lemma_fresh_units(v, node.entries@[entry_order(node.entries@)[n - 1] as int]);
    }
}

/// The units of an inspection can be kept: a refresh that is given them is given
/// the units of the walk they are from.
pub proof fn law_an_inspection_can_be_kept(
    v: VisitModel,
    earlier: TargetNode,
    owned: bool,
    facts: Seq<FactModel>,
    changed: Option<Seq<PathModel>>,
)
    requires
        v.changed is None,
        v.root == earlier.path@,
        proper(earlier),
    ensures
        keeps(
            VisitModel { cached: enriched(v.root, added_units(visited(v, earlier), owned), facts), changed, ..v },
            earlier,
        ),
{
    let w = visited(v, earlier);
    let plain = plain_units(w, owned);
    let n = plain.len() as int;
    lemma_walk_is_a_tree(v, earlier);
    assert(same_tree(w.units, plain));
    assert(tree_like(plain)) by {
        assert forall|k: int| 0 < k < plain.len() implies 0 <= #[trigger] parent_place(plain, k) < k
            && plain[parent_place(plain, k)].is_dir by {
            lemma_same_parents(w.units, plain, k);
            assert(0 <= parent_place(w.units, k) < k);
            assert(w.units[parent_place(w.units, k)].is_dir);
        }
        if plain.len() > 0 {
            lemma_same_parents(w.units, plain, 0);
        }
    }
    lemma_aggregated_form(plain, n);
    let sized = aggregated(plain, n);
    lemma_rolled_form(charged(sized), n);
    let added = added_units(w, owned);
    let all = enriched(v.root, added, facts);
    let next = VisitModel { cached: all, changed, ..v };
    lemma_whole_walks_agree(v, whole(next), earlier);
    lemma_fresh_units(v, earlier);
    assert forall|k: int| 0 <= k < w.units.len() implies alike(taken_over(#[trigger] all[k]), w.units[k]) by {
        law_enrichment_keeps_identity(v.root, added, facts, k);
        assert(form_alike(added[k], charged(sized)[k]));
        assert(form_alike(sized[k], plain[k]));
    }
}

} // verus!
