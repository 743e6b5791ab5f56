//! Folding totals upward, and charging each inode once.

use crate::artifact::{copy_units, units_view, NestedArtifact, UnitModel};
use crate::text::same;
use vstd::prelude::*;

verus! {

/// The place of the last unit with an id, among the first `n`; -1 where there
/// is none.
pub open spec fn place_of_id(units: Seq<UnitModel>, id: Seq<char>, n: int) -> int
    decreases n,
{
    if n <= 0 {
        -1
    } else if units[n - 1].id == id {
        n - 1
    } else {
        place_of_id(units, id, n - 1)
    }
}

/// The place of a unit's parent; -1 where it has none but itself.
pub open spec fn parent_place(units: Seq<UnitModel>, i: int) -> int {
    match units[i].parent_id {
        Some(id) => {
            let p = place_of_id(units, id, units.len() as int);
            if p == i {
                -1
            } else {
                p
            }
        },
        None => -1,
    }
}

fn find_id(units: &Vec<NestedArtifact>, id: &str) -> (r: Option<usize>)
    ensures
        match r {
            Some(p) => place_of_id(units_view(units@), id@, units@.len() as int) == p && p < units@.len(),
            None => place_of_id(units_view(units@), id@, units@.len() as int) == -1,
        },
{
    let ghost all = units_view(units@);
    let mut n: usize = units.len();
    while n > 0
        invariant
            n <= units@.len(),
            all == units_view(units@),
            place_of_id(all, id@, units@.len() as int) == place_of_id(all, id@, n as int),
        decreases n,
    {
        assert(all[n - 1] == units@[n - 1]@);
        if same(units[n - 1].id.as_str(), id) {
            return Some(n - 1);
        }
        n -= 1;
    }
    None
}

fn find_parent(units: &Vec<NestedArtifact>, i: usize) -> (r: Option<usize>)
    requires
        i < units@.len(),
    ensures
        match r {
            Some(p) => parent_place(units_view(units@), i as int) == p && p < units@.len() && p != i,
            None => parent_place(units_view(units@), i as int) == -1,
        },
{
    assert(units_view(units@)[i as int] == units@[i as int]@);
    assert(units_view(units@).len() == units@.len());
    match &units[i].parent_id {
        Some(id) => match find_id(units, id.as_str()) {
            Some(p) => if p == i {
                None
            } else {
                Some(p)
            },
            None => None,
        },
        None => None,
    }
}

// ---------------------------------------------------------------------
// Sizes
// ---------------------------------------------------------------------

/// A directory with one child's size and newest modification added.
pub open spec fn with_child(parent: UnitModel, child: UnitModel) -> UnitModel {
    UnitModel {
        bytes: (parent.bytes + child.bytes) as u64,
        logical_bytes: (parent.logical_bytes + child.logical_bytes) as u64,
        mtime_max: if child.mtime_max > parent.mtime_max {
            child.mtime_max
        } else {
            parent.mtime_max
        },
        ..parent
    }
}

pub open spec fn add_child(units: Seq<UnitModel>, i: int) -> Seq<UnitModel> {
    let p = parent_place(units, i);
    if 0 <= p < units.len() {
        units.update(p, with_child(units[p], units[i]))
    } else {
        units
    }
}

/// The first `n` units added to their parents, the last first.
pub open spec fn aggregated(units: Seq<UnitModel>, n: int) -> Seq<UnitModel>
    decreases n,
{
    if n <= 0 {
        units
    } else {
        aggregated(add_child(units, n - 1), n - 1)
    }
}

pub open spec fn child_fits(units: Seq<UnitModel>, i: int) -> bool {
    let p = parent_place(units, i);
    0 <= p < units.len() ==> {
        &&& units[p].bytes + units[i].bytes <= u64::MAX
        &&& units[p].logical_bytes + units[i].logical_bytes <= u64::MAX
    }
}

/// Whether every sum on the way fits.
pub open spec fn sizes_fit(units: Seq<UnitModel>, n: int) -> bool
    decreases n,
{
    n <= 0 || (child_fits(units, n - 1) && sizes_fit(add_child(units, n - 1), n - 1))
}

/// Tests whether every sum on the way up fits, on a copy.
pub fn do_sizes_fit(units: &Vec<NestedArtifact>) -> (r: bool)
    ensures
        r == sizes_fit(units_view(units@), units@.len() as int),
{
    let ghost start = units_view(units@);
    let mut work = copy_units(units);
    assert(units_view(work@).len() == work@.len());
    let mut n: usize = work.len();
    while n > 0
        invariant
            n <= work@.len(),
            work@.len() == start.len(),
            units@.len() == start.len(),
            start == units_view(units@),
            sizes_fit(start, start.len() as int) == sizes_fit(units_view(work@), n as int),
        decreases n,
    {
        let i: usize = n - 1;
        let ghost now = units_view(work@);
        match find_parent(&work, i) {
            Some(p) => {
                assert(now[p as int] == work@[p as int]@);
                assert(now[i as int] == work@[i as int]@);
                if work[i].bytes > u64::MAX - work[p].bytes || work[i].logical_bytes > u64::MAX - work[p].logical_bytes {
                    assert(!child_fits(now, i as int));
                    return false;
                }
                assert(child_fits(now, i as int));
                let mut u = work[p].copy();
                u.bytes = work[p].bytes + work[i].bytes;
                u.logical_bytes = work[p].logical_bytes + work[i].logical_bytes;
                if work[i].mtime_max > work[p].mtime_max {
                    u.mtime_max = work[i].mtime_max;
                }
                assert(u@ == with_child(now[p as int], now[i as int]));
                work.set(p, u);
                assert(units_view(work@) =~= add_child(now, i as int));
            },
            None => {
                assert(add_child(now, i as int) == now);
            },
        }
        n -= 1;
    }
    true
}

/// Folds sizes and newest modifications upward, once.
pub fn aggregate_units(units: &mut Vec<NestedArtifact>)
    requires
        sizes_fit(units_view(old(units)@), old(units)@.len() as int),
    ensures
        units_view(final(units)@) == aggregated(units_view(old(units)@), old(units)@.len() as int),
{
    let ghost start = units_view(units@);
    let mut n: usize = units.len();
    while n > 0
        invariant
            n <= units@.len(),
            units@.len() == start.len(),
            sizes_fit(units_view(units@), n as int),
            aggregated(start, start.len() as int) == aggregated(units_view(units@), n as int),
        decreases n,
    {
        let i: usize = n - 1;
        let ghost now = units_view(units@);
        match find_parent(units, i) {
            Some(p) => {
                assert(now[p as int] == units@[p as int]@);
                assert(now[i as int] == units@[i as int]@);
                assert(child_fits(now, i as int));
                let mut u = units[p].copy();
                u.bytes = units[p].bytes + units[i].bytes;
                u.logical_bytes = units[p].logical_bytes + units[i].logical_bytes;
                if units[i].mtime_max > units[p].mtime_max {
                    u.mtime_max = units[i].mtime_max;
                }
                assert(u@ == with_child(now[p as int], now[i as int]));
                units.set(p, u);
                assert(units_view(units@) =~= add_child(now, i as int));
            },
            None => {
                assert(add_child(now, i as int) == now);
            },
        }
        n -= 1;
    }
}

// ---------------------------------------------------------------------
// Charges
// ---------------------------------------------------------------------

pub open spec fn same_inode(a: UnitModel, b: UnitModel) -> bool {
    !a.is_dir && !b.is_dir && a.device == b.device && a.inode == b.inode
}

/// Whether an earlier file has the same inode as unit `i`.
pub open spec fn seen_before(units: Seq<UnitModel>, i: int) -> bool {
    exists|j: int| 0 <= j < i && #[trigger] same_inode(units[j], units[i])
}

/// What is charged to a unit alone: a file's bytes, the first time its inode is
/// met.
pub open spec fn own_charge(units: Seq<UnitModel>, i: int) -> u64 {
    if !units[i].is_dir && !seen_before(units, i) {
        units[i].bytes
    } else {
        0
    }
}

pub open spec fn with_charge(units: Seq<UnitModel>, i: int) -> UnitModel {
    UnitModel { physical_bytes: own_charge(units, i), physical_total: own_charge(units, i), ..units[i] }
}

/// Every unit with what is charged to it alone.
pub open spec fn charged(units: Seq<UnitModel>) -> Seq<UnitModel> {
    Seq::new(units.len(), |i: int| with_charge(units, i))
}

pub open spec fn add_charge(units: Seq<UnitModel>, i: int) -> Seq<UnitModel> {
    let p = parent_place(units, i);
    if 0 <= p < units.len() {
        units.update(
            p,
            UnitModel { physical_total: (units[p].physical_total + units[i].physical_total) as u64, ..units[p] },
        )
    } else {
        units
    }
}

/// The charges of the first `n` units added to their parents, the last first.
pub open spec fn rolled(units: Seq<UnitModel>, n: int) -> Seq<UnitModel>
    decreases n,
{
    if n <= 0 {
        units
    } else {
        rolled(add_charge(units, n - 1), n - 1)
    }
}

pub open spec fn charge_fits(units: Seq<UnitModel>, i: int) -> bool {
    let p = parent_place(units, i);
    0 <= p < units.len() ==> units[p].physical_total + units[i].physical_total <= u64::MAX
}

pub open spec fn charges_fit(units: Seq<UnitModel>, n: int) -> bool
    decreases n,
{
    n <= 0 || (charge_fits(units, n - 1) && charges_fit(add_charge(units, n - 1), n - 1))
}

fn is_seen_before(units: &Vec<NestedArtifact>, i: usize) -> (r: bool)
    requires
        i < units@.len(),
    ensures
        r == seen_before(units_view(units@), i as int),
{
    let ghost all = units_view(units@);
    let mut j: usize = 0;
    while j < i
        invariant
            j <= i < units@.len(),
            all == units_view(units@),
            forall|k: int| 0 <= k < j ==> !#[trigger] same_inode(all[k], all[i as int]),
        decreases i - j,
    {
        assert(all[j as int] == units@[j as int]@);
        assert(all[i as int] == units@[i as int]@);
        if !units[j].is_dir && !units[i].is_dir && units[j].device == units[i].device && units[j].inode
            == units[i].inode {
            assert(same_inode(all[j as int], all[i as int]));
            return true;
        }
        j += 1;
    }
    false
}

fn charge_each(units: &Vec<NestedArtifact>) -> (r: Vec<NestedArtifact>)
    ensures
        units_view(r@) == charged(units_view(units@)),
{
    let ghost all = units_view(units@);
    let mut out: Vec<NestedArtifact> = Vec::new();
    let mut i: usize = 0;
    assert(units_view(out@) =~= charged(all).take(0));
    while i < units.len()
        invariant
            i <= units@.len(),
            all == units_view(units@),
            units_view(out@) == charged(all).take(i as int),
        decreases units@.len() - i,
    {
        assert(all[i as int] == units@[i as int]@);
        let mut u = units[i].copy();
        let bytes: u64 = if !units[i].is_dir && !is_seen_before(units, i) {
            units[i].bytes
        } else {
            0
        };
        u.physical_bytes = bytes;
        u.physical_total = bytes;
        assert(u@ == with_charge(all, i as int));
        crate::artifact::push_unit(&mut out, u);
        i += 1;
        assert(units_view(out@) =~= charged(all).take(i as int));
    }
    assert(charged(all).take(i as int) =~= charged(all));
    out
}

/// Tests whether every charge on the way up fits, on a copy.
pub fn do_charges_fit(units: &Vec<NestedArtifact>) -> (r: bool)
    ensures
        r == charges_fit(charged(units_view(units@)), units@.len() as int),
{
    let mut work = charge_each(units);
    let ghost start = units_view(work@);
    assert(start.len() == units@.len());
    assert(work@.len() == start.len());
    let mut n: usize = work.len();
    while n > 0
        invariant
            n <= work@.len(),
            work@.len() == start.len(),
            units@.len() == start.len(),
            start == charged(units_view(units@)),
            charges_fit(start, start.len() as int) == charges_fit(units_view(work@), n as int),
        decreases n,
    {
        let i: usize = n - 1;
        let ghost now = units_view(work@);
        match find_parent(&work, i) {
            Some(p) => {
                assert(now[p as int] == work@[p as int]@);
                assert(now[i as int] == work@[i as int]@);
                if work[i].physical_total > u64::MAX - work[p].physical_total {
                    assert(!charge_fits(now, i as int));
                    return false;
                }
                assert(charge_fits(now, i as int));
                let mut u = work[p].copy();
                u.physical_total = work[p].physical_total + work[i].physical_total;
                work.set(p, u);
                assert(units_view(work@) =~= add_charge(now, i as int));
            },
            None => {
                assert(add_charge(now, i as int) == now);
            },
        }
        n -= 1;
    }
    true
}

/// One charge per inode across all units, folded upward.
pub fn charge_physical(units: &mut Vec<NestedArtifact>)
    requires
        charges_fit(charged(units_view(old(units)@)), old(units)@.len() as int),
    ensures
        units_view(final(units)@) == rolled(charged(units_view(old(units)@)), old(units)@.len() as int),
{
    let mut work = charge_each(units);
    let ghost start = units_view(work@);
    assert(start.len() == units@.len());
    assert(work@.len() == start.len());
    let mut n: usize = work.len();
    while n > 0
        invariant
            n <= work@.len(),
            work@.len() == start.len(),
            charges_fit(units_view(work@), n as int),
            rolled(start, start.len() as int) == rolled(units_view(work@), n as int),
        decreases n,
    {
        let i: usize = n - 1;
        let ghost now = units_view(work@);
        match find_parent(&work, i) {
            Some(p) => {
                assert(now[p as int] == work@[p as int]@);
                assert(now[i as int] == work@[i as int]@);
                assert(charge_fits(now, i as int));
                let mut u = work[p].copy();
                u.physical_total = work[p].physical_total + work[i].physical_total;
                work.set(p, u);
                assert(units_view(work@) =~= add_charge(now, i as int));
            },
            None => {
                assert(add_charge(now, i as int) == now);
            },
        }
        n -= 1;
    }
    *units = work;
}

// ---------------------------------------------------------------------
// Laws
// ---------------------------------------------------------------------

/// Of two files with one inode only the first is charged.
pub proof fn law_one_charge_per_inode(units: Seq<UnitModel>, i: int, j: int)
    requires
        0 <= i < j < units.len(),
        same_inode(units[i], units[j]),
    ensures
        charged(units)[j].physical_bytes == 0,
{
    assert(seen_before(units, j));
}

/// The charges of units added up.
pub open spec fn charge_sum(units: Seq<UnitModel>, n: int) -> nat
    decreases n,
{
    if n <= 0 {
        0
    } else {
        charge_sum(units, n - 1) + units[n - 1].physical_total as nat
    }
}

/// Whether every unit but the first has its parent before it.
pub open spec fn rooted(units: Seq<UnitModel>) -> bool {
    forall|i: int| 0 < i < units.len() ==> 0 <= #[trigger] parent_place(units, i) < i
}

/// Whether two lists have the same ids and parents.
pub open spec fn same_tree(a: Seq<UnitModel>, b: Seq<UnitModel>) -> bool {
    &&& a.len() == b.len()
    &&& forall|i: int| 0 <= i < a.len() ==> (#[trigger] a[i]).id == b[i].id && a[i].parent_id == b[i].parent_id
}

proof fn lemma_same_place(a: Seq<UnitModel>, b: Seq<UnitModel>, id: Seq<char>, n: int)
    requires
        same_tree(a, b),
        n <= a.len(),
    ensures
        place_of_id(a, id, n) == place_of_id(b, id, n),
    decreases n,
{
    if n > 0 {
        assert(a[n - 1].id == b[n - 1].id);
        lemma_same_place(a, b, id, n - 1);
    }
}

pub(crate) proof fn lemma_same_parents(a: Seq<UnitModel>, b: Seq<UnitModel>, i: int)
    requires
        same_tree(a, b),
        0 <= i < a.len(),
    ensures
        parent_place(a, i) == parent_place(b, i),
{
    assert(a[i].parent_id == b[i].parent_id);
    match a[i].parent_id {
        Some(id) => {
            lemma_same_place(a, b, id, a.len() as int);
        },
        None => {},
    }
}

pub(crate) proof fn lemma_sum_update(units: Seq<UnitModel>, p: int, u: UnitModel, n: int)
    requires
        0 <= p < units.len(),
        n <= units.len(),
    ensures
        charge_sum(units.update(p, u), n) == charge_sum(units, n) + (if p < n {
            u.physical_total - units[p].physical_total
        } else {
            0
        }),
    decreases n,
{
    if n > 0 {
        lemma_sum_update(units, p, u, n - 1);
    }
}

proof fn lemma_rolled(units: Seq<UnitModel>, n: int)
    requires
        rooted(units),
        1 <= n <= units.len(),
        charges_fit(units, n),
    ensures
        rolled(units, n).len() == units.len(),
        rolled(units, n)[0].physical_total == charge_sum(units, n),
    decreases n,
{
    let i = n - 1;
    let next = add_charge(units, i);
    if i == 0 {
        reveal_with_fuel(rolled, 2);
        reveal_with_fuel(charge_sum, 2);
        assert(charge_fits(units, 0));
        lemma_first(units);
    } else {
        let p = parent_place(units, i);
        assert(0 <= p < i);
        assert(charge_fits(units, i));
        assert(same_tree(units, next));
        assert forall|k: int| 0 < k < next.len() implies 0 <= #[trigger] parent_place(next, k) < k by {
            lemma_same_parents(units, next, k);
            assert(0 <= parent_place(units, k) < k);
        }
        lemma_sum_update(units, p, next[p], i);
        lemma_rolled(next, i);
    }
}

/// The first unit of a rooted list may still name a parent; then it adds its
/// charge there and keeps its own.
proof fn lemma_first(units: Seq<UnitModel>)
    requires
        units.len() >= 1,
    ensures
        add_charge(units, 0)[0].physical_total == units[0].physical_total,
        add_charge(units, 0).len() == units.len(),
{
    let p = parent_place(units, 0);
    assert(p != 0);
}

/// Where every unit comes after its parent, the first unit's total is the sum
/// of all charges: nothing is lost on the way up, and nothing counted twice.
pub proof fn law_charges_add_up_to_the_container(units: Seq<UnitModel>)
    requires
        units.len() > 0,
        rooted(units),
        charges_fit(charged(units), units.len() as int),
    ensures
        rolled(charged(units), units.len() as int)[0].physical_total == charge_sum(charged(units), units.len() as int),
{
    let c = charged(units);
    assert(same_tree(units, c));
    assert forall|k: int| 0 < k < c.len() implies 0 <= #[trigger] parent_place(c, k) < k by {
        lemma_same_parents(units, c, k);
        assert(0 <= parent_place(units, k) < k);
    }
    lemma_rolled(c, units.len() as int);
}

/// Whether every unit comes after its parent, where the list holds one.
pub open spec fn parents_first(units: Seq<UnitModel>) -> bool {
    forall|i: int| 0 <= i < units.len() ==> #[trigger] parent_place(units, i) < i
}

/// The totals of the children of unit `i`, among the first `n` units.
pub open spec fn children_total(units: Seq<UnitModel>, i: int, n: int) -> nat
    decreases n,
{
    if n <= 0 {
        0
    } else {
        children_total(units, i, n - 1) + (if parent_place(units, n - 1) == i {
            units[n - 1].physical_total as nat
        } else {
            0
        })
    }
}

proof fn lemma_no_earlier_children(units: Seq<UnitModel>, i: int, n: int)
    requires
        parents_first(units),
        n <= i + 1,
        n <= units.len(),
    ensures
        children_total(units, i, n) == 0,
    decreases n,
{
    if n > 0 {
        assert(parent_place(units, n - 1) < n - 1);
        lemma_no_earlier_children(units, i, n - 1);
    }
}

/// Rolling up changes nothing but totals.
proof fn lemma_rolled_keeps(units: Seq<UnitModel>, n: int)
    ensures
        rolled(units, n).len() == units.len(),
        forall|i: int|
            0 <= i < units.len() ==> (#[trigger] rolled(units, n)[i]) == (UnitModel {
                physical_total: rolled(units, n)[i].physical_total,
                ..units[i]
            }),
    decreases n,
{
    if n > 0 {
        lemma_rolled_keeps(add_charge(units, n - 1), n - 1);
    }
}

/// From where the first `n` units are left to roll up: each of them ends with
/// its own total and those of its children, and the rest keep theirs.
proof fn lemma_each_total(units: Seq<UnitModel>, n: int)
    requires
        parents_first(units),
        0 <= n <= units.len(),
        charges_fit(units, n),
    ensures
        same_tree(units, rolled(units, n)),
        forall|i: int|
            n <= i < units.len() ==> (#[trigger] rolled(units, n)[i]).physical_total == units[i].physical_total,
        forall|i: int|
            0 <= i < n ==> (#[trigger] rolled(units, n)[i]).physical_total == units[i].physical_total
                + children_total(rolled(units, n), i, n),
    decreases n,
{
    lemma_rolled_keeps(units, n);
    let r = rolled(units, n);
    assert forall|i: int| 0 <= i < units.len() implies (#[trigger] units[i]).id == r[i].id && units[i].parent_id
        == r[i].parent_id by {
        assert(r[i] == (UnitModel { physical_total: r[i].physical_total, ..units[i] }));
    }
    if n > 0 {
        let k = n - 1;
        let next = add_charge(units, k);
        let p = parent_place(units, k);
        assert(p < k);
        assert(charge_fits(units, k));
        assert(same_tree(units, next));
        assert forall|i: int| 0 <= i < next.len() implies #[trigger] parent_place(next, i) < i by {
            lemma_same_parents(units, next, i);
            assert(parent_place(units, i) < i);
        }
        lemma_each_total(next, k);
        assert forall|i: int| 0 <= i < r.len() implies #[trigger] parent_place(r, i) < i by {
            lemma_same_parents(units, r, i);
            assert(parent_place(units, i) < i);
        }
        lemma_same_parents(units, r, k);
        assert(r[k].physical_total == next[k].physical_total);
        assert(next[k].physical_total == units[k].physical_total);
        lemma_no_earlier_children(r, k, n);
        assert forall|i: int| 0 <= i < n implies (#[trigger] r[i]).physical_total == units[i].physical_total
            + children_total(r, i, n) by {
            if i < k {
                assert(r[i].physical_total == next[i].physical_total + children_total(r, i, k));
            }
        }
    }
}

/// What charging does, where every unit comes after its parent. A file is
/// charged its bytes the first time its inode is met, and every other unit
/// nothing; each total is the unit's own charge and the totals of its children;
/// and no other field, and no place, changes.
pub proof fn law_each_total_is_its_own_and_its_children(units: Seq<UnitModel>)
    requires
        parents_first(units),
        charges_fit(charged(units), units.len() as int),
    ensures
        ({
            let r = rolled(charged(units), units.len() as int);
            &&& r.len() == units.len()
            &&& forall|i: int|
                0 <= i < units.len() ==> (#[trigger] r[i]) == (UnitModel {
                    physical_bytes: own_charge(units, i),
                    physical_total: r[i].physical_total,
                    ..units[i]
                })
            &&& forall|i: int|
                0 <= i < units.len() ==> (#[trigger] r[i]).physical_total == r[i].physical_bytes + children_total(
                    r,
                    i,
                    r.len() as int,
                )
        }),
{
    let c = charged(units);
    let n = units.len() as int;
    let r = rolled(c, n);
    assert(same_tree(units, c));
    assert forall|i: int| 0 <= i < c.len() implies #[trigger] parent_place(c, i) < i by {
        lemma_same_parents(units, c, i);
        assert(parent_place(units, i) < i);
    }
    lemma_rolled_keeps(c, n);
    lemma_each_total(c, n);
    assert forall|i: int| 0 <= i < n implies (#[trigger] r[i]) == (UnitModel {
        physical_bytes: own_charge(units, i),
        physical_total: r[i].physical_total,
        ..units[i]
    }) by {
        assert(c[i] == with_charge(units, i));
        assert(r[i] == (UnitModel { physical_total: r[i].physical_total, ..c[i] }));
    }
    assert forall|i: int| 0 <= i < n implies (#[trigger] r[i]).physical_total == r[i].physical_bytes + children_total(
        r,
        i,
        r.len() as int,
    ) by {
        assert(c[i] == with_charge(units, i));
    }
}

/// Units that were charged are charged as they are: charging again changes
/// nothing.
pub proof fn law_charging_again_changes_nothing(units: Seq<UnitModel>)
    ensures
        ({
            let r = rolled(charged(units), units.len() as int);
            rolled(charged(r), r.len() as int) == r
        }),
{
    let c = charged(units);
    let n = units.len() as int;
    let r = rolled(c, n);
    lemma_rolled_keeps(c, n);
    assert forall|i: int| 0 <= i < n implies {
        let u = #[trigger] r[i];
        u.bytes == units[i].bytes && u.is_dir == units[i].is_dir && u.device == units[i].device && u.inode
            == units[i].inode
    } by {
        assert(c[i] == with_charge(units, i));
        assert(r[i] == (UnitModel { physical_total: r[i].physical_total, ..c[i] }));
    }
    assert forall|i: int| 0 <= i < n implies #[trigger] charged(r)[i] == c[i] by {
        assert(r[i] == (UnitModel { physical_total: r[i].physical_total, ..c[i] }));
        assert(seen_before(r, i) == seen_before(units, i)) by {
            if seen_before(r, i) {
                let j = choose|j: int| 0 <= j < i && #[trigger] same_inode(r[j], r[i]);
                assert(same_inode(units[j], units[i]));
            }
            if seen_before(units, i) {
                let j = choose|j: int| 0 <= j < i && #[trigger] same_inode(units[j], units[i]);
                assert(same_inode(r[j], r[i]));
            }
        }
        assert(c[i] == with_charge(units, i));
        assert(charged(r)[i] == with_charge(r, i));
    }
    assert(charged(r) =~= c);
}

/// The sizes of units added up.
pub open spec fn size_sum(units: Seq<UnitModel>, n: int) -> nat
    decreases n,
{
    if n <= 0 {
        0
    } else {
        size_sum(units, n - 1) + units[n - 1].bytes as nat
    }
}

pub(crate) proof fn lemma_size_update(units: Seq<UnitModel>, p: int, u: UnitModel, n: int)
    requires
        0 <= p < units.len(),
        n <= units.len(),
    ensures
        size_sum(units.update(p, u), n) == size_sum(units, n) + (if p < n {
            u.bytes - units[p].bytes
        } else {
            0
        }),
    decreases n,
{
    if n > 0 {
        lemma_size_update(units, p, u, n - 1);
    }
}

proof fn lemma_aggregated(units: Seq<UnitModel>, n: int)
    requires
        rooted(units),
        1 <= n <= units.len(),
        sizes_fit(units, n),
    ensures
        aggregated(units, n).len() == units.len(),
        aggregated(units, n)[0].bytes == size_sum(units, n),
    decreases n,
{
    let i = n - 1;
    let next = add_child(units, i);
    if i == 0 {
        reveal_with_fuel(aggregated, 2);
        reveal_with_fuel(size_sum, 2);
        assert(parent_place(units, 0) != 0);
    } else {
        let p = parent_place(units, i);
        assert(0 <= p < i);
        assert(child_fits(units, i));
        assert(same_tree(units, next));
        assert forall|k: int| 0 < k < next.len() implies 0 <= #[trigger] parent_place(next, k) < k by {
            lemma_same_parents(units, next, k);
            assert(0 <= parent_place(units, k) < k);
        }
        lemma_size_update(units, p, next[p], i);
        lemma_aggregated(next, i);
    }
}

/// Where every unit comes after its parent, the first unit's size is the sum of
/// all of them.
pub proof fn law_sizes_add_up_to_the_container(units: Seq<UnitModel>)
    requires
        units.len() > 0,
        rooted(units),
        sizes_fit(units, units.len() as int),
    ensures
        aggregated(units, units.len() as int)[0].bytes == size_sum(units, units.len() as int),
{
    lemma_aggregated(units, units.len() as int);
}

} // verus!
