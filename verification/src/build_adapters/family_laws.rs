//! What a family row says is said of the units that are reviewed under it.

use super::summary::{
    all_complete, family_place, family_row, family_rows, guidance, in_family, is_outermost, known_time_of, members_of,
    oldest, one_basis, outermost_of, review_keys, reviewed, told, total, unknown_ages, FamilyRow,
};
use crate::artifact::{all_families, AccountingBasis, RoleFamily, UnitModel};
use crate::order::{at_places, before, lemma_lex_irreflexive, lemma_stable_places, place_in, stable_places};
use crate::path::PathModel;
use vstd::prelude::*;

verus! {

/// Whether places name each of `n` places once.
spec fn each_once(order: Seq<usize>, n: int) -> bool {
    &&& order.len() == n
    &&& forall|i: int| 0 <= i < order.len() ==> 0 <= #[trigger] order[i] < n
    &&& forall|i: int, j: int| 0 <= i < j < order.len() ==> #[trigger] order[i] != #[trigger] order[j]
    &&& forall|k: int| 0 <= k < n ==> #[trigger] place_in(order, k)
}

proof fn lemma_rearranged(s: Seq<UnitModel>, order: Seq<usize>)
    requires
        each_once(order, s.len() as int),
    ensures
        at_places(s, order).to_multiset() == s.to_multiset(),
    decreases s.len(),
{
    let n = s.len() as int;
    let a = at_places(s, order);
    if n == 0 {
        assert(a =~= s);
    } else {
        assert(place_in(order, n - 1));
        let j = choose|j: int| 0 <= j < order.len() && order[j] == n - 1;
        let head = s.drop_last();
        let rest = order.remove(j);
        assert forall|i: int| 0 <= i < rest.len() implies 0 <= #[trigger] rest[i] < n - 1 by {
            if i < j {
                assert(rest[i] == order[i]);
            } else {
                assert(rest[i] == order[i + 1]);
            }
        }
        assert forall|i: int, k: int| 0 <= i < k < rest.len() implies #[trigger] rest[i] != #[trigger] rest[k] by {
            let from = if i < j {
                i
            } else {
                i + 1
            };
            let to = if k < j {
                k
            } else {
                k + 1
            };
            assert(order[from] != order[to]);
        }
        assert forall|k: int| 0 <= k < n - 1 implies #[trigger] place_in(rest, k) by {
            assert(place_in(order, k));
            let i = choose|i: int| 0 <= i < order.len() && order[i] == k;
            if i < j {
                assert(rest[i] == k);
            } else {
                assert(rest[i - 1] == k);
            }
        }
        lemma_rearranged(head, rest);
        assert(a.remove(j) =~= at_places(head, rest));
        assert(a[j] == s.last());
        assert(s =~= head.push(s.last()));
        vstd::seq_lib::to_multiset_remove(a, j);
        vstd::seq_lib::to_multiset_build(head, s.last());
        vstd::seq_lib::to_multiset_contains(a, s.last());
        assert(a.contains(s.last()));
        assert(a.to_multiset() =~= a.to_multiset().remove(s.last()).insert(s.last()));
    }
}

/// The order of review leaves nothing out and adds nothing.
pub proof fn law_review_keeps_the_members(members: Seq<UnitModel>)
    requires
        members.len() <= usize::MAX,
    ensures
        reviewed(members).to_multiset() == members.to_multiset(),
{
    let keys = review_keys(members);
    let order = stable_places(keys);
    lemma_stable_places(keys);
    assert forall|i: int, j: int| 0 <= i < j < order.len() implies #[trigger] order[i] != #[trigger] order[j] by {
        assert(before(keys, order[i] as int, order[j] as int));
        lemma_lex_irreflexive(keys[order[i] as int]);
    }
    lemma_rearranged(members, order);
}

spec fn add_bytes() -> spec_fn(nat, UnitModel) -> nat {
    |sum: nat, u: UnitModel| sum + u.bytes as nat
}

spec fn add_unknown() -> spec_fn(nat, UnitModel) -> nat {
    |sum: nat, u: UnitModel|
        sum + (if known_time_of(u) is None {
            1nat
        } else {
            0nat
        })
}

spec fn older() -> spec_fn(Option<u64>, UnitModel) -> Option<u64> {
    |best: Option<u64>, u: UnitModel|
        match (best, known_time_of(u)) {
            (Some(a), Some(b)) => Some(
                if b < a {
                    b
                } else {
                    a
                },
            ),
            (Some(a), None) => Some(a),
            (None, t) => t,
        }
}

proof fn lemma_total_folds(units: Seq<UnitModel>)
    ensures
        total(units) == units.fold_left(0nat, add_bytes()),
    decreases units.len(),
{
    if units.len() > 0 {
        lemma_total_folds(units.drop_last());
    }
}

proof fn lemma_ages_fold(units: Seq<UnitModel>, n: int)
    requires
        0 <= n <= units.len(),
    ensures
        unknown_ages(units, n) == units.take(n).fold_left(0nat, add_unknown()),
        oldest(units, n) == units.take(n).fold_left(None, older()),
    decreases n,
{
    if n > 0 {
        lemma_ages_fold(units, n - 1);
        assert(units.take(n).drop_last() =~= units.take(n - 1));
        assert(units.take(n).last() == units[n - 1]);
    }
}

proof fn lemma_told(units: Seq<UnitModel>, n: int, t: Seq<char>)
    requires
        0 <= n <= units.len(),
    ensures
        told(units, n).contains(t) <==> exists|i: int| 0 <= i < n && (#[trigger] units[i]).consequence == Some(t),
    decreases n,
{
    if n > 0 {
        lemma_told(units, n - 1, t);
        let prior = told(units, n - 1);
        if told(units, n).contains(t) {
            let k = choose|k: int| 0 <= k < told(units, n).len() && told(units, n)[k] == t;
            if k < prior.len() {
                assert(prior[k] == t);
            } else {
                assert(units[n - 1].consequence == Some(t));
            }
        }
        if exists|i: int| 0 <= i < n && (#[trigger] units[i]).consequence == Some(t) {
            let i = choose|i: int| 0 <= i < n && (#[trigger] units[i]).consequence == Some(t);
            if i == n - 1 {
                assert(told(units, n)[prior.len() as int] == t);
            } else {
                assert(prior.contains(t));
                let k = choose|k: int| 0 <= k < prior.len() && prior[k] == t;
                assert(told(units, n)[k] == t);
            }
        }
    }
}

proof fn lemma_members_of_both(a: Seq<UnitModel>, b: Seq<UnitModel>, i: int) -> (j: int)
    requires
        a.to_multiset() == b.to_multiset(),
        0 <= i < a.len(),
    ensures
        0 <= j < b.len(),
        b[j] == a[i],
{
    vstd::seq_lib::to_multiset_contains(a, a[i]);
    vstd::seq_lib::to_multiset_contains(b, a[i]);
    assert(a.contains(a[i]));
    choose|j: int| 0 <= j < b.len() && b[j] == a[i]
}

proof fn lemma_told_same(a: Seq<UnitModel>, b: Seq<UnitModel>)
    requires
        a.to_multiset() == b.to_multiset(),
    ensures
        told(a, a.len() as int).to_set() == told(b, b.len() as int).to_set(),
{
    assert forall|t: Seq<char>|
        told(a, a.len() as int).to_set().contains(t) <==> told(b, b.len() as int).to_set().contains(t) by {
        lemma_told(a, a.len() as int, t);
        lemma_told(b, b.len() as int, t);
        if told(a, a.len() as int).contains(t) {
            let i = choose|i: int| 0 <= i < a.len() && (#[trigger] a[i]).consequence == Some(t);
            let j = lemma_members_of_both(a, b, i);
        }
        if told(b, b.len() as int).contains(t) {
            let i = choose|i: int| 0 <= i < b.len() && (#[trigger] b[i]).consequence == Some(t);
            let j = lemma_members_of_both(b, a, i);
        }
    }
    assert(told(a, a.len() as int).to_set() =~= told(b, b.len() as int).to_set());
}

proof fn lemma_one_basis(a: Seq<UnitModel>, b: Seq<UnitModel>)
    requires
        a.to_multiset() == b.to_multiset(),
        one_basis(a),
    ensures
        one_basis(b),
        b[0].basis == a[0].basis,
{
    let at = lemma_members_of_both(a, b, 0);
    assert forall|i: int| 0 <= i < b.len() implies (#[trigger] b[i]).basis == a[0].basis by {
        let j = lemma_members_of_both(b, a, i);
        assert(a[j].basis == a[0].basis);
    }
}

proof fn lemma_complete(a: Seq<UnitModel>, b: Seq<UnitModel>)
    requires
        a.to_multiset() == b.to_multiset(),
        all_complete(a),
    ensures
        all_complete(b),
{
    assert forall|i: int| 0 <= i < b.len() implies (#[trigger] b[i]).coverage.complete by {
        let j = lemma_members_of_both(b, a, i);
        assert(a[j].coverage.complete);
    }
}

/// Whether a row says what these members say together: how many they are, their
/// bytes where they are all on one basis, the oldest known time among them, how
/// many have none, whether all are complete, and how many consequences they
/// state beside the first.
pub open spec fn stands_for(row: FamilyRow, members: Seq<UnitModel>) -> bool {
    let n = members.len() as int;
    let kinds = told(members, n).to_set().len();
    &&& row.count == members.len()
    &&& row.bytes == (if one_basis(members) {
        total(members)
    } else {
        0
    })
    &&& row.basis == (if one_basis(members) {
        members[0].basis
    } else {
        AccountingBasis::Unknown
    })
    &&& row.oldest_modified == oldest(members, n)
    &&& row.unknown_age == unknown_ages(members, n)
    &&& row.complete == all_complete(members)
    &&& row.other_consequences == (if kinds > 0 {
        kinds - 1
    } else {
        0
    })
    &&& row.recommendation == guidance(row.family)
}

/// A row does not depend on the order its members are taken in.
proof fn lemma_stands_for_any_order(members: Seq<UnitModel>, other: Seq<UnitModel>, family: RoleFamily)
    requires
        members.to_multiset() == other.to_multiset(),
    ensures
        stands_for(family_row(members, family), other),
{
    vstd::seq_lib::to_multiset_len(members);
    vstd::seq_lib::to_multiset_len(other);
    assert(vstd::seq_lib::commutative_foldl(add_bytes()));
    assert(vstd::seq_lib::commutative_foldl(add_unknown()));
    assert(vstd::seq_lib::commutative_foldl(older()));
    lemma_total_folds(members);
    lemma_total_folds(other);
    lemma_ages_fold(members, members.len() as int);
    lemma_ages_fold(other, other.len() as int);
    assert(members.take(members.len() as int) =~= members);
    assert(other.take(other.len() as int) =~= other);
    vstd::seq_lib::lemma_fold_left_permutation(members, other, add_bytes(), 0nat);
    vstd::seq_lib::lemma_fold_left_permutation(members, other, add_unknown(), 0nat);
    vstd::seq_lib::lemma_fold_left_permutation(members, other, older(), None);
    lemma_told_same(members, other);
    if one_basis(members) {
        lemma_one_basis(members, other);
    }
    if one_basis(other) {
        lemma_one_basis(other, members);
    }
    if all_complete(members) {
        lemma_complete(members, other);
    }
    if all_complete(other) {
        lemma_complete(other, members);
    }
}

spec fn is_row(row: FamilyRow, outer: Seq<UnitModel>, n: int) -> bool {
    &&& members_of(outer, row.family).len() > 0
    &&& row == family_row(members_of(outer, row.family), row.family)
    &&& family_place(row.family) < n
}

/// Whether rows come in the order of the families, none twice.
pub open spec fn rows_in_order(rows: Seq<FamilyRow>) -> bool {
    forall|i: int, j: int|
        0 <= i < j < rows.len() ==> family_place((#[trigger] rows[i]).family) < family_place(
            (#[trigger] rows[j]).family,
        )
}

/// Whether a family has a row.
pub open spec fn has_row(rows: Seq<FamilyRow>, f: RoleFamily) -> bool {
    exists|i: int| 0 <= i < rows.len() && (#[trigger] rows[i]).family == f
}

proof fn lemma_family_places()
    ensures
        forall|k: int| 0 <= k < all_families().len() ==> family_place(#[trigger] all_families()[k]) == k,
        forall|f: RoleFamily|
            0 <= #[trigger] family_place(f) < all_families().len() ==> all_families()[family_place(f)] == f,
        forall|f: RoleFamily| 0 <= #[trigger] family_place(f),
        forall|f: RoleFamily| #[trigger] all_families().contains(f) <==> family_place(f) < all_families().len(),
{
    assert forall|f: RoleFamily| 0 <= #[trigger] family_place(f) < all_families().len() implies all_families()[
        family_place(f)
    ] == f by {
        match f {
            RoleFamily::Container => {},
            RoleFamily::Intermediates => {},
            RoleFamily::Outputs => {},
            RoleFamily::Tests => {},
            RoleFamily::Dependencies => {},
            RoleFamily::SharedStore => {},
            RoleFamily::Metadata => {},
            RoleFamily::Installations => {},
            RoleFamily::State => {},
            RoleFamily::Residual => {},
            RoleFamily::Unknown => {},
        }
    }
}

proof fn lemma_rows(outer: Seq<UnitModel>, families: Seq<RoleFamily>, n: int)
    requires
        0 <= n <= families.len(),
        forall|k: int| 0 <= k < families.len() ==> family_place(#[trigger] families[k]) == k,
        forall|f: RoleFamily| 0 <= #[trigger] family_place(f),
        forall|f: RoleFamily| #[trigger] family_place(f) < families.len() ==> families[family_place(f)] == f,
    ensures
        forall|i: int|
            0 <= i < family_rows(outer, families, n).len() ==> is_row(
                #[trigger] family_rows(outer, families, n)[i],
                outer,
                n,
            ),
        rows_in_order(family_rows(outer, families, n)),
        forall|f: RoleFamily|
            family_place(f) < n && members_of(outer, f).len() > 0 ==> #[trigger] has_row(
                family_rows(outer, families, n),
                f,
            ),
    decreases n,
{
    if n > 0 {
        lemma_rows(outer, families, n - 1);
        let prior = family_rows(outer, families, n - 1);
        let rows = family_rows(outer, families, n);
        let family = families[n - 1];
        let more = members_of(outer, family).len() > 0;
        assert(rows == if more {
            prior.push(family_row(members_of(outer, family), family))
        } else {
            prior
        });
        assert forall|i: int| 0 <= i < rows.len() implies is_row(#[trigger] rows[i], outer, n) by {
            if i < prior.len() {
                assert(is_row(prior[i], outer, n - 1));
            }
        }
        assert forall|i: int, j: int| 0 <= i < j < rows.len() implies family_place((#[trigger] rows[i]).family)
            < family_place((#[trigger] rows[j]).family) by {
            assert(is_row(prior[i], outer, n - 1));
            if j < prior.len() {
                assert(family_place(prior[i].family) < family_place(prior[j].family));
            }
        }
        assert forall|f: RoleFamily|
            family_place(f) < n && members_of(outer, f).len() > 0 implies #[trigger] has_row(rows, f) by {
            if family_place(f) < n - 1 {
                assert(has_row(prior, f));
                let i = choose|i: int| 0 <= i < prior.len() && (#[trigger] prior[i]).family == f;
                assert(rows[i].family == f);
            } else {
                assert(f == family);
                assert(rows[prior.len() as int].family == f);
            }
        }
    }
}

proof fn lemma_few_members(container: PathModel, units: Seq<UnitModel>, family: RoleFamily)
    ensures
        members_of(outermost_of(container, units), family).len() <= units.len(),
{
    units.lemma_filter_len(|u: UnitModel| is_outermost(container, units, u));
    outermost_of(container, units).lemma_filter_len(|u: UnitModel| in_family(u, family));
}

proof fn lemma_reviewed_members(container: PathModel, units: Seq<UnitModel>, family: RoleFamily)
    requires
        units.len() <= usize::MAX,
    ensures
        ({
            let members = members_of(outermost_of(container, units), family);
            &&& stands_for(family_row(members, family), reviewed(members))
            &&& reviewed(members).len() == members.len()
        }),
{
    let members = members_of(outermost_of(container, units), family);
    lemma_few_members(container, units, family);
    law_review_keeps_the_members(members);
    lemma_stands_for_any_order(members, reviewed(members), family);
}

/// A container has one row for each family that has a member, in the order of
/// the families, and each row says exactly what the units that are reviewed
/// under it say together.
pub proof fn law_rows_stand_for_their_members(container: PathModel, units: Seq<UnitModel>)
    requires
        units.len() <= usize::MAX,
    ensures
        ({
            let outer = outermost_of(container, units);
            let rows = family_rows(outer, all_families(), all_families().len() as int);
            &&& rows_in_order(rows)
            &&& forall|i: int|
                0 <= i < rows.len() ==> stands_for(
                    #[trigger] rows[i],
                    reviewed(members_of(outer, rows[i].family)),
                )
            &&& forall|f: RoleFamily|
                #[trigger] has_row(rows, f) <==> all_families().contains(f) && reviewed(members_of(outer, f)).len() > 0
        }),
{
    let outer = outermost_of(container, units);
    let families = all_families();
    let n = families.len() as int;
    let rows = family_rows(outer, families, n);
    lemma_family_places();
    lemma_rows(outer, families, n);
    assert forall|i: int| 0 <= i < rows.len() implies stands_for(
        #[trigger] rows[i],
        reviewed(members_of(outer, rows[i].family)),
    ) by {
        assert(is_row(rows[i], outer, n));
        lemma_reviewed_members(container, units, rows[i].family);
    }
    assert forall|f: RoleFamily|
        #[trigger] has_row(rows, f) <==> all_families().contains(f) && reviewed(members_of(outer, f)).len() > 0 by {
        lemma_reviewed_members(container, units, f);
        if has_row(rows, f) {
            let i = choose|i: int| 0 <= i < rows.len() && (#[trigger] rows[i]).family == f;
            assert(is_row(rows[i], outer, n));
        }
    }
}

} // verus!
