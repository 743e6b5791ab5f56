//! Collapsing a container's inside into one row per role family.
//!
//! Only nonempty supported candidates count. A unit inside another unit is not
//! counted again; numbers on different bases are never added; and what the
//! units do not account for is reported, never dropped.

use crate::artifact::{
    all_families, units_view, AccountingBasis, ArtifactRole, NestedArtifact, RoleFamily, TimeSource, UnitModel,
};
use crate::order::{
    at_places, before, falling_key, keys_of, law_number_keys_order_numbers, lemma_lex_asymmetric, lemma_lex_concat,
    lemma_lex_irreflexive, lemma_stable_places, lex_less, push_falling, push_rising, rising_key, sort_places,
    stable_places,
};
use crate::path::{inside, path_key, same_path, FsPath, PathModel};
use crate::text::{copy_opt, holds_text, opt_text, push_text, texts};
use vstd::prelude::*;

verus! {

pub open spec fn unit_refs(s: Seq<&NestedArtifact>) -> Seq<UnitModel> {
    Seq::new(s.len(), |i: int| s[i]@)
}

// ---------------------------------------------------------------------
// Outermost units
// ---------------------------------------------------------------------

/// Whether a unit is inside a container and counts there.
pub open spec fn counts_in(container: PathModel, u: UnitModel) -> bool {
    u.present && inside(u.path, container) && u.role != ArtifactRole::Container
}

/// Whether a directory unit that counts holds another unit.
pub open spec fn holds(container: PathModel, outer: UnitModel, u: UnitModel) -> bool {
    counts_in(container, outer) && outer.is_dir && inside(u.path, outer.path)
}

/// Whether some directory unit holds a unit.
pub open spec fn covered(container: PathModel, units: Seq<UnitModel>, u: UnitModel) -> bool {
    exists|i: int| 0 <= i < units.len() && #[trigger] holds(container, units[i], u)
}

pub open spec fn is_outermost(container: PathModel, units: Seq<UnitModel>, u: UnitModel) -> bool {
    counts_in(container, u) && !covered(container, units, u)
}

/// The units inside a container that no other directory unit holds: those
/// whose bytes are not already inside another unit's total.
pub open spec fn outermost_of(container: PathModel, units: Seq<UnitModel>) -> Seq<UnitModel> {
    units.filter(|u: UnitModel| is_outermost(container, units, u))
}

fn does_count(container: &FsPath, u: &NestedArtifact) -> (r: bool)
    ensures
        r == counts_in(container@, u@),
{
    u.present && u.path.inside(container) && u.role != ArtifactRole::Container
}

fn is_covered(container: &FsPath, units: &Vec<NestedArtifact>, u: &NestedArtifact) -> (r: bool)
    ensures
        r == covered(container@, units_view(units@), u@),
{
    let ghost all = units_view(units@);
    let mut i: usize = 0;
    while i < units.len()
        invariant
            i <= units@.len(),
            all == units_view(units@),
            forall|k: int| 0 <= k < i ==> !#[trigger] holds(container@, all[k], u@),
        decreases units@.len() - i,
    {
        let o = &units[i];
        assert(all[i as int] == o@);
        if does_count(container, o) && o.is_dir && u.path.inside(&o.path) {
            assert(holds(container@, all[i as int], u@));
            return true;
        }
        i += 1;
    }
    false
}

pub fn outermost<'a>(container: &FsPath, units: &'a Vec<NestedArtifact>) -> (r: Vec<&'a NestedArtifact>)
    ensures
        unit_refs(r@) == outermost_of(container@, units_view(units@)),
{
    let ghost all = units_view(units@);
    let ghost keep = |u: UnitModel| is_outermost(container@, all, u);
    let mut out: Vec<&'a NestedArtifact> = Vec::new();
    let mut i: usize = 0;
    assert(unit_refs(out@) =~= all.take(0).filter(keep)) by {
        reveal(Seq::filter);
    }
    while i < units.len()
        invariant
            i <= units@.len(),
            all == units_view(units@),
            keep == (|u: UnitModel| is_outermost(container@, all, u)),
            unit_refs(out@) == all.take(i as int).filter(keep),
        decreases units@.len() - i,
    {
        let u = &units[i];
        assert(all[i as int] == u@);
        let ghost prior = out@;
        if does_count(container, u) && !is_covered(container, units, u) {
            out.push(u);
            assert(unit_refs(out@) =~= unit_refs(prior).push(u@));
        }
        proof {
            super::container::lemma_filter_step(all, keep, i as int);
        }
        i += 1;
    }
    assert(all.take(i as int) =~= all);
    out
}

/// No outermost unit that is a directory holds another: their bytes can be
/// added without counting any twice.
pub proof fn law_outermost_units_do_not_nest(container: PathModel, units: Seq<UnitModel>, i: int, j: int)
    requires
        0 <= i < outermost_of(container, units).len(),
        0 <= j < outermost_of(container, units).len(),
        outermost_of(container, units)[i].is_dir,
    ensures
        !inside(outermost_of(container, units)[j].path, outermost_of(container, units)[i].path),
{
    let keep = |u: UnitModel| is_outermost(container, units, u);
    let out = outermost_of(container, units);
    units.lemma_filter_contains_rev(keep, out[i]);
    units.lemma_filter_pred(keep, i);
    units.lemma_filter_pred(keep, j);
    let k = choose|k: int| 0 <= k < units.len() && units[k] == out[i];
    if inside(out[j].path, out[i].path) {
        assert(holds(container, units[k], out[j]));
    }
}

// ---------------------------------------------------------------------
// Candidates and their order
// ---------------------------------------------------------------------

/// A unit's known modification time.
pub open spec fn known_time_of(u: UnitModel) -> Option<u64> {
    if u.time_source != TimeSource::Unknown && u.mtime_max > 0 {
        Some(u.mtime_max)
    } else {
        None
    }
}

pub fn known_time(u: &NestedArtifact) -> (r: Option<u64>)
    ensures
        r == known_time_of(u@),
{
    if u.time_source != TimeSource::Unknown && u.mtime_max > 0 {
        Some(u.mtime_max)
    } else {
        None
    }
}

/// A nonempty supported candidate.
pub open spec fn candidate(u: UnitModel) -> bool {
    u.coverage.supported && u.bytes > 0 && u.basis != AccountingBasis::Unknown
}

pub fn is_candidate(u: &NestedArtifact) -> (r: bool)
    ensures
        r == candidate(u@),
{
    u.coverage.supported && u.bytes > 0 && u.basis != AccountingBasis::Unknown
}

pub open spec fn in_family(u: UnitModel, family: RoleFamily) -> bool {
    candidate(u) && u.role.family_spec() == family
}

/// The outermost candidates of a family, in the order they were identified.
pub open spec fn members_of(outer: Seq<UnitModel>, family: RoleFamily) -> Seq<UnitModel> {
    outer.filter(|u: UnitModel| in_family(u, family))
}

/// What a unit is reviewed by: known ages before unknown ones, older before
/// newer, larger before smaller, and then by path.
pub open spec fn review_key(u: UnitModel) -> Seq<u32> {
    age_key(u) + falling_key(u.bytes) + path_key(u.path)
}

pub open spec fn age_key(u: UnitModel) -> Seq<u32> {
    match known_time_of(u) {
        Some(t) => seq![0u32] + rising_key(t),
        None => seq![1u32] + rising_key(0),
    }
}

pub open spec fn review_keys(units: Seq<UnitModel>) -> Seq<Seq<u32>> {
    Seq::new(units.len(), |i: int| review_key(units[i]))
}

/// The members of a family in the order a person should review them.
pub open spec fn reviewed(members: Seq<UnitModel>) -> Seq<UnitModel> {
    at_places(members, stable_places(review_keys(members)))
}

fn key_of(u: &NestedArtifact) -> (r: Vec<u32>)
    ensures
        r@ == review_key(u@),
{
    let mut k: Vec<u32> = Vec::new();
    match known_time(u) {
        Some(t) => {
            k.push(0);
            assert(k@ =~= seq![0u32]);
            push_rising(&mut k, t);
        },
        None => {
            k.push(1);
            assert(k@ =~= seq![1u32]);
            push_rising(&mut k, 0);
        },
    }
    push_falling(&mut k, u.bytes);
    let mut p = u.path.key();
    k.append(&mut p);
    k
}

fn filter_family<'a>(outer: &Vec<&'a NestedArtifact>, family: RoleFamily) -> (r: Vec<&'a NestedArtifact>)
    ensures
        unit_refs(r@) == members_of(unit_refs(outer@), family),
{
    let ghost all = unit_refs(outer@);
    let ghost keep = |u: UnitModel| in_family(u, family);
    let mut out: Vec<&'a NestedArtifact> = Vec::new();
    let mut i: usize = 0;
    assert(unit_refs(out@) =~= all.take(0).filter(keep)) by {
        reveal(Seq::filter);
    }
    while i < outer.len()
        invariant
            i <= outer@.len(),
            all == unit_refs(outer@),
            keep == (|u: UnitModel| in_family(u, family)),
            unit_refs(out@) == all.take(i as int).filter(keep),
        decreases outer@.len() - i,
    {
        let u = outer[i];
        assert(all[i as int] == u@);
        let ghost prior = out@;
        if is_candidate(u) && u.role.family() == family {
            out.push(u);
            assert(unit_refs(out@) =~= unit_refs(prior).push(u@));
        }
        proof {
            super::container::lemma_filter_step(all, keep, i as int);
        }
        i += 1;
    }
    assert(all.take(i as int) =~= all);
    out
}

fn take_units<'a>(units: &Vec<&'a NestedArtifact>, order: &Vec<usize>) -> (r: Vec<&'a NestedArtifact>)
    requires
        forall|i: int| 0 <= i < order@.len() ==> 0 <= #[trigger] order@[i] < units@.len(),
    ensures
        unit_refs(r@) == at_places(unit_refs(units@), order@),
{
    let ghost all = unit_refs(units@);
    let ghost want = at_places(all, order@);
    let mut out: Vec<&'a NestedArtifact> = Vec::new();
    let mut i: usize = 0;
    assert(unit_refs(out@) =~= want.take(0));
    while i < order.len()
        invariant
            i <= order@.len(),
            forall|k: int| 0 <= k < order@.len() ==> 0 <= #[trigger] order@[k] < units@.len(),
            all == unit_refs(units@),
            want == at_places(all, order@),
            unit_refs(out@) == want.take(i as int),
        decreases order@.len() - i,
    {
        assert(order@[i as int] < units@.len());
        let u = units[order[i]];
        let ghost prior = out@;
        out.push(u);
        assert(want[i as int] == u@);
        i += 1;
        assert(unit_refs(out@) =~= unit_refs(prior).push(u@));
        assert(unit_refs(out@) =~= want.take(i as int));
    }
    assert(want.take(i as int) =~= want);
    out
}

/// The units a family row stands for, outermost only, in review order.
pub fn family_members<'a>(container: &FsPath, units: &'a Vec<NestedArtifact>, family: RoleFamily) -> (r: Vec<
    &'a NestedArtifact,
>)
    ensures
        unit_refs(r@) == reviewed(members_of(outermost_of(container@, units_view(units@)), family)),
{
    let outer = outermost(container, units);
    let members = filter_family(&outer, family);
    let ghost all = unit_refs(members@);
    let mut keys: Vec<Vec<u32>> = Vec::new();
    let mut i: usize = 0;
    while i < members.len()
        invariant
            i <= members@.len(),
            all == unit_refs(members@),
            keys_of(keys@) == review_keys(all).take(i as int),
        decreases members@.len() - i,
    {
        let k = key_of(members[i]);
        let ghost prior = keys@;
        assert(all[i as int] == members@[i as int]@);
        keys.push(k);
        i += 1;
        assert(keys_of(keys@) =~= keys_of(prior).push(k@));
        assert(keys_of(keys@) =~= review_keys(all).take(i as int));
    }
    assert(review_keys(all).take(i as int) =~= review_keys(all));
    let order = sort_places(&keys);
    take_units(&members, &order)
}

/// Review order: a known age comes before an unknown one, never after it as if
/// the unknown were ancient; of known ages the older comes first; of equal ages
/// the larger; and then the paths decide.
pub proof fn law_review_order(members: Seq<UnitModel>, i: int, j: int)
    requires
        members.len() <= usize::MAX,
        0 <= i < j < members.len(),
    ensures
        reviewed(members).len() == members.len(),
        ({
            let a = reviewed(members)[i];
            let b = reviewed(members)[j];
            &&& known_time_of(a) is None ==> known_time_of(b) is None
            &&& known_time_of(a) is Some && known_time_of(b) is Some ==> known_time_of(a)->0 <= known_time_of(b)->0
            &&& known_time_of(a) == known_time_of(b) ==> a.bytes >= b.bytes
            &&& known_time_of(a) == known_time_of(b) && a.bytes == b.bytes ==> !crate::path::path_less(b.path, a.path)
        }),
{
    let keys = review_keys(members);
    lemma_stable_places(keys);
    let order = stable_places(keys);
    let a = members[order[i] as int];
    let b = members[order[j] as int];
    assert(before(keys, order[i] as int, order[j] as int));
    assert(keys[order[i] as int] == review_key(a));
    assert(keys[order[j] as int] == review_key(b));
    lemma_lex_concat(age_key(a) + falling_key(a.bytes), age_key(b) + falling_key(b.bytes), path_key(a.path), path_key(b.path));
    lemma_lex_concat(age_key(a), age_key(b), falling_key(a.bytes), falling_key(b.bytes));
    law_number_keys_order_numbers(a.bytes, b.bytes);
    lemma_age_keys(a, b);
    lemma_falling_keys(a.bytes, b.bytes);
    if lex_less(path_key(a.path), path_key(b.path)) {
        lemma_lex_asymmetric(path_key(a.path), path_key(b.path));
    } else if path_key(a.path) == path_key(b.path) {
        lemma_lex_irreflexive(path_key(a.path));
    }
}

proof fn lemma_falling_keys(a: u64, b: u64)
    ensures
        falling_key(a) == falling_key(b) ==> a == b,
{
    law_number_keys_order_numbers((u64::MAX - a) as u64, (u64::MAX - b) as u64);
}

/// Age keys order known ages by time, and unknown ones last.
proof fn lemma_age_keys(a: UnitModel, b: UnitModel)
    ensures
        age_key(a).len() == age_key(b).len(),
        lex_less(age_key(a), age_key(b)) || age_key(a) == age_key(b) ==> {
            &&& known_time_of(a) is None ==> known_time_of(b) is None
            &&& known_time_of(a) is Some && known_time_of(b) is Some ==> known_time_of(a)->0 <= known_time_of(b)->0
        },
        lex_less(age_key(a), age_key(b)) ==> known_time_of(a) != known_time_of(b),
        age_key(a) == age_key(b) <==> known_time_of(a) == known_time_of(b),
{
    let flag = |u: UnitModel| if known_time_of(u) is Some { seq![0u32] } else { seq![1u32] };
    let time = |u: UnitModel| match known_time_of(u) {
        Some(t) => rising_key(t),
        None => rising_key(0),
    };
    lemma_lex_concat(flag(a), flag(b), time(a), time(b));
    assert(age_key(a) == flag(a) + time(a));
    assert(age_key(b) == flag(b) + time(b));
    assert(flag(a)[0] == 0 || flag(a)[0] == 1);
    assert(flag(a).drop_first() =~= Seq::<u32>::empty());
    assert(flag(b).drop_first() =~= Seq::<u32>::empty());
    reveal_with_fuel(lex_less, 2);
    match (known_time_of(a), known_time_of(b)) {
        (Some(x), Some(y)) => {
            law_number_keys_order_numbers(x, y);
        },
        _ => {
            law_number_keys_order_numbers(0, 0);
            assert(seq![0u32][0] != seq![1u32][0]);
        },
    }
    lemma_lex_irreflexive(age_key(a));
}

// ---------------------------------------------------------------------
// Guidance
// ---------------------------------------------------------------------

/// Review guidance for a family, from the family alone. Guidance, never a
/// verdict.
pub open spec fn guidance(family: RoleFamily) -> Seq<char> {
    match family {
        RoleFamily::Intermediates => "Start here: slower next build"@,
        RoleFamily::Outputs => "Review: a build regenerates"@,
        RoleFamily::Tests => "Review: a test run regenerates"@,
        RoleFamily::Dependencies => "Review: reinstall from registry"@,
        RoleFamily::SharedStore => "Shared: other projects may link"@,
        RoleFamily::Metadata => "Lower priority: tool bookkeeping"@,
        RoleFamily::Installations => "Review: reinstall is a download"@,
        RoleFamily::State => "Keep in mind: may be unique"@,
        RoleFamily::Container => "Container: see groups inside"@,
        RoleFamily::Residual => "Inspect: not identified"@,
        RoleFamily::Unknown => "Inspect: not identified"@,
    }
}

pub fn family_guidance(family: RoleFamily) -> (r: &'static str)
    ensures
        r@ == guidance(family),
{
    match family {
        RoleFamily::Intermediates => "Start here: slower next build",
        RoleFamily::Outputs => "Review: a build regenerates",
        RoleFamily::Tests => "Review: a test run regenerates",
        RoleFamily::Dependencies => "Review: reinstall from registry",
        RoleFamily::SharedStore => "Shared: other projects may link",
        RoleFamily::Metadata => "Lower priority: tool bookkeeping",
        RoleFamily::Installations => "Review: reinstall is a download",
        RoleFamily::State => "Keep in mind: may be unique",
        RoleFamily::Container => "Container: see groups inside",
        RoleFamily::Residual => "Inspect: not identified",
        RoleFamily::Unknown => "Inspect: not identified",
    }
}

/// Every phrase fits the narrow advice column.
pub proof fn law_guidance_fits(family: RoleFamily)
    ensures
        guidance(family).len() <= 32,
{
    reveal_strlit("Start here: slower next build");
    reveal_strlit("Review: a build regenerates");
    reveal_strlit("Review: a test run regenerates");
    reveal_strlit("Review: reinstall from registry");
    reveal_strlit("Shared: other projects may link");
    reveal_strlit("Lower priority: tool bookkeeping");
    reveal_strlit("Review: reinstall is a download");
    reveal_strlit("Keep in mind: may be unique");
    reveal_strlit("Container: see groups inside");
    reveal_strlit("Inspect: not identified");
}

// ---------------------------------------------------------------------
// Totals
// ---------------------------------------------------------------------

/// The bytes of units added up.
pub open spec fn total(units: Seq<UnitModel>) -> nat
    decreases units.len(),
{
    if units.len() == 0 {
        0
    } else {
        total(units.drop_last()) + units.last().bytes as nat
    }
}

proof fn lemma_total_grows(units: Seq<UnitModel>, n: int)
    requires
        0 <= n <= units.len(),
    ensures
        total(units.take(n)) <= total(units),
    decreases units.len() - n,
{
    if n < units.len() {
        lemma_total_grows(units, n + 1);
        assert(units.take(n + 1).drop_last() =~= units.take(n));
    } else {
        assert(units.take(n) =~= units);
    }
}

fn sum_bytes(units: &Vec<&NestedArtifact>) -> (r: u64)
    requires
        total(unit_refs(units@)) <= u64::MAX,
    ensures
        r == total(unit_refs(units@)),
{
    let ghost all = unit_refs(units@);
    let mut sum: u64 = 0;
    let mut i: usize = 0;
    assert(all.take(0) =~= Seq::<UnitModel>::empty());
    while i < units.len()
        invariant
            i <= units@.len(),
            all == unit_refs(units@),
            sum == total(all.take(i as int)),
            total(all) <= u64::MAX,
        decreases units@.len() - i,
    {
        proof {
            lemma_total_grows(all, i + 1);
            assert(all.take(i + 1).drop_last() =~= all.take(i as int));
            assert(all.take(i + 1).last() == units@[i as int]@);
        }
        sum = sum + units[i].bytes;
        i += 1;
    }
    assert(all.take(i as int) =~= all);
    sum
}

/// Whether there are units, and all on one accounting basis.
pub open spec fn one_basis(units: Seq<UnitModel>) -> bool {
    units.len() > 0 && all_on(units, units[0].basis)
}

pub open spec fn all_on(units: Seq<UnitModel>, basis: AccountingBasis) -> bool {
    forall|i: int| 0 <= i < units.len() ==> (#[trigger] units[i]).basis == basis
}

fn are_all_on(units: &Vec<&NestedArtifact>, basis: AccountingBasis) -> (r: bool)
    ensures
        r == all_on(unit_refs(units@), basis),
{
    let ghost all = unit_refs(units@);
    let mut i: usize = 0;
    while i < units.len()
        invariant
            i <= units@.len(),
            all == unit_refs(units@),
            forall|k: int| 0 <= k < i ==> (#[trigger] all[k]).basis == basis,
        decreases units@.len() - i,
    {
        assert(all[i as int] == units@[i as int]@);
        if units[i].basis != basis {
            return false;
        }
        i += 1;
    }
    true
}

fn have_one_basis(units: &Vec<&NestedArtifact>) -> (r: bool)
    ensures
        r == one_basis(unit_refs(units@)),
{
    assert(unit_refs(units@).len() == units@.len());
    if units.len() == 0 {
        return false;
    }
    assert(unit_refs(units@)[0] == units@[0]@);
    are_all_on(units, units[0].basis)
}

// ---------------------------------------------------------------------
// Facts of a family
// ---------------------------------------------------------------------

/// The oldest known modification among the first `n` units.
pub open spec fn oldest(units: Seq<UnitModel>, n: int) -> Option<u64>
    decreases n,
{
    if n <= 0 {
        None
    } else {
        match (oldest(units, n - 1), known_time_of(units[n - 1])) {
            (Some(a), Some(b)) => Some(
                if b < a {
                    b
                } else {
                    a
                },
            ),
            (Some(a), None) => Some(a),
            (None, t) => t,
        }
    }
}

/// How many of the first `n` units have no known modification time.
pub open spec fn unknown_ages(units: Seq<UnitModel>, n: int) -> nat
    decreases n,
{
    if n <= 0 {
        0
    } else {
        unknown_ages(units, n - 1) + (if known_time_of(units[n - 1]) is None {
            1nat
        } else {
            0nat
        })
    }
}

pub open spec fn all_complete(units: Seq<UnitModel>) -> bool {
    forall|i: int| 0 <= i < units.len() ==> (#[trigger] units[i]).coverage.complete
}

/// The consequences the first `n` units state.
pub open spec fn told(units: Seq<UnitModel>, n: int) -> Seq<Seq<char>>
    decreases n,
{
    if n <= 0 {
        Seq::empty()
    } else {
        match units[n - 1].consequence {
            Some(t) => told(units, n - 1).push(t),
            None => told(units, n - 1),
        }
    }
}

/// What a unit is ranked by when a family's consequence is chosen: larger
/// first, and then by path.
pub open spec fn size_keys(units: Seq<UnitModel>) -> Seq<Seq<u32>> {
    Seq::new(units.len(), |i: int| falling_key(units[i].bytes) + path_key(units[i].path))
}

/// The first consequence stated, from place `i` on.
pub open spec fn first_told(units: Seq<UnitModel>, i: int) -> Option<Seq<char>>
    decreases units.len() - i,
{
    if i < 0 || i >= units.len() {
        None
    } else if units[i].consequence is Some {
        units[i].consequence
    } else {
        first_told(units, i + 1)
    }
}

/// The largest member's consequence that is stated.
pub open spec fn leading_consequence(units: Seq<UnitModel>) -> Option<Seq<char>> {
    first_told(at_places(units, stable_places(size_keys(units))), 0)
}

fn find_oldest(units: &Vec<&NestedArtifact>) -> (r: (Option<u64>, usize))
    ensures
        r.0 == oldest(unit_refs(units@), units@.len() as int),
        r.1 == unknown_ages(unit_refs(units@), units@.len() as int),
{
    let ghost all = unit_refs(units@);
    let mut best: Option<u64> = None;
    let mut unknown: usize = 0;
    let mut i: usize = 0;
    while i < units.len()
        invariant
            i <= units@.len(),
            all == unit_refs(units@),
            best == oldest(all, i as int),
            unknown == unknown_ages(all, i as int),
            unknown <= i,
        decreases units@.len() - i,
    {
        assert(all[i as int] == units@[i as int]@);
        let t = known_time(units[i]);
        match t {
            Some(b) => {
                best = match best {
                    Some(a) => Some(
                        if b < a {
                            b
                        } else {
                            a
                        },
                    ),
                    None => Some(b),
                };
            },
            None => {
                unknown += 1;
            },
        }
        i += 1;
    }
    (best, unknown)
}

fn are_complete(units: &Vec<&NestedArtifact>) -> (r: bool)
    ensures
        r == all_complete(unit_refs(units@)),
{
    let ghost all = unit_refs(units@);
    let mut i: usize = 0;
    while i < units.len()
        invariant
            i <= units@.len(),
            all == unit_refs(units@),
            forall|k: int| 0 <= k < i ==> (#[trigger] all[k]).coverage.complete,
        decreases units@.len() - i,
    {
        assert(all[i as int] == units@[i as int]@);
        if !units[i].coverage.complete {
            return false;
        }
        i += 1;
    }
    true
}

fn distinct_told(units: &Vec<&NestedArtifact>) -> (r: usize)
    ensures
        r == told(unit_refs(units@), units@.len() as int).to_set().len(),
{
    let ghost all = unit_refs(units@);
    let mut seen: Vec<String> = Vec::new();
    let mut i: usize = 0;
    assert(texts(seen@).to_set() =~= told(all, 0).to_set());
    assert(texts(seen@).no_duplicates());
    while i < units.len()
        invariant
            i <= units@.len(),
            all == unit_refs(units@),
            texts(seen@).to_set() == told(all, i as int).to_set(),
            texts(seen@).no_duplicates(),
        decreases units@.len() - i,
    {
        assert(all[i as int] == units@[i as int]@);
        match &units[i].consequence {
            Some(t) => {
                let ghost prior = texts(seen@);
                let ghost list = told(all, i as int);
                assert(told(all, i + 1) == list.push(t@));
                proof {
                    lemma_push_to_set(list, t@);
                    lemma_push_to_set(prior, t@);
                }
                if !holds_text(&seen, t.as_str()) {
                    push_text(&mut seen, t.as_str());
                    assert(texts(seen@) =~= prior.push(t@));
                } else {
                    assert(prior.to_set().contains(t@));
                    assert(prior.to_set().insert(t@) =~= prior.to_set());
                }
            },
            None => {},
        }
        i += 1;
    }
    proof {
        texts(seen@).unique_seq_to_set();
    }
    seen.len()
}

proof fn lemma_push_to_set(list: Seq<Seq<char>>, t: Seq<char>)
    ensures
        list.push(t).to_set() == list.to_set().insert(t),
{
    assert forall|x: Seq<char>| list.push(t).to_set().contains(x) <==> list.to_set().insert(t).contains(x) by {
        if list.to_set().contains(x) {
            let k = choose|k: int| 0 <= k < list.len() && list[k] == x;
            assert(list.push(t)[k] == x);
        }
        if x == t {
            assert(list.push(t)[list.len() as int] == t);
        }
        if list.push(t).contains(x) {
            let k = choose|k: int| 0 <= k < list.push(t).len() && list.push(t)[k] == x;
            if k < list.len() {
                assert(list[k] == x);
            }
        }
    }
    assert(list.push(t).to_set() =~= list.to_set().insert(t));
}

fn find_consequence(units: &Vec<&NestedArtifact>) -> (r: Option<String>)
    ensures
        opt_text(r) == leading_consequence(unit_refs(units@)),
{
    let ghost all = unit_refs(units@);
    let mut keys: Vec<Vec<u32>> = Vec::new();
    let mut i: usize = 0;
    while i < units.len()
        invariant
            i <= units@.len(),
            all == unit_refs(units@),
            keys_of(keys@) == size_keys(all).take(i as int),
        decreases units@.len() - i,
    {
        let mut k: Vec<u32> = Vec::new();
        push_falling(&mut k, units[i].bytes);
        let mut p = units[i].path.key();
        assert(all[i as int] == units@[i as int]@);
        k.append(&mut p);
        assert(k@ =~= falling_key(all[i as int].bytes) + path_key(all[i as int].path));
        let ghost prior = keys@;
        keys.push(k);
        i += 1;
        assert(keys_of(keys@) =~= keys_of(prior).push(k@));
        assert(keys_of(keys@) =~= size_keys(all).take(i as int));
    }
    assert(size_keys(all).take(i as int) =~= size_keys(all));
    let order = sort_places(&keys);
    let ranked = take_units(units, &order);
    let ghost list = unit_refs(ranked@);
    let mut j: usize = 0;
    while j < ranked.len()
        invariant
            j <= ranked@.len(),
            list == unit_refs(ranked@),
            first_told(list, 0) == leading_consequence(unit_refs(units@)),
            first_told(list, 0) == first_told(list, j as int),
        decreases ranked@.len() - j,
    {
        assert(list[j as int] == ranked@[j as int]@);
        if ranked[j].consequence.is_some() {
            return copy_opt(&ranked[j].consequence);
        }
        j += 1;
    }
    None
}

// ---------------------------------------------------------------------
// Summaries
// ---------------------------------------------------------------------

/// A collapsed family row: what a container holds in one role family.
#[derive(Debug, Clone, PartialEq, Eq)]
pub struct FamilySummary {
    pub family: RoleFamily,
    pub count: usize,
    pub bytes: u64,
    pub basis: AccountingBasis,
    /// The oldest known modification among this family's units. A category's
    /// oldest candidate is not its last use.
    pub oldest_modified: Option<u64>,
    /// Units whose modification time is unknown.
    pub unknown_age: usize,
    /// Whether every unit in this family had complete coverage.
    pub complete: bool,
    /// The largest member's consequence.
    pub consequence: Option<String>,
    /// How many other distinct consequences the family's members state.
    pub other_consequences: usize,
    /// Review guidance derived from the family alone.
    pub recommendation: &'static str,
}

pub struct FamilyRow {
    pub family: RoleFamily,
    pub count: nat,
    pub bytes: nat,
    pub basis: AccountingBasis,
    pub oldest_modified: Option<u64>,
    pub unknown_age: nat,
    pub complete: bool,
    pub consequence: Option<Seq<char>>,
    pub other_consequences: nat,
    pub recommendation: Seq<char>,
}

impl View for FamilySummary {
    type V = FamilyRow;

    open spec fn view(&self) -> FamilyRow {
        FamilyRow {
            family: self.family,
            count: self.count as nat,
            bytes: self.bytes as nat,
            basis: self.basis,
            oldest_modified: self.oldest_modified,
            unknown_age: self.unknown_age as nat,
            complete: self.complete,
            consequence: opt_text(self.consequence),
            other_consequences: self.other_consequences as nat,
            recommendation: self.recommendation@,
        }
    }
}

pub open spec fn rows_view(s: Seq<FamilySummary>) -> Seq<FamilyRow> {
    Seq::new(s.len(), |i: int| s[i]@)
}

/// The row of a family with these members. Members on different bases have no
/// total.
pub open spec fn family_row(members: Seq<UnitModel>, family: RoleFamily) -> FamilyRow {
    let n = members.len() as int;
    let kinds = told(members, n).to_set().len();
    FamilyRow {
        family,
        count: members.len(),
        bytes: if one_basis(members) {
            total(members)
        } else {
            0
        },
        basis: if one_basis(members) {
            members[0].basis
        } else {
            AccountingBasis::Unknown
        },
        oldest_modified: oldest(members, n),
        unknown_age: unknown_ages(members, n),
        complete: all_complete(members),
        consequence: leading_consequence(members),
        other_consequences: if kinds > 0 {
            (kinds - 1) as nat
        } else {
            0
        },
        recommendation: guidance(family),
    }
}

/// One row for each of the first `n` families that has a member.
pub open spec fn family_rows(outer: Seq<UnitModel>, families: Seq<RoleFamily>, n: int) -> Seq<FamilyRow>
    decreases n,
{
    if n <= 0 {
        Seq::empty()
    } else {
        let members = members_of(outer, families[n - 1]);
        let rows = family_rows(outer, families, n - 1);
        if members.len() > 0 {
            rows.push(family_row(members, families[n - 1]))
        } else {
            rows
        }
    }
}

/// One container's inside, collapsed.
#[derive(Debug, Clone, PartialEq, Eq)]
pub struct ContainerSummary {
    /// One row per family with at least one nonempty supported candidate.
    pub families: Vec<FamilySummary>,
    /// Outermost units that could not be identified, with their bytes when
    /// they share one basis.
    pub unsupported_count: usize,
    pub unsupported_bytes: Option<u64>,
    /// Bytes of the container that no outermost unit accounts for. `None` when
    /// the container was not measured, when the members are on a different
    /// basis from it, or when they add up to more than it.
    pub unaccounted_bytes: Option<u64>,
    /// Outermost units with nothing in them.
    pub empty: usize,
}

pub open spec fn unsupported_of(outer: Seq<UnitModel>) -> Seq<UnitModel> {
    outer.filter(|u: UnitModel| !u.coverage.supported)
}

pub open spec fn empties_of(outer: Seq<UnitModel>) -> Seq<UnitModel> {
    outer.filter(|u: UnitModel| u.coverage.supported && !candidate(u))
}

pub open spec fn measured_of(outer: Seq<UnitModel>) -> Seq<UnitModel> {
    outer.filter(|u: UnitModel| u.basis != AccountingBasis::Unknown)
}

/// The container's own row, from place `i` on.
pub open spec fn own_row(container: PathModel, units: Seq<UnitModel>, i: int) -> Option<UnitModel>
    decreases units.len() - i,
{
    if i < 0 || i >= units.len() {
        None
    } else if same_path(units[i].path, container) {
        Some(units[i])
    } else {
        own_row(container, units, i + 1)
    }
}

/// The container's own row, where it was measured.
pub open spec fn measured_row(container: PathModel, units: Seq<UnitModel>) -> Option<UnitModel> {
    match own_row(container, units, 0) {
        Some(r) => if r.basis != AccountingBasis::Unknown && r.bytes > 0 {
            Some(r)
        } else {
            None
        },
        None => None,
    }
}

pub open spec fn unsupported_total(outer: Seq<UnitModel>) -> Option<nat> {
    let u = unsupported_of(outer);
    if u.len() == 0 {
        Some(0)
    } else if one_basis(u) {
        Some(total(u))
    } else {
        None
    }
}

/// What no outermost unit accounts for.
pub open spec fn unaccounted(container: PathModel, units: Seq<UnitModel>) -> Option<nat> {
    let m = measured_of(outermost_of(container, units));
    match measured_row(container, units) {
        Some(r) => if all_on(m, r.basis) && total(m) <= r.bytes {
            Some((r.bytes - total(m)) as nat)
        } else {
            None
        },
        None => None,
    }
}

/// Whether every total a summary adds up fits.
pub open spec fn totals_fit(container: PathModel, units: Seq<UnitModel>) -> bool {
    let outer = outermost_of(container, units);
    &&& forall|f: RoleFamily| one_basis(#[trigger] members_of(outer, f)) ==> total(members_of(outer, f)) <= u64::MAX
    &&& one_basis(unsupported_of(outer)) ==> total(unsupported_of(outer)) <= u64::MAX
    &&& measured_row(container, units) is Some ==> total(measured_of(outer)) <= u64::MAX
}

/// Whether a summary is that of a container's units.
pub open spec fn summarizes(s: ContainerSummary, container: PathModel, units: Seq<UnitModel>) -> bool {
    let outer = outermost_of(container, units);
    &&& rows_view(s.families@) == family_rows(outer, all_families(), all_families().len() as int)
    &&& s.unsupported_count == unsupported_of(outer).len()
    &&& s.unsupported_bytes is Some == unsupported_total(outer) is Some
    &&& s.unsupported_bytes is Some ==> s.unsupported_bytes->0 == unsupported_total(outer)->0
    &&& s.unaccounted_bytes is Some == unaccounted(container, units) is Some
    &&& s.unaccounted_bytes is Some ==> s.unaccounted_bytes->0 == unaccounted(container, units)->0
    &&& s.empty == empties_of(outer).len()
}

fn summarize_family(members: &Vec<&NestedArtifact>, family: RoleFamily) -> (r: FamilySummary)
    requires
        one_basis(unit_refs(members@)) ==> total(unit_refs(members@)) <= u64::MAX,
    ensures
        r@ == family_row(unit_refs(members@), family),
{
    let ghost all = unit_refs(members@);
    assert(all.len() == members@.len());
    let shared = have_one_basis(members);
    let bytes: u64 = if shared {
        sum_bytes(members)
    } else {
        0
    };
    let basis = if shared {
        assert(all[0] == members@[0]@);
        members[0].basis
    } else {
        AccountingBasis::Unknown
    };
    let (oldest_modified, unknown_age) = find_oldest(members);
    let kinds: usize = distinct_told(members);
    let other_consequences: usize = if kinds > 0 {
        kinds - 1
    } else {
        0
    };
    FamilySummary {
        family,
        count: members.len(),
        bytes,
        basis,
        oldest_modified,
        unknown_age,
        complete: are_complete(members),
        consequence: find_consequence(members),
        other_consequences,
        recommendation: family_guidance(family),
    }
}

fn filter_refs<'a, F: Fn(&NestedArtifact) -> bool>(
    units: &Vec<&'a NestedArtifact>,
    f: F,
    Ghost(g): Ghost<spec_fn(UnitModel) -> bool>,
) -> (r: Vec<&'a NestedArtifact>)
    requires
        forall|u: &NestedArtifact| #[trigger] f.requires((u,)),
        forall|u: &NestedArtifact, out: bool| #[trigger] f.ensures((u,), out) ==> out == g(u@),
    ensures
        unit_refs(r@) == unit_refs(units@).filter(g),
{
    let ghost all = unit_refs(units@);
    let mut out: Vec<&'a NestedArtifact> = Vec::new();
    let mut i: usize = 0;
    assert(unit_refs(out@) =~= all.take(0).filter(g)) by {
        reveal(Seq::filter);
    }
    while i < units.len()
        invariant
            i <= units@.len(),
            all == unit_refs(units@),
            forall|u: &NestedArtifact| #[trigger] f.requires((u,)),
            forall|u: &NestedArtifact, o: bool| #[trigger] f.ensures((u,), o) ==> o == g(u@),
            unit_refs(out@) == all.take(i as int).filter(g),
        decreases units@.len() - i,
    {
        let u = units[i];
        assert(all[i as int] == u@);
        let ghost prior = out@;
        if f(u) {
            out.push(u);
            assert(unit_refs(out@) =~= unit_refs(prior).push(u@));
        }
        proof {
            super::container::lemma_filter_step(all, g, i as int);
        }
        i += 1;
    }
    assert(all.take(i as int) =~= all);
    out
}

fn find_own_row<'a>(container: &FsPath, units: &'a Vec<NestedArtifact>) -> (r: Option<&'a NestedArtifact>)
    ensures
        match r {
            Some(u) => measured_row(container@, units_view(units@)) == Some(u@),
            None => measured_row(container@, units_view(units@)) is None,
        },
{
    let ghost all = units_view(units@);
    let mut i: usize = 0;
    while i < units.len()
        invariant
            i <= units@.len(),
            all == units_view(units@),
            own_row(container@, all, 0) == own_row(container@, all, i as int),
        decreases units@.len() - i,
    {
        let u = &units[i];
        assert(all[i as int] == u@);
        if u.path.same(container) {
            return if u.basis != AccountingBasis::Unknown && u.bytes > 0 {
                Some(u)
            } else {
                None
            };
        }
        i += 1;
    }
    None
}

fn summarize_rows(outer: &Vec<&NestedArtifact>) -> (r: Vec<FamilySummary>)
    requires
        forall|f: RoleFamily|
            one_basis(#[trigger] members_of(unit_refs(outer@), f)) ==> total(members_of(unit_refs(outer@), f))
                <= u64::MAX,
    ensures
        rows_view(r@) == family_rows(unit_refs(outer@), all_families(), all_families().len() as int),
{
    let ghost all = unit_refs(outer@);
    let families = RoleFamily::all();
    let mut rows: Vec<FamilySummary> = Vec::new();
    let mut i: usize = 0;
    assert(rows_view(rows@) =~= family_rows(all, all_families(), 0));
    while i < families.len()
        invariant
            i <= families@.len(),
            families@ == all_families(),
            all == unit_refs(outer@),
            forall|f: RoleFamily|
                one_basis(#[trigger] members_of(all, f)) ==> total(members_of(all, f)) <= u64::MAX,
            rows_view(rows@) == family_rows(all, all_families(), i as int),
        decreases families@.len() - i,
    {
        let f = families[i];
        let members = filter_family(outer, f);
        assert(unit_refs(members@) == members_of(all, f));
        assert(unit_refs(members@).len() == members@.len());
        if members.len() > 0 {
            let row = summarize_family(&members, f);
            let ghost prior = rows@;
            rows.push(row);
            assert(rows_view(rows@) =~= rows_view(prior).push(row@));
        }
        i += 1;
    }
    rows
}

/// Collapses the units inside a container, which is taken explicitly and
/// excluded.
pub fn summarize_container(container: &FsPath, units: &Vec<NestedArtifact>) -> (r: ContainerSummary)
    requires
        totals_fit(container@, units_view(units@)),
    ensures
        summarizes(r, container@, units_view(units@)),
{
    let outer = outermost(container, units);
    let families = summarize_rows(&outer);
    let unsupported = filter_refs(
        &outer,
        |u: &NestedArtifact| -> (keep: bool)
            ensures
                keep == !u@.coverage.supported
            { !u.coverage.supported },
        Ghost(|u: UnitModel| !u.coverage.supported),
    );
    assert(unit_refs(unsupported@) == unsupported_of(unit_refs(outer@)));
    assert(unit_refs(unsupported@).len() == unsupported@.len());
    let empties = filter_refs(
        &outer,
        |u: &NestedArtifact| -> (keep: bool)
            ensures
                keep == (u@.coverage.supported && !candidate(u@))
            { u.coverage.supported && !is_candidate(u) },
        Ghost(|u: UnitModel| u.coverage.supported && !candidate(u)),
    );
    assert(unit_refs(empties@) == empties_of(unit_refs(outer@)));
    assert(unit_refs(empties@).len() == empties@.len());
    let measured = filter_refs(
        &outer,
        |u: &NestedArtifact| -> (keep: bool)
            ensures
                keep == (u@.basis != AccountingBasis::Unknown)
            { u.basis != AccountingBasis::Unknown },
        Ghost(|u: UnitModel| u.basis != AccountingBasis::Unknown),
    );
    assert(unit_refs(measured@) == measured_of(unit_refs(outer@)));
    let unsupported_bytes = if unsupported.len() == 0 {
        Some(0)
    } else if have_one_basis(&unsupported) {
        Some(sum_bytes(&unsupported))
    } else {
        None
    };
    let unaccounted_bytes = match find_own_row(container, units) {
        Some(row) => {
            let sum = sum_bytes(&measured);
            if are_all_on(&measured, row.basis) && sum <= row.bytes {
                Some(row.bytes - sum)
            } else {
                None
            }
        },
        None => None,
    };
    ContainerSummary {
        families,
        unsupported_count: unsupported.len(),
        unsupported_bytes,
        unaccounted_bytes,
        empty: empties.len(),
    }
}

/// The family rows of a container's summary.
pub fn summarize_families(container: &FsPath, units: &Vec<NestedArtifact>) -> (r: Vec<FamilySummary>)
    requires
        totals_fit(container@, units_view(units@)),
    ensures
        rows_view(r@) == family_rows(
            outermost_of(container@, units_view(units@)),
            all_families(),
            all_families().len() as int,
        ),
{
    summarize_container(container, units).families
}

// ---------------------------------------------------------------------
// Reconciliation
// ---------------------------------------------------------------------

/// The bytes of rows added up.
pub open spec fn rows_total(rows: Seq<FamilyRow>) -> nat
    decreases rows.len(),
{
    if rows.len() == 0 {
        0
    } else {
        rows_total(rows.drop_last()) + rows.last().bytes
    }
}

/// Units that were measured but could not be identified.
pub open spec fn unidentified_of(outer: Seq<UnitModel>) -> Seq<UnitModel> {
    outer.filter(|u: UnitModel| !u.coverage.supported && u.basis != AccountingBasis::Unknown)
}

/// Leaf totals reconcile to the container: where a summary names bytes that no
/// unit accounts for, they, the family rows and the unidentified units add up
/// to exactly what the container holds.
pub proof fn law_leaves_reconcile(container: PathModel, units: Seq<UnitModel>)
    requires
        unaccounted(container, units) is Some,
    ensures
        measured_row(container, units) is Some,
        ({
            let outer = outermost_of(container, units);
            let rows = family_rows(outer, all_families(), all_families().len() as int);
            unaccounted(container, units)->0 + rows_total(rows) + total(unidentified_of(outer)) == measured_row(
                container,
                units,
            )->0.bytes
        }),
{
    let outer = outermost_of(container, units);
    let keep = |u: UnitModel| is_outermost(container, units, u);
    assert forall|i: int| 0 <= i < outer.len() implies (#[trigger] outer[i]).role != ArtifactRole::Container by {
        units.lemma_filter_pred(keep, i);
    }
    lemma_partition(outer);
    let basis = measured_row(container, units)->0.basis;
    lemma_rows_add_up(outer, basis, all_families().len() as int);
}

/// The bytes of the first `n` families' members.
spec fn families_total(outer: Seq<UnitModel>, n: int) -> nat
    decreases n,
{
    if n <= 0 {
        0
    } else {
        families_total(outer, n - 1) + total(members_of(outer, all_families()[n - 1]))
    }
}

proof fn lemma_push_filtered(units: Seq<UnitModel>, u: UnitModel, p: spec_fn(UnitModel) -> bool)
    ensures
        total(units.push(u).filter(p)) == total(units.filter(p)) + (if p(u) {
            u.bytes as nat
        } else {
            0nat
        }),
{
    reveal(Seq::filter);
    assert(units.push(u).drop_last() =~= units);
    if p(u) {
        assert(units.filter(p).push(u).drop_last() =~= units.filter(p));
    }
}

/// Measured units are members of one family each, unidentified, or empty.
proof fn lemma_partition(outer: Seq<UnitModel>)
    requires
        forall|i: int| 0 <= i < outer.len() ==> (#[trigger] outer[i]).role != ArtifactRole::Container,
    ensures
        total(measured_of(outer)) == families_total(outer, all_families().len() as int) + total(
            unidentified_of(outer),
        ),
    decreases outer.len(),
{
    let n = all_families().len() as int;
    if outer.len() == 0 {
        reveal(Seq::filter);
        lemma_no_families(outer, n);
    } else {
        let head = outer.drop_last();
        let u = outer.last();
        assert(outer =~= head.push(u));
        assert forall|i: int| 0 <= i < head.len() implies (#[trigger] head[i]).role != ArtifactRole::Container by {
            assert(head[i] == outer[i]);
        }
        lemma_partition(head);
        assert(outer[outer.len() - 1].role != ArtifactRole::Container);
        lemma_push_filtered(head, u, |x: UnitModel| x.basis != AccountingBasis::Unknown);
        lemma_push_filtered(head, u, |x: UnitModel| !x.coverage.supported && x.basis != AccountingBasis::Unknown);
        lemma_push_families(head, u, n);
    }
}

proof fn lemma_no_families(outer: Seq<UnitModel>, n: int)
    requires
        outer.len() == 0,
        n <= all_families().len(),
    ensures
        families_total(outer, n) == 0,
    decreases n,
{
    if n > 0 {
        lemma_no_families(outer, n - 1);
        reveal(Seq::filter);
    }
}

/// The place of a family among those a summary has rows for.
pub open spec fn family_place(f: RoleFamily) -> int {
    match f {
        RoleFamily::Intermediates => 0,
        RoleFamily::Outputs => 1,
        RoleFamily::Tests => 2,
        RoleFamily::Dependencies => 3,
        RoleFamily::SharedStore => 4,
        RoleFamily::Metadata => 5,
        RoleFamily::Installations => 6,
        RoleFamily::State => 7,
        RoleFamily::Residual => 8,
        RoleFamily::Unknown => 9,
        RoleFamily::Container => 10,
    }
}

/// One more unit adds its bytes to its own family alone.
proof fn lemma_push_families(head: Seq<UnitModel>, u: UnitModel, n: int)
    requires
        0 <= n <= all_families().len(),
    ensures
        families_total(head.push(u), n) == families_total(head, n) + (if candidate(u) && family_place(
            u.role.family_spec(),
        ) < n {
            u.bytes as nat
        } else {
            0nat
        }),
    decreases n,
{
    if n > 0 {
        let f = all_families()[n - 1];
        lemma_push_families(head, u, n - 1);
        lemma_push_filtered(head, u, |x: UnitModel| in_family(x, f));
        assert(family_place(f) == n - 1);
        if in_family(u, f) {
            assert(family_place(u.role.family_spec()) == n - 1);
        } else if candidate(u) && family_place(u.role.family_spec()) == n - 1 {
            assert(u.role.family_spec() == f);
        }
    }
}

/// Where every measured unit is on one basis, each family's row carries the
/// family's whole total.
proof fn lemma_rows_add_up(outer: Seq<UnitModel>, basis: AccountingBasis, n: int)
    requires
        0 <= n <= all_families().len(),
        all_on(measured_of(outer), basis),
    ensures
        rows_total(family_rows(outer, all_families(), n)) == families_total(outer, n),
    decreases n,
{
    if n > 0 {
        lemma_rows_add_up(outer, basis, n - 1);
        let f = all_families()[n - 1];
        let members = members_of(outer, f);
        let rows = family_rows(outer, all_families(), n - 1);
        if members.len() > 0 {
            assert forall|i: int| 0 <= i < members.len() implies (#[trigger] members[i]).basis == basis by {
                let keep = |u: UnitModel| in_family(u, f);
                let seen = |u: UnitModel| u.basis != AccountingBasis::Unknown;
                outer.lemma_filter_pred(keep, i);
                outer.lemma_filter_contains_rev(keep, members[i]);
                let k = choose|k: int| 0 <= k < outer.len() && outer[k] == members[i];
                outer.lemma_filter_contains(seen, k);
                let m = measured_of(outer);
                let j = choose|j: int| 0 <= j < m.len() && m[j] == members[i];
                assert(m[j].basis == basis);
            }
            assert(one_basis(members));
            let row = family_row(members, f);
            assert(rows.push(row).drop_last() =~= rows);
        }
    }
}

} // verus!
