//! What a pass over external locations measures, shows and keeps.

use super::observe::{
    identified_stores, measured_stores, measured_units, protected_keys, replayable, replayed_from, scope_listed,
    shown, this_pass, unit_at, units_of, with_locations, AnswersModel, FoldedUnit, Measurement, UnitObservation,
};
use super::plan::{
    device_from, exclusions, left_out, locations_inside, paths_inside, placed, proposed, AuthorizedRoot,
    CandidateModel, PlannedModel, UnauthorizedRoot,
};
use super::unit::ExternalModel;
use crate::artifact::UnitModel;
use crate::build_adapters::container::ContainerModel;
use crate::build_stores::history::IdentifiedModel;
use crate::build_stores::tables::StoredModel;
use crate::facts::resolved;
use crate::path::{has_path, inside, law_ordering_keeps_paths, same_path, PathModel};
use vstd::prelude::*;

verus! {

// ---------------------------------------------------------------------
// What is measured
// ---------------------------------------------------------------------

/// Whether a candidate is the location a detector proposed.
pub open spec fn is_proposal(c: CandidateModel, root: AuthorizedRoot) -> bool {
    &&& root.detector_id is Some
    &&& c.detector_id == root.detector_id->0@
    &&& root.detector_name is Some ==> c.detector_name == root.detector_name->0@
    &&& root.detector_name is None ==> c.detector_name == c.detector_id
    &&& c.category == root.category
    &&& c.provenance == root.provenance@
    &&& c.path == root.path@
}

/// A pass may measure just the locations that detectors proposed.
pub proof fn law_locations_are_what_detectors_proposed(roots: Seq<AuthorizedRoot>, n: int)
    requires
        0 <= n <= roots.len(),
    ensures
        forall|i: int|
            0 <= i < n && (#[trigger] roots[i]).detector_id is Some ==> exists|k: int|
                0 <= k < proposed(roots, n).len() && is_proposal(#[trigger] proposed(roots, n)[k], roots[i]),
        forall|k: int|
            0 <= k < proposed(roots, n).len() ==> any_proposal(#[trigger] proposed(roots, n)[k], roots, n),
    decreases n,
{
    if n > 0 {
        law_locations_are_what_detectors_proposed(roots, n - 1);
        let before = proposed(roots, n - 1);
        let now = proposed(roots, n);
        assert forall|i: int| 0 <= i < n && (#[trigger] roots[i]).detector_id is Some implies exists|k: int|
            0 <= k < now.len() && is_proposal(#[trigger] now[k], roots[i]) by {
            if i < n - 1 {
                let k = choose|k: int| 0 <= k < before.len() && is_proposal(#[trigger] before[k], roots[i]);
                assert(now[k] == before[k]);
            } else {
                assert(is_proposal(now[before.len() as int], roots[i]));
            }
        }
        assert forall|k: int| 0 <= k < now.len() implies any_proposal(#[trigger] now[k], roots, n) by {
            if k < before.len() {
                assert(now[k] == before[k]);
                let i = choose|i: int| 0 <= i < n - 1 && is_proposal(before[k], #[trigger] roots[i]);
                assert(is_proposal(now[k], roots[i]));
            } else {
                assert(is_proposal(now[k], roots[n - 1]));
            }
        }
    }
}

pub open spec fn any_proposal(c: CandidateModel, roots: Seq<AuthorizedRoot>, n: int) -> bool {
    exists|i: int| 0 <= i < n && is_proposal(c, #[trigger] roots[i])
}

/// What is left out is just what the user put out of scope, by what it resolves to.
pub proof fn law_what_is_out_of_scope_is_left_out(
    roots: Seq<UnauthorizedRoot>,
    canonical: Seq<(PathModel, PathModel)>,
    n: int,
    path: PathModel,
)
    requires
        0 <= n <= roots.len(),
    ensures
        has_path(left_out(roots, canonical, n), path) <==> exists|i: int|
            0 <= i < n && (#[trigger] roots[i]).out_of_scope && same_path(resolved(canonical, roots[i].path@), path),
    decreases n,
{
    if n > 0 {
        law_what_is_out_of_scope_is_left_out(roots, canonical, n - 1, path);
        let before = left_out(roots, canonical, n - 1);
        let now = left_out(roots, canonical, n);
        if has_path(before, path) {
            let k = choose|k: int| 0 <= k < before.len() && same_path(#[trigger] before[k], path);
            assert(now[k] == before[k]);
        }
        if has_path(now, path) {
            let k = choose|k: int| 0 <= k < now.len() && same_path(#[trigger] now[k], path);
            if k < before.len() {
                assert(same_path(before[k], path));
            } else {
                assert(roots[n - 1].out_of_scope);
            }
        }
        if roots[n - 1].out_of_scope && same_path(resolved(canonical, roots[n - 1].path@), path) {
            assert(same_path(now[before.len() as int], path));
        }
    }
}

/// Whether a location is a candidate, at what the candidate resolves to.
pub open spec fn is_placed(c: CandidateModel, from: CandidateModel, canonical: Seq<(PathModel, PathModel)>) -> bool {
    &&& c.detector_id == from.detector_id
    &&& c.detector_name == from.detector_name
    &&& c.category == from.category
    &&& c.provenance == from.provenance
    &&& c.path == resolved(canonical, from.path)
}

pub open spec fn any_placed(
    c: CandidateModel,
    list: Seq<CandidateModel>,
    canonical: Seq<(PathModel, PathModel)>,
    n: int,
) -> bool {
    exists|i: int| 0 <= i < n && is_placed(c, #[trigger] list[i], canonical)
}

/// Whether a list measures a candidate: at what it resolves to, in its category.
pub open spec fn measures(list: Seq<CandidateModel>, c: CandidateModel, canonical: Seq<(PathModel, PathModel)>) -> bool {
    exists|k: int|
        0 <= k < list.len() && (#[trigger] list[k]).category == c.category && same_path(
            list[k].path,
            resolved(canonical, c.path),
        )
}

/// Every candidate is measured, and what is measured is a candidate.
pub proof fn law_every_candidate_is_measured(list: Seq<CandidateModel>, canonical: Seq<(PathModel, PathModel)>, n: int)
    requires
        0 <= n <= list.len(),
    ensures
        forall|i: int| 0 <= i < n ==> measures(placed(list, canonical, n), #[trigger] list[i], canonical),
        forall|k: int|
            0 <= k < placed(list, canonical, n).len() ==> any_placed(
                #[trigger] placed(list, canonical, n)[k],
                list,
                canonical,
                n,
            ),
    decreases n,
{
    if n > 0 {
        law_every_candidate_is_measured(list, canonical, n - 1);
        let before = placed(list, canonical, n - 1);
        let now = placed(list, canonical, n);
        assert forall|i: int| 0 <= i < n implies measures(now, #[trigger] list[i], canonical) by {
            if measures(before, list[i], canonical) {
                let k = choose|k: int|
                    0 <= k < before.len() && (#[trigger] before[k]).category == list[i].category && same_path(
                        before[k].path,
                        resolved(canonical, list[i].path),
                    );
                assert(now[k] == before[k]);
            } else {
                assert(i == n - 1);
                assert(now[before.len() as int].category == list[i].category);
            }
        }
        assert forall|k: int| 0 <= k < now.len() implies any_placed(#[trigger] now[k], list, canonical, n) by {
            if k < before.len() {
                assert(now[k] == before[k]);
                let i = choose|i: int| 0 <= i < n - 1 && is_placed(before[k], #[trigger] list[i], canonical);
                assert(is_placed(now[k], list[i], canonical));
            } else {
                assert(is_placed(now[k], list[n - 1], canonical));
            }
        }
    }
}

proof fn lemma_locations_are_inside(list: Seq<CandidateModel>, i: int, n: int, p: PathModel)
    requires
        0 <= n <= list.len(),
        has_path(locations_inside(list, i, n), p),
    ensures
        inside(p, list[i].path),
        exists|j: int| 0 <= j < n && j != i && same_path((#[trigger] list[j]).path, p),
        locations_inside(list, i, n).len() <= n,
    decreases n,
{
    let now = locations_inside(list, i, n);
    let k = choose|k: int| 0 <= k < now.len() && same_path(#[trigger] now[k], p);
    if n > 0 {
        let before = locations_inside(list, i, n - 1);
        lemma_locations_len(list, i, n - 1);
        if k < before.len() {
            assert(same_path(before[k], p));
            lemma_locations_are_inside(list, i, n - 1, p);
            let j = choose|j: int| 0 <= j < n - 1 && j != i && same_path((#[trigger] list[j]).path, p);
            assert(same_path(list[j].path, p));
        } else {
            assert(same_path(list[n - 1].path, p));
        }
    }
}

proof fn lemma_locations_len(list: Seq<CandidateModel>, i: int, n: int)
    requires
        0 <= n,
    ensures
        locations_inside(list, i, n).len() <= n,
    decreases n,
{
    if n > 0 {
        lemma_locations_len(list, i, n - 1);
    }
}

proof fn lemma_paths_are_inside(list: Seq<PathModel>, path: PathModel, n: int, p: PathModel)
    requires
        0 <= n <= list.len(),
    ensures
        has_path(paths_inside(list, path, n), p) ==> inside(p, path) && has_path(list, p),
        paths_inside(list, path, n).len() <= n,
    decreases n,
{
    if n > 0 {
        lemma_paths_are_inside(list, path, n - 1, p);
        let before = paths_inside(list, path, n - 1);
        let now = paths_inside(list, path, n);
        if has_path(now, p) {
            let k = choose|k: int| 0 <= k < now.len() && same_path(#[trigger] now[k], p);
            if k < before.len() {
                assert(same_path(before[k], p));
            } else {
                assert(same_path(list[n - 1], p));
            }
        }
    }
}

/// A measurement leaves out nothing but other locations inside it and what is out
/// of scope there.
pub proof fn law_nothing_else_is_left_out(list: Seq<CandidateModel>, out_of_scope: Seq<PathModel>, i: int, p: PathModel)
    requires
        list.len() + out_of_scope.len() <= usize::MAX,
        0 <= i < list.len(),
        has_path(exclusions(list, out_of_scope, i), p),
    ensures
        inside(p, list[i].path),
        has_path(out_of_scope, p) || exists|j: int|
            0 <= j < list.len() && j != i && same_path((#[trigger] list[j]).path, p),
{
    let a = locations_inside(list, i, list.len() as int);
    let b = paths_inside(out_of_scope, list[i].path, out_of_scope.len() as int);
    lemma_locations_len(list, i, list.len() as int);
    lemma_paths_are_inside(out_of_scope, list[i].path, out_of_scope.len() as int, p);
    law_ordering_keeps_paths(a + b, p);
    let k = choose|k: int| 0 <= k < (a + b).len() && same_path(#[trigger] (a + b)[k], p);
    if k < a.len() {
        assert(same_path(a[k], p));
        lemma_locations_are_inside(list, i, list.len() as int, p);
    } else {
        assert(same_path(b[k - a.len()], p));
    }
}

// ---------------------------------------------------------------------
// What is shown
// ---------------------------------------------------------------------

/// Whether a location was measured to the end.
pub open spec fn read_whole(m: Measurement) -> bool {
    m.observation matches UnitObservation::Unit(u) && u.complete
}

/// Whether a location is there but was not measured to the end.
pub open spec fn read_in_part(m: Measurement) -> bool {
    m.observation is Unreadable || (m.observation matches UnitObservation::Unit(u) && !u.complete)
}

pub open spec fn unit_read(m: Measurement) -> FoldedUnit {
    m.observation->Unit_0
}

/// Whether a unit shows a location's own measurement.
pub open spec fn shows(u: ExternalModel, p: PlannedModel, m: Measurement) -> bool {
    &&& u.detector_id == p.candidate.detector_id
    &&& u.detector_name == p.candidate.detector_name
    &&& u.category == p.candidate.category
    &&& u.provenance == p.candidate.provenance
    &&& u.path == p.candidate.path
    &&& u.bytes == unit_read(m).bytes
    &&& u.mtime_max == unit_read(m).mtime_max
    &&& u.hardlinked == unit_read(m).hardlinked
    &&& u.note is None
}

pub open spec fn shows_any(u: ExternalModel, plan: Seq<PlannedModel>, list: Seq<Measurement>, n: int) -> bool {
    exists|i: int| 0 <= i < n && read_whole(list[i]) && shows(u, #[trigger] plan[i], list[i])
}

/// Every location measured to the end is shown with what was measured, and no
/// other is shown as measured.
pub proof fn law_what_was_measured_is_shown(plan: Seq<PlannedModel>, list: Seq<Measurement>, a: AnswersModel, n: int)
    requires
        0 <= n <= plan.len(),
    ensures
        forall|i: int|
            0 <= i < n && read_whole(list[i]) ==> exists|k: int|
                0 <= k < measured_units(plan, list, a, n).len() && shows(
                    #[trigger] measured_units(plan, list, a, n)[k],
                    #[trigger] plan[i],
                    list[i],
                ),
        forall|k: int|
            0 <= k < measured_units(plan, list, a, n).len() ==> shows_any(
                #[trigger] measured_units(plan, list, a, n)[k],
                plan,
                list,
                n,
            ),
    decreases n,
{
    if n > 0 {
        law_what_was_measured_is_shown(plan, list, a, n - 1);
        let before = measured_units(plan, list, a, n - 1);
        let now = measured_units(plan, list, a, n);
        if read_whole(list[n - 1]) {
            assert(shows(now[before.len() as int], plan[n - 1], list[n - 1]));
        }
        assert forall|i: int| 0 <= i < n && read_whole(list[i]) implies exists|k: int|
            0 <= k < now.len() && shows(#[trigger] now[k], #[trigger] plan[i], list[i]) by {
            if i < n - 1 {
                let k = choose|k: int| 0 <= k < before.len() && shows(#[trigger] before[k], plan[i], list[i]);
                assert(now[k] == before[k]);
            }
        }
        assert forall|k: int| 0 <= k < now.len() implies shows_any(#[trigger] now[k], plan, list, n) by {
            if k < before.len() {
                assert(now[k] == before[k]);
                let i = choose|i: int| 0 <= i < n - 1 && read_whole(list[i]) && shows(before[k], #[trigger] plan[i], list[i]);
                assert(shows(now[k], plan[i], list[i]));
            } else {
                assert(shows(now[k], plan[n - 1], list[n - 1]));
            }
        }
    }
}

/// The history of a location is protected just where it is there and was not
/// measured to the end.
pub proof fn law_history_is_protected_where_coverage_shrank(
    plan: Seq<PlannedModel>,
    list: Seq<Measurement>,
    n: int,
    key: Seq<char>,
)
    requires
        0 <= n <= plan.len(),
    ensures
        protected_keys(plan, list, n).contains(key) <==> exists|i: int|
            0 <= i < n && read_in_part(list[i]) && (#[trigger] plan[i]).key == key,
    decreases n,
{
    if n > 0 {
        law_history_is_protected_where_coverage_shrank(plan, list, n - 1, key);
        let before = protected_keys(plan, list, n - 1);
        let now = protected_keys(plan, list, n);
        if before.contains(key) {
            let k = choose|k: int| 0 <= k < before.len() && before[k] == key;
            assert(now[k] == key);
        }
        if now.contains(key) {
            let k = choose|k: int| 0 <= k < now.len() && now[k] == key;
            if k < before.len() {
                assert(before[k] == key);
            } else {
                assert(plan[n - 1].key == key);
            }
        }
        if read_in_part(list[n - 1]) && plan[n - 1].key == key {
            assert(now[before.len() as int] == key);
        }
    }
}

/// A location that was not measured to the end is never shown with less than is
/// known of it, and always with a note.
pub proof fn law_less_than_is_known_is_never_shown(last: Option<(u64, u32)>, bound: Option<FoldedUnit>)
    ensures
        last is Some ==> shown(last, bound).0 >= (last->0).0,
        bound is Some ==> shown(last, bound).0 >= bound->0.bytes,
        (last is Some && shown(last, bound).0 == (last->0).0) || (bound is Some && shown(last, bound).0
            == bound->0.bytes) || (last is None && bound is None && shown(last, bound).0 == 0),
        shown(last, bound).3.len() > 0,
        bound is Some && (last is None || bound->0.bytes > (last->0).0) ==> shown(last, bound).1 == bound->0.mtime_max
            && shown(last, bound).2 == bound->0.hardlinked,
{
    reveal_strlit("coverage incomplete: some directories could not be read; bytes are a lower bound");
    reveal_strlit("coverage incomplete this pass: could not be read; last complete measurement shown");
    reveal_strlit("coverage incomplete this pass: could not be read");
}

// ---------------------------------------------------------------------
// What is kept
// ---------------------------------------------------------------------

/// The stores of a pass are just the locations that are stores and of which
/// something was read.
pub proof fn law_stores_are_those_that_were_read(plan: Seq<PlannedModel>, list: Seq<Measurement>, n: int, c: ContainerModel)
    requires
        0 <= n <= plan.len(),
    ensures
        measured_stores(plan, list, n).contains(c) <==> exists|i: int|
            0 <= i < n && (#[trigger] plan[i]).container == Some(c) && list[i].observation is Unit,
    decreases n,
{
    if n > 0 {
        law_stores_are_those_that_were_read(plan, list, n - 1, c);
        let before = measured_stores(plan, list, n - 1);
        let now = measured_stores(plan, list, n);
        if before.contains(c) {
            let k = choose|k: int| 0 <= k < before.len() && before[k] == c;
            assert(now[k] == c);
        }
        if now.contains(c) {
            let k = choose|k: int| 0 <= k < now.len() && now[k] == c;
            if k < before.len() {
                assert(before[k] == c);
            } else {
                assert(plan[n - 1].container == Some(c));
            }
        }
        if plan[n - 1].container == Some(c) && list[n - 1].observation is Unit {
            assert(now[before.len() as int] == c);
        }
    }
}

/// A container's units are just those that lie in it.
pub proof fn law_a_container_keeps_its_own_units(units: Seq<UnitModel>, scope: Seq<char>, n: int, u: UnitModel)
    requires
        0 <= n <= units.len(),
    ensures
        units_of(units, scope, n).contains(u) <==> units.take(n).contains(u) && u.container_id == Some(scope),
    decreases n,
{
    if n > 0 {
        law_a_container_keeps_its_own_units(units, scope, n - 1, u);
        let before = units_of(units, scope, n - 1);
        let now = units_of(units, scope, n);
        let a = units.take(n - 1);
        let b = units.take(n);
        if before.contains(u) {
            let k = choose|k: int| 0 <= k < before.len() && before[k] == u;
            assert(now[k] == u);
        }
        if now.contains(u) {
            let k = choose|k: int| 0 <= k < now.len() && now[k] == u;
            if k < before.len() {
                assert(before[k] == u);
            } else {
                assert(b[n - 1] == u);
            }
        }
        if a.contains(u) {
            let k = choose|k: int| 0 <= k < a.len() && a[k] == u;
            assert(b[k] == u);
        }
        if b.contains(u) {
            let k = choose|k: int| 0 <= k < b.len() && b[k] == u;
            if k < n - 1 {
                assert(a[k] == u);
            } else if u.container_id == Some(scope) {
                assert(now[before.len() as int] == u);
            }
        }
    } else {
        assert(units.take(0) =~= Seq::<UnitModel>::empty());
    }
}

/// Every store of a pass is kept with its own units, also one in which there are
/// none, and nothing else is kept.
pub proof fn law_every_store_is_kept(stores: Seq<ContainerModel>, units: Seq<UnitModel>, n: int)
    requires
        0 <= n <= stores.len(),
    ensures
        forall|i: int| 0 <= i < n ==> scope_listed(this_pass(stores, units, n), #[trigger] stores[i].scope()),
        forall|k: int|
            0 <= k < this_pass(stores, units, n).len() ==> {
                let kept = #[trigger] this_pass(stores, units, n)[k];
                &&& kept.1 == units_of(units, kept.0, units.len() as int)
                &&& exists|i: int| 0 <= i < n && #[trigger] stores[i].scope() == kept.0
            },
    decreases n,
{
    if n > 0 {
        law_every_store_is_kept(stores, units, n - 1);
        let before = this_pass(stores, units, n - 1);
        let now = this_pass(stores, units, n);
        assert forall|i: int| 0 <= i < n implies scope_listed(now, #[trigger] stores[i].scope()) by {
            if scope_listed(before, stores[i].scope()) {
                let k = choose|k: int| 0 <= k < before.len() && (#[trigger] before[k]).0 == stores[i].scope();
                assert(now[k] == before[k]);
            } else {
                assert(now[before.len() as int].0 == stores[i].scope());
            }
        }
        assert forall|k: int| 0 <= k < now.len() implies {
            let kept = #[trigger] now[k];
            &&& kept.1 == units_of(units, kept.0, units.len() as int)
            &&& exists|i: int| 0 <= i < n && #[trigger] stores[i].scope() == kept.0
        } by {
            if k < before.len() {
                assert(now[k] == before[k]);
                let i = choose|i: int| 0 <= i < n - 1 && #[trigger] stores[i].scope() == before[k].0;
                assert(stores[i].scope() == now[k].0);
            } else {
                assert(stores[n - 1].scope() == now[k].0);
            }
        }
    }
}

// ---------------------------------------------------------------------
// What is known of what was measured
// ---------------------------------------------------------------------

/// Whether a store of history is a location that is a store and was read.
pub open spec fn is_store_of(s: IdentifiedModel, p: PlannedModel, m: Measurement) -> bool {
    &&& p.container is Some
    &&& m.observation is Unit
    &&& s.detector_id == p.candidate.detector_id
    &&& s.device == p.device
    &&& s.path == p.candidate.path
}

/// History stands under just the stores that were read.
pub proof fn law_history_stands_under_stores_that_were_read(
    plan: Seq<PlannedModel>,
    list: Seq<Measurement>,
    n: int,
    s: IdentifiedModel,
)
    requires
        0 <= n <= plan.len(),
    ensures
        identified_stores(plan, list, n).contains(s) <==> exists|i: int|
            0 <= i < n && is_store_of(s, #[trigger] plan[i], list[i]),
    decreases n,
{
    if n > 0 {
        law_history_stands_under_stores_that_were_read(plan, list, n - 1, s);
        let before = identified_stores(plan, list, n - 1);
        let now = identified_stores(plan, list, n);
        if before.contains(s) {
            let k = choose|k: int| 0 <= k < before.len() && before[k] == s;
            assert(now[k] == s);
        }
        if now.contains(s) {
            let k = choose|k: int| 0 <= k < now.len() && now[k] == s;
            if k < before.len() {
                assert(before[k] == s);
            } else {
                assert(is_store_of(s, plan[n - 1], list[n - 1]));
            }
        }
        if is_store_of(s, plan[n - 1], list[n - 1]) {
            assert(now[before.len() as int] == s);
        }
    }
}

/// What may be replayed of a pass before is just what is stored of the stores that
/// were not read again.
pub proof fn law_only_what_was_not_read_is_replayed(
    previous: Seq<StoredModel>,
    scopes: Seq<Seq<char>>,
    n: int,
    s: StoredModel,
)
    requires
        0 <= n <= previous.len(),
    ensures
        replayed_from(previous, scopes, n).contains(s) <==> previous.take(n).contains(s) && scopes.contains(s.scope),
    decreases n,
{
    if n > 0 {
        law_only_what_was_not_read_is_replayed(previous, scopes, n - 1, s);
        let before = replayed_from(previous, scopes, n - 1);
        let now = replayed_from(previous, scopes, n);
        let a = previous.take(n - 1);
        let b = previous.take(n);
        if before.contains(s) {
            let k = choose|k: int| 0 <= k < before.len() && before[k] == s;
            assert(now[k] == s);
        }
        if now.contains(s) {
            let k = choose|k: int| 0 <= k < now.len() && now[k] == s;
            if k < before.len() {
                assert(before[k] == s);
            } else {
                assert(b[n - 1] == s);
            }
        }
        if a.contains(s) {
            let k = choose|k: int| 0 <= k < a.len() && a[k] == s;
            assert(b[k] == s);
        }
        if b.contains(s) {
            let k = choose|k: int| 0 <= k < b.len() && b[k] == s;
            if k < n - 1 {
                assert(a[k] == s);
            } else if scopes.contains(s.scope) {
                assert(now[before.len() as int] == s);
            }
        }
    } else {
        assert(previous.take(0) =~= Seq::<StoredModel>::empty());
    }
}

/// A store may be replayed just where it was measured and its directories were not
/// read again.
pub proof fn law_a_store_that_was_read_is_not_replayed(
    plan: Seq<PlannedModel>,
    list: Seq<Measurement>,
    n: int,
    scope: Seq<char>,
)
    requires
        0 <= n <= plan.len(),
    ensures
        replayable(plan, list, n).contains(scope) <==> exists|i: int|
            0 <= i < n && (#[trigger] plan[i]).container is Some && plan[i].container->0.scope() == scope
                && list[i].observation is Unit && list[i].dirs is None,
    decreases n,
{
    if n > 0 {
        law_a_store_that_was_read_is_not_replayed(plan, list, n - 1, scope);
        let before = replayable(plan, list, n - 1);
        let now = replayable(plan, list, n);
        if before.contains(scope) {
            let k = choose|k: int| 0 <= k < before.len() && before[k] == scope;
            assert(now[k] == scope);
        }
        if now.contains(scope) {
            let k = choose|k: int| 0 <= k < now.len() && now[k] == scope;
            if k < before.len() {
                assert(before[k] == scope);
            } else {
                assert(plan[n - 1].container is Some);
            }
        }
        if plan[n - 1].container is Some && plan[n - 1].container->0.scope() == scope && list[n - 1].observation is Unit
            && list[n - 1].dirs is None {
            assert(now[before.len() as int] == scope);
        }
    }
}

proof fn lemma_unit_at(units: Seq<ExternalModel>, path: PathModel, i: int, k: int)
    requires
        0 <= i <= k < units.len(),
        same_path(units[k].path, path),
        forall|j: int| i <= j < k ==> !same_path((#[trigger] units[j]).path, path),
    ensures
        unit_at(units, path, i) == Some(units[k]),
    decreases k - i,
{
    if i < k {
        assert(!same_path(units[i].path, path));
        lemma_unit_at(units, path, i + 1, k);
    }
}

proof fn lemma_no_unit_at(units: Seq<ExternalModel>, path: PathModel, i: int)
    requires
        0 <= i,
        forall|j: int| i <= j < units.len() ==> !same_path((#[trigger] units[j]).path, path),
    ensures
        unit_at(units, path, i) is None,
    decreases units.len() - i,
{
    if i < units.len() {
        assert(!same_path(units[i].path, path));
        lemma_no_unit_at(units, path, i + 1);
    }
}

/// A store's own row has the history of its location; a unit that is no location
/// keeps its own.
pub proof fn law_a_store_has_the_history_of_its_location(inner: Seq<UnitModel>, units: Seq<ExternalModel>, i: int, k: int)
    requires
        0 <= i < inner.len(),
    ensures
        with_locations(inner, units).len() == inner.len(),
        0 <= k < units.len() && same_path(units[k].path, inner[i].path) && (forall|j: int|
            0 <= j < k ==> !same_path((#[trigger] units[j]).path, inner[i].path)) ==> with_locations(
            inner,
            units,
        )[i].growth_bytes == units[k].growth_bytes && with_locations(inner, units)[i].regrowth_count
            == units[k].regrowth_count && with_locations(inner, units)[i].bytes == inner[i].bytes,
        (forall|j: int| 0 <= j < units.len() ==> !same_path((#[trigger] units[j]).path, inner[i].path))
            ==> with_locations(inner, units)[i] == inner[i],
{
    reveal(UnitModel::history);
    if 0 <= k < units.len() && same_path(units[k].path, inner[i].path) && (forall|j: int|
        0 <= j < k ==> !same_path((#[trigger] units[j]).path, inner[i].path)) {
        lemma_unit_at(units, inner[i].path, 0, k);
    }
    if forall|j: int| 0 <= j < units.len() ==> !same_path((#[trigger] units[j]).path, inner[i].path) {
        lemma_no_unit_at(units, inner[i].path, 0);
    }
}

/// A location is on the device that was read for it, the first of several.
pub proof fn law_a_location_is_on_its_device(pairs: Seq<(PathModel, u64)>, path: PathModel, i: int, k: int)
    requires
        0 <= i,
    ensures
        i <= k < pairs.len() && same_path(pairs[k].0, path) && (forall|j: int|
            i <= j < k ==> !same_path((#[trigger] pairs[j]).0, path)) ==> device_from(pairs, path, i) == pairs[k].1,
        (forall|j: int| i <= j < pairs.len() ==> !same_path((#[trigger] pairs[j]).0, path)) ==> device_from(
            pairs,
            path,
            i,
        ) == 0,
    decreases pairs.len() - i,
{
    if i < pairs.len() && !same_path(pairs[i].0, path) {
        law_a_location_is_on_its_device(pairs, path, i + 1, k);
    }
}

} // verus!
