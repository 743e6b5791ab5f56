//! Which locations are stores, and under which store a unit's history stands.

use super::history::{
    annotated_unit, recorded_under, store_of, unit_category, unit_rows, unread, IdentifiedModel,
};
use super::join::{already, claimant_from, over_decls, over_detectors, over_places, stores_among, StoreModel};
use crate::artifact::{Membership, UnitModel};
use crate::build_adapters::adapter::BuildAdapter;
use crate::build_adapters::registry::{identifies, Builtin};
use crate::detectors::{
    above, anchored, anchored_upto, anchors, ends_with, sibling_from, AnchorModel, DetectorModel,
    LocatedModel,
};
use crate::growth::{annotation_from, row_key, AnnotationModel, ObservedModel};
use crate::locations::{BuildStoreKind, StorageCategory};
use crate::path::{has_path, inside, lemma_parent_parts, parent, path_text, same_path, within, PathModel};
use vstd::prelude::*;

verus! {

/// Whether a path's last names are these.
pub open spec fn ends(path: PathModel, suffix: Seq<Seq<char>>) -> bool {
    exists|before: Seq<Seq<char>>| path.parts() == #[trigger] (before + suffix)
}

/// Whether location `s` is a detector's first of a category.
pub open spec fn is_first(list: Seq<LocatedModel>, id: Seq<char>, category: StorageCategory, s: int) -> bool {
    &&& 0 <= s < list.len()
    &&& list[s].detector_id == id
    &&& list[s].category == category
    &&& forall|j: int| 0 <= j < s ==> (#[trigger] list[j]).detector_id != id || list[j].category != category
}

/// Whether one path is so many levels above another, none of them over the root.
pub open spec fn levels_above(p: PathModel, of: PathModel, up: nat) -> bool {
    &&& within(of, p)
    &&& of.len() == p.len() + up
    &&& forall|k: int| p.len() <= k < of.len() ==> #[trigger] of.parts()[k] != "/"@
}

/// Whether a declaration of a detector means location `i`.
pub open spec fn means(list: Seq<LocatedModel>, id: Seq<char>, anchor: AnchorModel, i: int) -> bool {
    list[i].detector_id == id && match anchor {
        AnchorModel::SoleLocation => true,
        AnchorModel::Categorized { category, suffix } => list[i].category == category && ends(list[i].path, suffix),
        AnchorModel::CategorizedExcept { category, except } => list[i].category == category && forall|k: int|
            0 <= k < except.len() ==> !ends(list[i].path, #[trigger] except[k]),
        AnchorModel::AncestorOfSibling { sibling, up, category } => list[i].category == category && exists|s: int|
            #[trigger] is_first(list, id, sibling, s) && levels_above(list[i].path, list[s].path, up),
    }
}

proof fn lemma_ends(path: PathModel, suffix: Seq<Seq<char>>)
    ensures
        ends_with(path, suffix) <==> ends(path, suffix),
{
    let parts = path.parts();
    if ends_with(path, suffix) {
        let before = parts.take(parts.len() - suffix.len());
        assert(parts =~= before + suffix);
    }
    if ends(path, suffix) {
        let before = choose|before: Seq<Seq<char>>| path.parts() == #[trigger] (before + suffix);
        assert(parts.skip(parts.len() - suffix.len()) =~= suffix);
    }
}

proof fn lemma_above(path: PathModel, up: nat)
    ensures
        above(path, up) matches Some(p) ==> p.parts() == path.parts().take(path.len() - up) && up <= path.len(),
        above(path, up) is Some <==> up <= path.len() && forall|k: int|
            path.len() - up <= k < path.len() ==> #[trigger] path.parts()[k] != "/"@,
    decreases up,
{
    if up == 0 {
        assert(path.parts().take(path.len() as int) =~= path.parts());
    } else {
        if parent(path) is Some {
            let q = parent(path)->0;
            lemma_parent_parts(path);
            lemma_above(q, (up - 1) as nat);
            assert(path.len() == q.len() + 1);
            assert(path.parts().last() != "/"@);
            if up <= path.len() {
                assert(q.parts().take(path.len() - up) =~= path.parts().take(path.len() - up));
            }
            assert forall|k: int| 0 <= k < q.len() implies #[trigger] q.parts()[k] == path.parts()[k] by {}
            if up <= path.len() && forall|k: int|
                q.len() - (up - 1) <= k < q.len() ==> #[trigger] q.parts()[k] != "/"@ {
                assert forall|k: int| path.len() - up <= k < path.len() implies #[trigger] path.parts()[k] != "/"@ by {
                    if 0 <= k < q.len() {
                        assert(q.parts()[k] != "/"@);
                    }
                }
            }
            if above(path, up) is None && up <= path.len() {
                let k = choose|k: int| q.len() - (up - 1) <= k < q.len() && #[trigger] q.parts()[k] == "/"@;
                assert(path.parts()[k] == "/"@);
            }
        } else if up <= path.len() {
            assert(path.parts()[path.len() - 1] == "/"@);
        }
    }
}

proof fn lemma_first(list: Seq<LocatedModel>, id: Seq<char>, category: StorageCategory, i: int) -> (s: int)
    requires
        0 <= i <= list.len(),
        forall|j: int| 0 <= j < i ==> (#[trigger] list[j]).detector_id != id || list[j].category != category,
    ensures
        sibling_from(list, id, category, i) matches Some(p) ==> is_first(list, id, category, s) && list[s].path == p,
        sibling_from(list, id, category, i) is None ==> forall|j: int|
            0 <= j < list.len() ==> (#[trigger] list[j]).detector_id != id || list[j].category != category,
    decreases list.len() - i,
{
    if i >= list.len() {
        i
    } else if list[i].detector_id == id && list[i].category == category {
        i
    } else {
        lemma_first(list, id, category, i + 1)
    }
}

proof fn lemma_anchored(list: Seq<LocatedModel>, id: Seq<char>, anchor: AnchorModel, n: int, i: usize)
    requires
        0 <= n <= list.len() <= usize::MAX,
    ensures
        anchored_upto(list, id, anchor, n).contains(i) <==> i < n && anchors(list, id, anchor, i as int),
    decreases n,
{
    if n > 0 {
        lemma_anchored(list, id, anchor, n - 1, i);
        let before = anchored_upto(list, id, anchor, n - 1);
        let now = anchored_upto(list, id, anchor, n);
        if now.contains(i) {
            let k = choose|k: int| 0 <= k < now.len() && now[k] == i;
            if k < before.len() {
                assert(before[k] == i);
            }
        }
        if before.contains(i) {
            let k = choose|k: int| 0 <= k < before.len() && before[k] == i;
            assert(now[k] == i);
        }
        if i == n - 1 && anchors(list, id, anchor, n - 1) {
            assert(now[now.len() - 1] == i);
        }
    }
}

/// A declaration selects only locations of its own detector that are what it
/// describes: of its category, with the names it asks for or without those it
/// leaves out, or as many levels above the detector's first location of another
/// category as it says.
pub proof fn law_a_declaration_selects_what_it_describes(list: Seq<LocatedModel>, id: Seq<char>, anchor: AnchorModel, i:
    usize)
    requires
        list.len() <= usize::MAX,
    ensures
        anchored(list, id, anchor).contains(i) <==> i < list.len() && means(list, id, anchor, i as int),
{
    lemma_anchored(list, id, anchor, list.len() as int, i);
    if i < list.len() {
        let path = list[i as int].path;
        match anchor {
            AnchorModel::SoleLocation => {},
            AnchorModel::Categorized { category, suffix } => {
                lemma_ends(path, suffix);
            },
            AnchorModel::CategorizedExcept { category, except } => {
                assert forall|k: int| 0 <= k < except.len() implies (ends_with(path, #[trigger] except[k]) <==> ends(
                    path,
                    except[k],
                )) by {
                    lemma_ends(path, except[k]);
                }
            },
            AnchorModel::AncestorOfSibling { sibling, up, category } => {
                let s = lemma_first(list, id, sibling, 0);
                lemma_above(list[s].path, up);
                if anchors(list, id, anchor, i as int) {
                    assert(is_first(list, id, sibling, s));
                    assert(levels_above(path, list[s].path, up));
                }
                if means(list, id, anchor, i as int) {
                    let t = choose|t: int| #[trigger]
                        is_first(list, id, sibling, t) && levels_above(path, list[t].path, up);
                    assert(list[t].detector_id == id);
                    assert(s == t);
                    assert(above(list[s].path, up) is Some);
                }
            },
        }
    }
}

/// Whether a store stands for a location as a declaration says: told of by an
/// adapter that knows such stores, at the location's own place, shared between
/// projects.
pub open spec fn stands_for(adapters: Seq<Builtin>, located: Seq<LocatedModel>, kind: BuildStoreKind, s: StoreModel) -> bool {
    &&& s.1.path == located[s.0 as int].path
    &&& s.1.store_kind == Some(kind)
    &&& s.1.shared
    &&& s.1.project_root is None
    &&& exists|a: int|
        0 <= a < adapters.len() && identifies(#[trigger] adapters[a], kind) && s.1.adapter_id == adapters[a].id_spec()
}

/// Whether declaration `k` of a detector selects a location as a store of its kind.
pub open spec fn declared_there(located: Seq<LocatedModel>, d: DetectorModel, k: int, place: usize) -> bool {
    0 <= k < d.build_stores.len() && anchored(located, d.id, d.build_stores[k].anchor).contains(place)
}

pub open spec fn rightly_a_store(
    adapters: Seq<Builtin>,
    located: Seq<LocatedModel>,
    d: DetectorModel,
    n: int,
    s: StoreModel,
) -> bool {
    exists|k: int|
        0 <= k < n && #[trigger] declared_there(located, d, k, s.0) && stands_for(
            adapters,
            located,
            d.build_stores[k].kind,
            s,
        )
}

proof fn lemma_claims(adapters: Seq<Builtin>, kind: BuildStoreKind, i: int)
    requires
        0 <= i,
    ensures
        claimant_from(adapters, kind, i) matches Some(a) ==> identifies(a, kind) && exists|k: int|
            0 <= k < adapters.len() && #[trigger] adapters[k] == a,
        claimant_from(adapters, kind, i) is None ==> forall|k: int|
            i <= k < adapters.len() ==> !identifies(#[trigger] adapters[k], kind),
    decreases adapters.len() - i,
{
    if i < adapters.len() {
        if identifies(adapters[i], kind) {
            assert(adapters[i] == claimant_from(adapters, kind, i)->0);
        } else {
            lemma_claims(adapters, kind, i + 1);
        }
    }
}

proof fn lemma_places(
    found: Seq<StoreModel>,
    located: Seq<LocatedModel>,
    places: Seq<usize>,
    a: Builtin,
    kind: BuildStoreKind,
    n: int,
)
    requires
        0 <= n <= places.len(),
    ensures
        found.len() <= over_places(found, located, places, a, kind, n).len(),
        forall|k: int|
            0 <= k < found.len() ==> #[trigger] over_places(found, located, places, a, kind, n)[k] == found[k],
        forall|k: int|
            found.len() <= k < over_places(found, located, places, a, kind, n).len() ==> {
                let s = #[trigger] over_places(found, located, places, a, kind, n)[k];
                &&& places.contains(s.0)
                &&& s.1.path == located[s.0 as int].path
                &&& s.1.store_kind == Some(kind)
                &&& s.1.shared
                &&& s.1.project_root is None
                &&& s.1.adapter_id == a.id_spec()
            },
        forall|j: int|
            0 <= j < n ==> already(over_places(found, located, places, a, kind, n), #[trigger] places[j]),
    decreases n,
{
    if n > 0 {
        lemma_places(found, located, places, a, kind, n - 1);
        let before = over_places(found, located, places, a, kind, n - 1);
        let now = over_places(found, located, places, a, kind, n);
        assert forall|j: int| 0 <= j < n implies already(now, #[trigger] places[j]) by {
            if already(before, places[j]) {
                let k = choose|k: int| 0 <= k < before.len() && (#[trigger] before[k]).0 == places[j];
                assert(now[k].0 == places[j]);
            } else {
                assert(j == n - 1);
                assert(now[before.len() as int].0 == places[j]);
            }
        }
    }
}

proof fn lemma_decls(found: Seq<StoreModel>, adapters: Seq<Builtin>, located: Seq<LocatedModel>, d: DetectorModel, n: int)
    requires
        0 <= n <= d.build_stores.len(),
    ensures
        found.len() <= over_decls(found, adapters, located, d, n).len(),
        forall|k: int| 0 <= k < found.len() ==> #[trigger] over_decls(found, adapters, located, d, n)[k] == found[k],
        forall|k: int|
            found.len() <= k < over_decls(found, adapters, located, d, n).len() ==> rightly_a_store(
                adapters,
                located,
                d,
                n,
                #[trigger] over_decls(found, adapters, located, d, n)[k],
            ),
    decreases n,
{
    if n > 0 {
        lemma_decls(found, adapters, located, d, n - 1);
        let before = over_decls(found, adapters, located, d, n - 1);
        let now = over_decls(found, adapters, located, d, n);
        let decl = d.build_stores[n - 1];
        let places = anchored(located, d.id, decl.anchor);
        lemma_claims(adapters, decl.kind, 0);
        match claimant_from(adapters, decl.kind, 0) {
            Some(a) => {
                lemma_places(before, located, places, a, decl.kind, places.len() as int);
                let w = choose|w: int| 0 <= w < adapters.len() && #[trigger] adapters[w] == a;
                assert forall|k: int| found.len() <= k < now.len() implies rightly_a_store(
                    adapters,
                    located,
                    d,
                    n,
                    #[trigger] now[k],
                ) by {
                    if k < before.len() {
                        assert(now[k] == before[k]);
                        let j = choose|j: int|
                            0 <= j < n - 1 && #[trigger] declared_there(located, d, j, before[k].0) && stands_for(
                                adapters,
                                located,
                                d.build_stores[j].kind,
                                before[k],
                            );
                        assert(declared_there(located, d, j, now[k].0));
                    } else {
                        assert(adapters[w].id_spec() == now[k].1.adapter_id);
                        assert(declared_there(located, d, n - 1, now[k].0));
                        assert(stands_for(adapters, located, decl.kind, now[k]));
                    }
                }
            },
            None => {
                assert forall|k: int| found.len() <= k < now.len() implies rightly_a_store(
                    adapters,
                    located,
                    d,
                    n,
                    #[trigger] now[k],
                ) by {
                    let j = choose|j: int|
                        0 <= j < n - 1 && #[trigger] declared_there(located, d, j, before[k].0) && stands_for(
                            adapters,
                            located,
                            d.build_stores[j].kind,
                            before[k],
                        );
                    assert(declared_there(located, d, j, now[k].0));
                }
            },
        }
    }
}

proof fn lemma_decl_stands(
    found: Seq<StoreModel>,
    adapters: Seq<Builtin>,
    located: Seq<LocatedModel>,
    d: DetectorModel,
    n: int,
    k: int,
    a: int,
    place: usize,
)
    requires
        0 <= k < n <= d.build_stores.len(),
        declared_there(located, d, k, place),
        0 <= a < adapters.len(),
        identifies(adapters[a], d.build_stores[k].kind),
    ensures
        already(over_decls(found, adapters, located, d, n), place),
    decreases n,
{
    let before = over_decls(found, adapters, located, d, n - 1);
    let now = over_decls(found, adapters, located, d, n);
    let decl = d.build_stores[n - 1];
    let places = anchored(located, d.id, decl.anchor);
    lemma_claims(adapters, decl.kind, 0);
    if claimant_from(adapters, decl.kind, 0) is Some {
        lemma_places(before, located, places, claimant_from(adapters, decl.kind, 0)->0, decl.kind, places.len() as int);
    }
    if k < n - 1 {
        lemma_decl_stands(found, adapters, located, d, n - 1, k, a, place);
        let j = choose|j: int| 0 <= j < before.len() && (#[trigger] before[j]).0 == place;
        assert(now[j] == before[j]);
    } else {
        let j = choose|j: int| 0 <= j < places.len() && places[j] == place;
        assert(already(now, places[j]));
    }
}

/// Each store is one that a declaration selects, told of by an adapter that knows
/// such stores.
pub proof fn law_every_store_was_declared(adapters: Seq<Builtin>, detectors: Seq<DetectorModel>, located: Seq<
    LocatedModel,
>, n: int, k: int) -> (d: int)
    requires
        0 <= n <= detectors.len(),
        0 <= k < over_detectors(adapters, detectors, located, n).len(),
    ensures
        0 <= d < n,
        rightly_a_store(
            adapters,
            located,
            detectors[d],
            detectors[d].build_stores.len() as int,
            over_detectors(adapters, detectors, located, n)[k],
        ),
    decreases n,
{
    if n <= 0 {
        0
    } else {
        let before = over_detectors(adapters, detectors, located, n - 1);
        let last = detectors[n - 1];
        lemma_decls(before, adapters, located, last, last.build_stores.len() as int);
        if k < before.len() {
            let d = law_every_store_was_declared(adapters, detectors, located, n - 1, k);
            assert(over_detectors(adapters, detectors, located, n)[k] == before[k]);
            d
        } else {
            assert(rightly_a_store(
                adapters,
                located,
                last,
                last.build_stores.len() as int,
                over_detectors(adapters, detectors, located, n)[k],
            ));
            n - 1
        }
    }
}

proof fn lemma_declared_stands(
    adapters: Seq<Builtin>,
    detectors: Seq<DetectorModel>,
    located: Seq<LocatedModel>,
    n: int,
    d: int,
    k: int,
    a: int,
    place: usize,
)
    requires
        0 <= d < n <= detectors.len(),
        declared_there(located, detectors[d], k, place),
        0 <= a < adapters.len(),
        identifies(adapters[a], detectors[d].build_stores[k].kind),
    ensures
        already(over_detectors(adapters, detectors, located, n), place),
    decreases n,
{
    let before = over_detectors(adapters, detectors, located, n - 1);
    let now = over_detectors(adapters, detectors, located, n);
    let last = detectors[n - 1];
    if d < n - 1 {
        lemma_declared_stands(adapters, detectors, located, n - 1, d, k, a, place);
        lemma_decls(before, adapters, located, last, last.build_stores.len() as int);
        let j = choose|j: int| 0 <= j < before.len() && (#[trigger] before[j]).0 == place;
        assert(now[j] == before[j]);
    } else {
        lemma_decl_stands(before, adapters, located, last, last.build_stores.len() as int, k, a, place);
    }
}

/// Each location that a declaration selects is a store, where an adapter knows
/// stores of the kind it declares.
pub proof fn law_every_declared_location_is_a_store(
    adapters: Seq<Builtin>,
    detectors: Seq<DetectorModel>,
    located: Seq<LocatedModel>,
    d: int,
    k: int,
    a: int,
    place: usize,
) -> (j: int)
    requires
        0 <= d < detectors.len(),
        declared_there(located, detectors[d], k, place),
        0 <= a < adapters.len(),
        identifies(adapters[a], detectors[d].build_stores[k].kind),
    ensures
        0 <= j < stores_among(adapters, detectors, located).len(),
        stores_among(adapters, detectors, located)[j].0 == place,
{
    let found = stores_among(adapters, detectors, located);
    lemma_declared_stands(adapters, detectors, located, detectors.len() as int, d, k, a, place);
    choose|j: int| 0 <= j < found.len() && (#[trigger] found[j]).0 == place
}

// ---------------------------------------------------------------------
// History
// ---------------------------------------------------------------------

proof fn lemma_innermost(stores: Seq<IdentifiedModel>, path: PathModel, n: int)
    requires
        0 <= n <= stores.len(),
    ensures
        store_of(stores, path, n) matches Some(s) ==> {
            &&& within(path, s.path)
            &&& stores.take(n).contains(s)
            &&& forall|k: int| 0 <= k < n && within(path, (#[trigger] stores[k]).path) ==> within(s.path, stores[k].path)
        },
        store_of(stores, path, n) is None ==> forall|k: int|
            0 <= k < n ==> !within(path, (#[trigger] stores[k]).path),
    decreases n,
{
    if n > 0 {
        lemma_innermost(stores, path, n - 1);
        if store_of(stores, path, n) is Some {
            let s = store_of(stores, path, n)->0;
            let was = store_of(stores, path, n - 1);
            if was == Some(s) {
                let first = stores.take(n - 1);
                let k = choose|k: int| 0 <= k < first.len() && first[k] == s;
                assert(stores.take(n)[k] == s);
            } else {
                assert(stores.take(n)[n - 1] == s);
            }
            assert forall|k: int| 0 <= k < n && within(path, (#[trigger] stores[k]).path) implies within(
                s.path,
                stores[k].path,
            ) by {
                let p = path.parts();
                let b = stores[k].path.parts();
                if was is Some && k < n - 1 {
                    assert(was->0.path.len() >= b.len());
                }
                assert(s.path.len() >= b.len());
                assert(s.path.parts() == p.take(s.path.len() as int));
                assert(s.path.parts().take(b.len() as int) =~= p.take(b.len() as int));
            }
        }
    }
}

/// A unit's history stands under the innermost of the stores around it, and
/// under none where it lies in no store or is that store itself.
pub proof fn law_history_stands_under_the_innermost_store(stores: Seq<IdentifiedModel>, u: UnitModel)
    ensures
        recorded_under(stores, u) matches Some(s) ==> {
            &&& stores.contains(s)
            &&& inside(u.path, s.path)
            &&& forall|k: int|
                0 <= k < stores.len() && within(u.path, (#[trigger] stores[k]).path) ==> within(s.path, stores[k].path)
        },
        recorded_under(stores, u) is None ==> forall|k: int|
            0 <= k < stores.len() && within(u.path, (#[trigger] stores[k]).path) ==> exists|j: int|
                0 <= j < stores.len() && same_path(#[trigger] stores[j].path, u.path),
{
    lemma_innermost(stores, u.path, stores.len() as int);
    assert(stores.take(stores.len() as int) =~= stores);
    if recorded_under(stores, u) is None && store_of(stores, u.path, stores.len() as int) is Some {
        let s = store_of(stores, u.path, stores.len() as int)->0;
        let j = choose|j: int| 0 <= j < stores.len() && stores[j] == s;
        assert(same_path(stores[j].path, u.path));
    }
}

/// Whether a row hands a unit to history: what it holds, at its own place, under
/// the store it lies in.
pub open spec fn hands_over(row: ObservedModel, store: IdentifiedModel, u: UnitModel) -> bool {
    &&& row.detector_id == store.detector_id
    &&& row.device == store.device
    &&& row.category == unit_category()
    &&& row.path == path_text(u.path)
    &&& row.bytes == u.bytes
    &&& row.hardlinked <==> u.membership == Membership::SharedHardlink
}

/// Whether a row hands one of the first `n` units to history.
pub open spec fn hands_over_any(stores: Seq<IdentifiedModel>, units: Seq<UnitModel>, n: int, row: ObservedModel) -> bool {
    exists|i: int|
        0 <= i < n && recorded_under(stores, #[trigger] units[i]) is Some && hands_over(
            row,
            recorded_under(stores, units[i])->0,
            units[i],
        )
}

/// Every unit inside a store is handed to history, and what is handed over is of
/// such a unit.
pub proof fn law_units_are_handed_to_history(stores: Seq<IdentifiedModel>, units: Seq<UnitModel>, n: int)
    requires
        0 <= n <= units.len(),
    ensures
        forall|i: int|
            0 <= i < n && recorded_under(stores, #[trigger] units[i]) is Some ==> exists|k: int|
                0 <= k < unit_rows(stores, units, n).len() && hands_over(
                    #[trigger] unit_rows(stores, units, n)[k],
                    recorded_under(stores, units[i])->0,
                    units[i],
                ),
        forall|k: int|
            0 <= k < unit_rows(stores, units, n).len() ==> hands_over_any(
                stores,
                units,
                n,
                #[trigger] unit_rows(stores, units, n)[k],
            ),
    decreases n,
{
    if n > 0 {
        law_units_are_handed_to_history(stores, units, n - 1);
        let before = unit_rows(stores, units, n - 1);
        let now = unit_rows(stores, units, n);
        assert forall|i: int| 0 <= i < n && recorded_under(stores, #[trigger] units[i]) is Some implies exists|k: int|
            0 <= k < now.len() && hands_over(#[trigger] now[k], recorded_under(stores, units[i])->0, units[i]) by {
            if i < n - 1 {
                let k = choose|k: int|
                    0 <= k < before.len() && hands_over(
                        #[trigger] before[k],
                        recorded_under(stores, units[i])->0,
                        units[i],
                    );
                assert(now[k] == before[k]);
            } else {
                assert(hands_over(now[before.len() as int], recorded_under(stores, units[i])->0, units[i]));
            }
        }
        assert forall|k: int| 0 <= k < now.len() implies hands_over_any(stores, units, n, #[trigger] now[k]) by {
            if k < before.len() {
                assert(now[k] == before[k]);
                let i = choose|i: int|
                    0 <= i < n - 1 && recorded_under(stores, #[trigger] units[i]) is Some && hands_over(
                        before[k],
                        recorded_under(stores, units[i])->0,
                        units[i],
                    );
                assert(recorded_under(stores, units[i]) is Some);
            } else {
                assert(recorded_under(stores, units[n - 1]) is Some);
            }
        }
    }
}

/// What may not be taken as gone is inside just the directories that were not
/// read to the end.
pub proof fn law_unread_directories_are_set_aside(units: Seq<UnitModel>, n: int, path: PathModel)
    requires
        0 <= n <= units.len(),
    ensures
        has_path(unread(units, n), path) <==> exists|i: int|
            0 <= i < n && same_path((#[trigger] units[i]).path, path) && units[i].is_dir && !units[i].coverage.complete,
    decreases n,
{
    if n > 0 {
        law_unread_directories_are_set_aside(units, n - 1, path);
        let before = unread(units, n - 1);
        let now = unread(units, n);
        if has_path(before, path) {
            let k = choose|k: int| 0 <= k < before.len() && same_path(#[trigger] before[k], path);
            assert(now[k] == before[k]);
        }
        if has_path(now, path) {
            let k = choose|k: int| 0 <= k < now.len() && same_path(#[trigger] now[k], path);
            if k < before.len() {
                assert(same_path(before[k], path));
            } else {
                assert(same_path(units[n - 1].path, path));
            }
        }
        let u = units[n - 1];
        if same_path(u.path, path) && u.is_dir && !u.coverage.complete {
            assert(same_path(now[before.len() as int], path));
        }
    }
}

/// Whether annotation `k` is the first under a key.
pub open spec fn is_first_under(list: Seq<AnnotationModel>, key: Seq<char>, k: int) -> bool {
    &&& 0 <= k < list.len()
    &&& list[k].key == key
    &&& forall|j: int| 0 <= j < k ==> (#[trigger] list[j]).key != key
}

proof fn lemma_annotation(list: Seq<AnnotationModel>, key: Seq<char>, i: int, k: int)
    requires
        0 <= i <= k,
        is_first_under(list, key, k),
    ensures
        annotation_from(list, key, i) == Some((list[k].growth_bytes, list[k].regrowth_count)),
    decreases k - i,
{
    if i < k {
        assert(list[i].key != key);
        lemma_annotation(list, key, i + 1, k);
    }
}

proof fn lemma_no_annotation(list: Seq<AnnotationModel>, key: Seq<char>, i: int)
    requires
        0 <= i,
        forall|j: int| 0 <= j < list.len() ==> (#[trigger] list[j]).key != key,
    ensures
        annotation_from(list, key, i) is None,
    decreases list.len() - i,
{
    if i < list.len() {
        lemma_no_annotation(list, key, i + 1);
    }
}

/// What history says is told of the unit it is of: the first that stands under
/// the key the unit is handed over under, and nothing where none does or where
/// the unit is in no store.
pub proof fn law_history_is_told_of_its_unit(
    stores: Seq<IdentifiedModel>,
    u: UnitModel,
    annotations: Seq<AnnotationModel>,
    k: int,
)
    ensures
        recorded_under(stores, u) is None ==> annotated_unit(stores, u, annotations) == u,
        recorded_under(stores, u) matches Some(s) ==> {
            let key = row_key(s.detector_id, unit_category(), s.device, path_text(u.path));
            &&& is_first_under(annotations, key, k) ==> annotated_unit(stores, u, annotations).growth_bytes
                == annotations[k].growth_bytes && annotated_unit(stores, u, annotations).regrowth_count
                == annotations[k].regrowth_count
            &&& (forall|j: int| 0 <= j < annotations.len() ==> (#[trigger] annotations[j]).key != key)
                ==> annotated_unit(stores, u, annotations) == u
        },
{
    reveal(UnitModel::history);
    if recorded_under(stores, u) is Some {
        let s = recorded_under(stores, u)->0;
        let key = row_key(s.detector_id, unit_category(), s.device, path_text(u.path));
        if is_first_under(annotations, key, k) {
            lemma_annotation(annotations, key, 0, k);
        }
        if forall|j: int| 0 <= j < annotations.len() ==> (#[trigger] annotations[j]).key != key {
            lemma_no_annotation(annotations, key, 0);
        }
    }
}

} // verus!
