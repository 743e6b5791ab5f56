//! History of the units inside stores, on their own keys.

use crate::artifact::{push_unit, units_view, Membership, NestedArtifact, UnitModel};
use crate::build_adapters::builder::NestedUnitBuilder;
use crate::growth::{
    annotation_from, annotations_view, external_row_key, find_annotation, observed_view, push_observed, row_key,
    Annotation, AnnotationModel, BUILD_STORE_CATEGORY_PREFIX, KeyFamily, ObservationOwnership, ObservedExternal,
    ObservedModel, OwnershipModel,
};
use crate::path::{copy_paths, inside, path_text, paths, push_path, same_path, within, FsPath, PathModel};
use crate::text::cat2;
use vstd::prelude::*;

verus! {

/// A store whose inside this pass identified.
#[derive(Debug, Clone, PartialEq, Eq)]
pub struct IdentifiedStore {
    pub detector_id: String,
    pub device: u64,
    pub path: FsPath,
}

pub struct IdentifiedModel {
    pub detector_id: Seq<char>,
    pub device: u64,
    pub path: PathModel,
}

impl View for IdentifiedStore {
    type V = IdentifiedModel;

    open spec fn view(&self) -> IdentifiedModel {
        IdentifiedModel { detector_id: self.detector_id@, device: self.device, path: self.path@ }
    }
}

pub open spec fn identified_view(s: Seq<IdentifiedStore>) -> Seq<IdentifiedModel> {
    Seq::new(s.len(), |i: int| s[i]@)
}

/// The innermost store a path lies in, of the first `n`; the last of several.
pub open spec fn store_of(stores: Seq<IdentifiedModel>, path: PathModel, n: int) -> Option<IdentifiedModel>
    decreases n,
{
    if n <= 0 {
        None
    } else {
        let s = stores[n - 1];
        match store_of(stores, path, n - 1) {
            Some(b) => if within(path, s.path) && s.path.len() >= b.path.len() {
                Some(s)
            } else {
                Some(b)
            },
            None => if within(path, s.path) {
                Some(s)
            } else {
                None
            },
        }
    }
}

/// The category of every unit inside a store. A unit's role plays no part.
pub open spec fn unit_category() -> Seq<char> {
    BUILD_STORE_CATEGORY_PREFIX@ + "unit"@
}

/// The key of a unit inside a store.
pub open spec fn unit_key(store: IdentifiedModel, u: UnitModel) -> Seq<char> {
    row_key(store.detector_id, unit_category(), store.device, path_text(u.path))
}

/// The store a unit is recorded under: the innermost it lies in, unless it is
/// that store itself, whose row is the location's own.
pub open spec fn recorded_under(stores: Seq<IdentifiedModel>, u: UnitModel) -> Option<IdentifiedModel> {
    match store_of(stores, u.path, stores.len() as int) {
        Some(s) => if same_path(u.path, s.path) {
            None
        } else {
            Some(s)
        },
        None => None,
    }
}

/// The key each unit is recorded under.
pub open spec fn unit_row_key(stores: Seq<IdentifiedModel>, u: UnitModel) -> Option<Seq<char>> {
    match recorded_under(stores, u) {
        Some(s) => Some(unit_key(s, u)),
        None => None,
    }
}

pub open spec fn unit_row(store: IdentifiedModel, u: UnitModel) -> ObservedModel {
    ObservedModel {
        key: unit_key(store, u),
        detector_id: store.detector_id,
        category: unit_category(),
        device: store.device,
        path: path_text(u.path),
        bytes: u.bytes,
        hardlinked: u.membership == Membership::SharedHardlink,
    }
}

/// What the first `n` units hand to history.
pub open spec fn unit_rows(stores: Seq<IdentifiedModel>, units: Seq<UnitModel>, n: int) -> Seq<ObservedModel>
    decreases n,
{
    if n <= 0 {
        Seq::empty()
    } else {
        match recorded_under(stores, units[n - 1]) {
            Some(s) => unit_rows(stores, units, n - 1).push(unit_row(s, units[n - 1])),
            None => unit_rows(stores, units, n - 1),
        }
    }
}

/// The directories among the first `n` units that were not read to the end.
/// Inside one, a missing child is not a child that is gone.
pub open spec fn unread(units: Seq<UnitModel>, n: int) -> Seq<PathModel>
    decreases n,
{
    if n <= 0 {
        Seq::empty()
    } else if units[n - 1].is_dir && !units[n - 1].coverage.complete {
        unread(units, n - 1).push(units[n - 1].path)
    } else {
        unread(units, n - 1)
    }
}

pub open spec fn store_paths(stores: Seq<IdentifiedModel>) -> Seq<PathModel> {
    Seq::new(stores.len(), |i: int| stores[i].path)
}

/// What a pass may record the disappearance of: units inside the stores it
/// identified, outside what it could not read and what is out of scope.
pub open spec fn ownership_of(
    stores: Seq<IdentifiedModel>,
    units: Seq<UnitModel>,
    out_of_scope: Seq<PathModel>,
) -> OwnershipModel {
    OwnershipModel {
        family: KeyFamily::BuildStore,
        roots: store_paths(stores),
        excluded: out_of_scope + unread(units, units.len() as int),
    }
}

pub open spec fn annotated_unit(
    stores: Seq<IdentifiedModel>,
    u: UnitModel,
    annotations: Seq<AnnotationModel>,
) -> UnitModel {
    match unit_row_key(stores, u) {
        Some(key) => match annotation_from(annotations, key, 0) {
            Some(a) => u.history(a.0, a.1),
            None => u,
        },
        None => u,
    }
}

/// Units with what history says of them.
pub open spec fn annotated_units(
    stores: Seq<IdentifiedModel>,
    units: Seq<UnitModel>,
    annotations: Seq<AnnotationModel>,
) -> Seq<UnitModel> {
    Seq::new(units.len(), |i: int| annotated_unit(stores, units[i], annotations))
}

fn find_store<'a>(stores: &'a Vec<IdentifiedStore>, path: &FsPath) -> (r: Option<&'a IdentifiedStore>)
    ensures
        match r {
            Some(s) => store_of(identified_view(stores@), path@, stores@.len() as int) == Some(s@),
            None => store_of(identified_view(stores@), path@, stores@.len() as int) is None,
        },
{
    let ghost all = identified_view(stores@);
    let mut best: Option<&'a IdentifiedStore> = None;
    let mut i: usize = 0;
    while i < stores.len()
        invariant
            i <= stores@.len(),
            all == identified_view(stores@),
            match best {
                Some(s) => store_of(all, path@, i as int) == Some(s@),
                None => store_of(all, path@, i as int) is None,
            },
        decreases stores@.len() - i,
    {
        let s = &stores[i];
        assert(all[i as int] == s@);
        if path.within(&s.path) {
            match best {
                Some(b) => {
                    if s.path.len() >= b.path.len() {
                        best = Some(s);
                    }
                },
                None => {
                    best = Some(s);
                },
            }
        }
        i += 1;
    }
    best
}

fn find_recorded<'a>(stores: &'a Vec<IdentifiedStore>, u: &NestedArtifact) -> (r: Option<&'a IdentifiedStore>)
    ensures
        match r {
            Some(s) => recorded_under(identified_view(stores@), u@) == Some(s@),
            None => recorded_under(identified_view(stores@), u@) is None,
        },
{
    assert(identified_view(stores@).len() == stores@.len());
    match find_store(stores, &u.path) {
        Some(s) => if u.path.same(&s.path) {
            None
        } else {
            Some(s)
        },
        None => None,
    }
}

fn make_category() -> (r: String)
    ensures
        r@ == unit_category(),
{
    cat2(BUILD_STORE_CATEGORY_PREFIX, "unit")
}

fn make_unit_key(store: &IdentifiedStore, u: &NestedArtifact) -> (r: String)
    ensures
        r@ == unit_key(store@, u@),
{
    let category = make_category();
    let path = u.path.text();
    external_row_key(store.detector_id.as_str(), category.as_str(), store.device, path.as_str())
}

/// What a pass hands to the history of units inside stores.
pub fn observed_units(stores: &Vec<IdentifiedStore>, units: &Vec<NestedArtifact>) -> (r: Vec<ObservedExternal>)
    ensures
        observed_view(r@) == unit_rows(identified_view(stores@), units_view(units@), units@.len() as int),
{
    let ghost all = units_view(units@);
    let ghost known = identified_view(stores@);
    let mut out: Vec<ObservedExternal> = Vec::new();
    let mut i: usize = 0;
    assert(observed_view(out@) =~= unit_rows(known, all, 0));
    while i < units.len()
        invariant
            i <= units@.len(),
            all == units_view(units@),
            known == identified_view(stores@),
            observed_view(out@) == unit_rows(known, all, i as int),
        decreases units@.len() - i,
    {
        let u = &units[i];
        assert(all[i as int] == u@);
        match find_recorded(stores, u) {
            Some(s) => {
                let o = ObservedExternal {
                    key: make_unit_key(s, u),
                    detector_id: s.detector_id.as_str().to_owned(),
                    category: make_category(),
                    device: s.device,
                    path: u.path.text(),
                    bytes: u.bytes,
                    hardlinked: u.membership == Membership::SharedHardlink,
                };
                push_observed(&mut out, o);
            },
            None => {},
        }
        i += 1;
    }
    out
}

/// Which disappearances a pass may record inside stores.
pub fn owned_units(
    stores: &Vec<IdentifiedStore>,
    units: &Vec<NestedArtifact>,
    out_of_scope: &Vec<FsPath>,
) -> (r: ObservationOwnership)
    ensures
        r@ == ownership_of(identified_view(stores@), units_view(units@), paths(out_of_scope@)),
{
    let ghost all = units_view(units@);
    let ghost start = paths(out_of_scope@);
    let mut excluded = copy_paths(out_of_scope);
    let mut i: usize = 0;
    assert(start + unread(all, 0) =~= start);
    while i < units.len()
        invariant
            i <= units@.len(),
            all == units_view(units@),
            paths(excluded@) == start + unread(all, i as int),
        decreases units@.len() - i,
    {
        let u = &units[i];
        assert(all[i as int] == u@);
        if u.is_dir && !u.coverage.complete {
            push_path(&mut excluded, u.path.copy());
        }
        i += 1;
        assert(paths(excluded@) =~= start + unread(all, i as int));
    }
    assert(all.len() == units@.len());
    let ghost known = identified_view(stores@);
    let mut roots: Vec<FsPath> = Vec::new();
    let mut k: usize = 0;
    assert(paths(roots@) =~= store_paths(known).take(0));
    while k < stores.len()
        invariant
            k <= stores@.len(),
            known == identified_view(stores@),
            paths(roots@) == store_paths(known).take(k as int),
        decreases stores@.len() - k,
    {
        assert(known[k as int] == stores@[k as int]@);
        push_path(&mut roots, stores[k].path.copy());
        k += 1;
        assert(paths(roots@) =~= store_paths(known).take(k as int));
    }
    assert(store_paths(known).take(k as int) =~= store_paths(known));
    ObservationOwnership { family: KeyFamily::BuildStore, roots, excluded }
}

/// Annotates the units inside stores with what history answered. With no
/// history to ask, units stay as they are.
pub fn record_history(
    stores: &Vec<IdentifiedStore>,
    units: &mut Vec<NestedArtifact>,
    annotations: Option<&Vec<Annotation>>,
)
    ensures
        units_view(final(units)@) == (match annotations {
            Some(list) => annotated_units(
                identified_view(stores@),
                units_view(old(units)@),
                annotations_view(list@),
            ),
            None => units_view(old(units)@),
        }),
{
    let list = match annotations {
        Some(list) => list,
        None => {
            return;
        },
    };
    let ghost all = units_view(units@);
    let ghost known = identified_view(stores@);
    let ghost notes = annotations_view(list@);
    let ghost want = annotated_units(known, all, notes);
    let mut out: Vec<NestedArtifact> = Vec::new();
    let mut i: usize = 0;
    assert(units_view(out@) =~= want.take(0));
    while i < units.len()
        invariant
            i <= units@.len(),
            all == units_view(units@),
            known == identified_view(stores@),
            notes == annotations_view(list@),
            want == annotated_units(known, all, notes),
            units_view(out@) == want.take(i as int),
        decreases units@.len() - i,
    {
        let u = &units[i];
        assert(all[i as int] == u@);
        let noted = match find_recorded(stores, u) {
            Some(s) => {
                let key = make_unit_key(s, u);
                find_annotation(list, key.as_str())
            },
            None => None,
        };
        let next = match noted {
            Some((growth, regrowth)) => NestedUnitBuilder::amend(u.copy()).history(growth, regrowth).build(),
            None => u.copy(),
        };
        push_unit(&mut out, next);
        i += 1;
        assert(units_view(out@) =~= want.take(i as int));
    }
    assert(want.take(i as int) =~= want);
    *units = out;
}

// ---------------------------------------------------------------------
// Laws
// ---------------------------------------------------------------------

/// Reclassifying a unit keeps the key its history is under.
pub proof fn law_reclassifying_keeps_the_key(store: IdentifiedModel, u: UnitModel, v: UnitModel)
    requires
        u.path == v.path,
    ensures
        unit_key(store, u) == unit_key(store, v),
{
}

/// History is annotation: it changes neither which units there are nor what
/// they hold.
pub proof fn law_history_keeps_units(
    stores: Seq<IdentifiedModel>,
    units: Seq<UnitModel>,
    annotations: Seq<AnnotationModel>,
    i: int,
)
    requires
        0 <= i < units.len(),
    ensures
        annotated_units(stores, units, annotations).len() == units.len(),
        annotated_units(stores, units, annotations)[i].same_identity(units[i]),
        annotated_units(stores, units, annotations)[i].bytes == units[i].bytes,
{
    reveal(UnitModel::history);
}

proof fn lemma_store_of(stores: Seq<IdentifiedModel>, path: PathModel, n: int)
    requires
        0 <= n <= stores.len(),
    ensures
        store_of(stores, path, n) matches Some(s) ==> within(path, s.path) && exists|k: int|
            0 <= k < n && #[trigger] stores[k] == s,
    decreases n,
{
    if n > 0 {
        lemma_store_of(stores, path, n - 1);
        if store_of(stores, path, n - 1) is Some && store_of(stores, path, n) == store_of(stores, path, n - 1) {
            let s = store_of(stores, path, n)->0;
            let k = choose|k: int| 0 <= k < n - 1 && #[trigger] stores[k] == s;
            assert(stores[k] == s);
        } else if store_of(stores, path, n) is Some {
            assert(stores[n - 1] == store_of(stores, path, n)->0);
        }
    }
}

/// A unit is recorded only inside a store this pass identified, and never as
/// the store itself.
pub proof fn law_only_identified_stores_are_recorded(stores: Seq<IdentifiedModel>, u: UnitModel)
    ensures
        recorded_under(stores, u) matches Some(s) ==> inside(u.path, s.path) && exists|k: int|
            0 <= k < stores.len() && #[trigger] stores[k] == s,
{
    lemma_store_of(stores, u.path, stores.len() as int);
}

} // verus!
