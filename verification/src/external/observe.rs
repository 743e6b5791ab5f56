//! An external observation: what the measurements of a pass make of its plan.

use super::plan::{
    authorized_candidates, cache_of, candidates_view, plan_input, plan_locations, planned, planned_view, Candidate,
    CandidateModel, Devices, EffectiveScope, Planned, PlannedModel,
};
use super::unit::{
    category_from_str, category_label, category_named, category_text, consumers_evidence, consumers_evidence_of,
    declared, externals_view, load_consumers, push_external, ExternalModel, ExternalUnit, Provenance, ProvenanceModel,
};
use crate::artifact::{push_unit, units_view, NestedArtifact, UnitModel};
use crate::build_adapters::builder::NestedUnitBuilder;
use crate::build_adapters::container::{
    containers_view, dirs_view, indexed, push_container, BuildContainer, ContainerModel, DirModel, FoldedDir,
    FoldedIndex,
};
use crate::build_adapters::context::{BuildCtx, CtxModel};
use crate::build_adapters::identify::{emitted, identify_all, one_per_path, projects_view, units_by_path};
use crate::build_adapters::registry::{Builtin, Registry as AdapterRegistry};
use crate::build_stores::folded::{do_totals_fit, folded, folded_dirs, rollups_view, totals_fit, DirRollup};
use crate::build_stores::history::{annotated_units, identified_view, record_history, IdentifiedModel, IdentifiedStore};
use crate::build_stores::tables::{
    cached_view, kept_after, save_units, scoped_view, stored_units_view, verified_at, CachedModel, CachedRows,
    StoredModel, StoredUnits,
};
use crate::detectors::{DetectorModel, Registry as DetectorRegistry};
use crate::evidence::{push_fact, Evidence};
use crate::facts::{CanonicalPaths, FactModel, FileFacts};
use crate::fs_events::{CoverageWindow, EventCoverage};
use crate::growth::{
    annotation_from, annotations_view, find_annotation, key_parts, observed_view, parse_external_key, push_observed,
    Annotation, AnnotationModel, KeyFamily, ObservationOwnership, ObservedExternal, ObservedModel, OwnershipModel,
};
use crate::locations::StorageCategory;
use crate::path::{copy_paths, path_of, path_text, paths, push_path, same_path, FsPath, PathModel};
use crate::text::{holds_text, push_text, same, texts};
use vstd::prelude::*;

verus! {

// ---------------------------------------------------------------------
// Measurements
// ---------------------------------------------------------------------

/// What measuring a location found of it.
#[derive(Debug, Clone, PartialEq, Eq)]
pub struct FoldedUnit {
    pub bytes: u64,
    pub mtime_max: u64,
    pub hardlinked: bool,
    /// Whether all of it was read; otherwise `bytes` is a lower bound.
    pub complete: bool,
    /// Whether stored rows stood in for reading it.
    pub reused: bool,
}

#[derive(Debug, Clone, PartialEq, Eq)]
pub enum UnitObservation {
    Absent,
    Unreadable,
    Unit(FoldedUnit),
}

/// One location's measurement.
#[derive(Debug, Clone)]
pub struct Measurement {
    pub observation: UnitObservation,
    /// A store's directories, when they were read this pass.
    pub dirs: Option<Vec<DirRollup>>,
    /// What its newest modification says of its activity.
    pub activity: Evidence,
}

impl Measurement {
    pub open spec fn unit(self) -> Option<FoldedUnit> {
        match self.observation {
            UnitObservation::Unit(u) => Some(u),
            _ => None,
        }
    }

    /// Whether the location was measured to the end.
    pub open spec fn whole(self) -> bool {
        self.unit() matches Some(u) && u.complete
    }

    /// Whether the location is there and was not measured to the end: its
    /// history is protected, for coverage shrank, not storage.
    pub open spec fn protected(self) -> bool {
        self.observation is Unreadable || (self.unit() matches Some(u) && !u.complete)
    }

    /// What was read of a location that was not measured to the end.
    pub open spec fn bound(self) -> Option<FoldedUnit> {
        match self.unit() {
            Some(u) => if u.complete {
                None
            } else {
                Some(u)
            },
            None => None,
        }
    }

    pub open spec fn reused(self) -> bool {
        self.unit() matches Some(u) && u.reused
    }

    pub open spec fn folded_at(self, path: PathModel) -> Seq<DirModel> {
        match self.dirs {
            Some(d) => folded(path, rollups_view(d@)),
            None => Seq::empty(),
        }
    }
}

pub open spec fn dirs_fit(m: Measurement) -> bool {
    m.dirs matches Some(d) ==> totals_fit(rollups_view(d@))
}

/// Whether the totals of every kept directory fit.
pub open spec fn measurements_fit(list: Seq<Measurement>) -> bool {
    forall|i: int| 0 <= i < list.len() ==> #[trigger] dirs_fit(list[i])
}

/// Tests whether the totals of every kept directory fit: what a pass asks of its
/// measurements.
pub fn do_measurements_fit(list: &Vec<Measurement>) -> (r: bool)
    ensures
        r == measurements_fit(list@),
{
    let mut i: usize = 0;
    while i < list.len()
        invariant
            i <= list@.len(),
            forall|k: int| 0 <= k < i ==> #[trigger] dirs_fit(list@[k]),
        decreases list@.len() - i,
    {
        match &list[i].dirs {
            Some(d) => {
                if !do_totals_fit(d) {
                    assert(!dirs_fit(list@[i as int]));
                    return false;
                }
            },
            None => {},
        }
        assert(dirs_fit(list@[i as int]));
        i += 1;
    }
    true
}

pub open spec fn measured_row(p: PlannedModel, m: Measurement) -> ObservedModel {
    ObservedModel {
        key: p.key,
        detector_id: p.candidate.detector_id,
        category: category_text(p.candidate.category),
        device: p.device,
        path: path_text(p.candidate.path),
        bytes: m.unit()->0.bytes,
        hardlinked: m.unit()->0.hardlinked,
    }
}

/// What the first `n` locations hand to history: those measured to the end.
pub open spec fn measured_rows(plan: Seq<PlannedModel>, list: Seq<Measurement>, n: int) -> Seq<ObservedModel>
    decreases n,
{
    if n <= 0 {
        Seq::empty()
    } else if list[n - 1].whole() {
        measured_rows(plan, list, n - 1).push(measured_row(plan[n - 1], list[n - 1]))
    } else {
        measured_rows(plan, list, n - 1)
    }
}

/// The paths of the locations measured to the end, among the first `n`.
pub open spec fn measured_paths(plan: Seq<PlannedModel>, list: Seq<Measurement>, n: int) -> Seq<PathModel>
    decreases n,
{
    if n <= 0 {
        Seq::empty()
    } else if list[n - 1].whole() {
        measured_paths(plan, list, n - 1).push(plan[n - 1].candidate.path)
    } else {
        measured_paths(plan, list, n - 1)
    }
}

/// The keys whose history is protected, among the first `n`.
pub open spec fn protected_keys(plan: Seq<PlannedModel>, list: Seq<Measurement>, n: int) -> Seq<Seq<char>>
    decreases n,
{
    if n <= 0 {
        Seq::empty()
    } else if list[n - 1].protected() {
        protected_keys(plan, list, n - 1).push(plan[n - 1].key)
    } else {
        protected_keys(plan, list, n - 1)
    }
}

/// The locations among the first `n` that stored rows stood in for, by the text
/// of their paths.
pub open spec fn reused_paths(plan: Seq<PlannedModel>, list: Seq<Measurement>, n: int) -> Seq<Seq<char>>
    decreases n,
{
    if n <= 0 {
        Seq::empty()
    } else if list[n - 1].reused() {
        reused_paths(plan, list, n - 1).push(path_text(plan[n - 1].candidate.path))
    } else {
        reused_paths(plan, list, n - 1)
    }
}

/// Which disappearances a pass may record: inside what it measured to the end,
/// outside what is out of scope.
pub open spec fn owned(plan: Seq<PlannedModel>, list: Seq<Measurement>, out_of_scope: Seq<PathModel>) -> OwnershipModel {
    OwnershipModel {
        family: KeyFamily::External,
        roots: measured_paths(plan, list, plan.len() as int),
        excluded: out_of_scope,
    }
}

/// What a pass hands to the history of locations.
pub struct MeasuredPass {
    pub observed: Vec<ObservedExternal>,
    pub protected_keys: Vec<String>,
    pub reused_paths: Vec<String>,
    pub ownership: ObservationOwnership,
}

/// What the measurements of a pass hand to history.
pub fn take_measurements(plan: &Vec<Planned>, list: &Vec<Measurement>, out_of_scope: &Vec<FsPath>) -> (r: MeasuredPass)
    requires
        list@.len() == plan@.len(),
    ensures
        observed_view(r.observed@) == measured_rows(planned_view(plan@), list@, plan@.len() as int),
        texts(r.protected_keys@) == protected_keys(planned_view(plan@), list@, plan@.len() as int),
        texts(r.reused_paths@) == reused_paths(planned_view(plan@), list@, plan@.len() as int),
        r.ownership@ == owned(planned_view(plan@), list@, paths(out_of_scope@)),
{
    let ghost all = planned_view(plan@);
    let mut observed: Vec<ObservedExternal> = Vec::new();
    let mut keys: Vec<String> = Vec::new();
    let mut reused: Vec<String> = Vec::new();
    let mut roots: Vec<FsPath> = Vec::new();
    let mut i: usize = 0;
    assert(observed_view(observed@) =~= measured_rows(all, list@, 0));
    assert(texts(keys@) =~= protected_keys(all, list@, 0));
    assert(texts(reused@) =~= reused_paths(all, list@, 0));
    assert(paths(roots@) =~= measured_paths(all, list@, 0));
    while i < plan.len()
        invariant
            i <= plan@.len(),
            list@.len() == plan@.len(),
            all == planned_view(plan@),
            observed_view(observed@) == measured_rows(all, list@, i as int),
            texts(keys@) == protected_keys(all, list@, i as int),
            texts(reused@) == reused_paths(all, list@, i as int),
            paths(roots@) == measured_paths(all, list@, i as int),
        decreases plan@.len() - i,
    {
        let p = &plan[i];
        assert(all[i as int] == p@);
        match &list[i].observation {
            UnitObservation::Absent => {},
            UnitObservation::Unreadable => {
                push_text(&mut keys, p.key.as_str());
            },
            UnitObservation::Unit(row) => {
                if row.reused {
                    let text = p.candidate.path.text();
                    push_text(&mut reused, text.as_str());
                }
                if row.complete {
                    let o = ObservedExternal {
                        key: p.key.as_str().to_owned(),
                        detector_id: p.candidate.detector_id.as_str().to_owned(),
                        category: category_label(p.candidate.category).to_owned(),
                        device: p.device,
                        path: p.candidate.path.text(),
                        bytes: row.bytes,
                        hardlinked: row.hardlinked,
                    };
                    assert(o@ == measured_row(all[i as int], list@[i as int]));
                    push_observed(&mut observed, o);
                    push_path(&mut roots, p.candidate.path.copy());
                } else {
                    push_text(&mut keys, p.key.as_str());
                }
            },
        }
        i += 1;
    }
    assert(all.len() == plan@.len());
    MeasuredPass {
        observed,
        protected_keys: keys,
        reused_paths: reused,
        ownership: ObservationOwnership {
            family: KeyFamily::External,
            roots,
            excluded: copy_paths(out_of_scope),
        },
    }
}

// ---------------------------------------------------------------------
// The insides of stores
// ---------------------------------------------------------------------

/// Whether location `i` is a store that was measured this pass.
pub open spec fn is_measured_store(p: PlannedModel, m: Measurement) -> bool {
    p.container is Some && m.unit() is Some
}

/// The stores measured this pass, among the first `n` locations.
pub open spec fn measured_stores(plan: Seq<PlannedModel>, list: Seq<Measurement>, n: int) -> Seq<ContainerModel>
    decreases n,
{
    if n <= 0 {
        Seq::empty()
    } else if is_measured_store(plan[n - 1], list[n - 1]) {
        measured_stores(plan, list, n - 1).push(plan[n - 1].container->0)
    } else {
        measured_stores(plan, list, n - 1)
    }
}

/// The scopes of the measured stores that were not read again.
pub open spec fn replayable(plan: Seq<PlannedModel>, list: Seq<Measurement>, n: int) -> Seq<Seq<char>>
    decreases n,
{
    if n <= 0 {
        Seq::empty()
    } else if is_measured_store(plan[n - 1], list[n - 1]) && list[n - 1].dirs is None {
        replayable(plan, list, n - 1).push(plan[n - 1].container->0.scope())
    } else {
        replayable(plan, list, n - 1)
    }
}

/// The directories that stores were read as, among the first `n` locations.
pub open spec fn store_dirs(plan: Seq<PlannedModel>, list: Seq<Measurement>, n: int) -> Seq<DirModel>
    decreases n,
{
    if n <= 0 {
        Seq::empty()
    } else if plan[n - 1].container is Some {
        store_dirs(plan, list, n - 1) + list[n - 1].folded_at(plan[n - 1].candidate.path)
    } else {
        store_dirs(plan, list, n - 1)
    }
}

pub open spec fn identified_stores(plan: Seq<PlannedModel>, list: Seq<Measurement>, n: int) -> Seq<IdentifiedModel>
    decreases n,
{
    if n <= 0 {
        Seq::empty()
    } else if is_measured_store(plan[n - 1], list[n - 1]) {
        identified_stores(plan, list, n - 1).push(
            IdentifiedModel {
                detector_id: plan[n - 1].candidate.detector_id,
                device: plan[n - 1].device,
                path: plan[n - 1].candidate.path,
            },
        )
    } else {
        identified_stores(plan, list, n - 1)
    }
}

/// What is stored of the containers that may be replayed.
pub open spec fn replayed_from(previous: Seq<StoredModel>, scopes: Seq<Seq<char>>, n: int) -> Seq<StoredModel>
    decreases n,
{
    if n <= 0 {
        Seq::empty()
    } else if scopes.contains(previous[n - 1].scope) {
        replayed_from(previous, scopes, n - 1).push(previous[n - 1])
    } else {
        replayed_from(previous, scopes, n - 1)
    }
}

/// What the adapters identify stores by: the directories read this pass, and
/// stored units of stores that were not read again.
pub open spec fn store_ctx(
    plan: Seq<PlannedModel>,
    list: Seq<Measurement>,
    previous: Seq<StoredModel>,
    coverage: CoverageWindow,
    observed_at: u64,
    facts: Seq<FactModel>,
) -> CtxModel {
    let n = plan.len() as int;
    CtxModel {
        observed_at,
        rows: indexed(store_dirs(plan, list, n)),
        facts,
        coverage,
        cache: cache_of(replayed_from(previous, replayable(plan, list, n), previous.len() as int)),
        daemon: None,
    }
}

/// The units inside the stores of a pass.
pub open spec fn insides(adapters: Seq<Builtin>, plan: Seq<PlannedModel>, list: Seq<Measurement>, ctx: CtxModel) -> Seq<
    UnitModel,
> {
    one_per_path(
        units_by_path(
            emitted(
                adapters,
                Seq::empty(),
                Seq::empty(),
                measured_stores(plan, list, plan.len() as int),
                ctx,
            ),
        ),
    )
}

fn is_measured(p: &Planned, m: &Measurement) -> (r: bool)
    ensures
        r == is_measured_store(p@, *m),
{
    p.container.is_some() && matches!(m.observation, UnitObservation::Unit(_))
}

fn take_stores(plan: &Vec<Planned>, list: &Vec<Measurement>) -> (r: (Vec<BuildContainer>, Vec<String>, Vec<FoldedDir>))
    requires
        list@.len() == plan@.len(),
        measurements_fit(list@),
    ensures
        containers_view(r.0@) == measured_stores(planned_view(plan@), list@, plan@.len() as int),
        texts(r.1@) == replayable(planned_view(plan@), list@, plan@.len() as int),
        dirs_view(r.2@) == store_dirs(planned_view(plan@), list@, plan@.len() as int),
{
    let ghost all = planned_view(plan@);
    let mut containers: Vec<BuildContainer> = Vec::new();
    let mut scopes: Vec<String> = Vec::new();
    let mut dirs: Vec<FoldedDir> = Vec::new();
    let mut i: usize = 0;
    assert(containers_view(containers@) =~= measured_stores(all, list@, 0));
    assert(texts(scopes@) =~= replayable(all, list@, 0));
    assert(dirs_view(dirs@) =~= store_dirs(all, list@, 0));
    while i < plan.len()
        invariant
            i <= plan@.len(),
            list@.len() == plan@.len(),
            measurements_fit(list@),
            all == planned_view(plan@),
            containers_view(containers@) == measured_stores(all, list@, i as int),
            texts(scopes@) == replayable(all, list@, i as int),
            dirs_view(dirs@) == store_dirs(all, list@, i as int),
        decreases plan@.len() - i,
    {
        let p = &plan[i];
        let m = &list[i];
        assert(all[i as int] == p@);
        match &p.container {
            Some(c) => {
                if is_measured(p, m) {
                    push_container(&mut containers, c.copy());
                    if m.dirs.is_none() {
                        let scope = c.scope();
                        push_text(&mut scopes, scope.as_str());
                    }
                }
                match &m.dirs {
                    Some(d) => {
                        assert(dirs_fit(list@[i as int]));
                        let mut more = folded_dirs(&p.candidate.path, copy_rollups(d));
                        let ghost before = dirs@;
                        let ghost added = more@;
                        dirs.append(&mut more);
                        assert(dirs_view(dirs@) =~= dirs_view(before) + dirs_view(added));
                    },
                    None => {
                        assert(dirs_view(dirs@) + Seq::<DirModel>::empty() =~= dirs_view(dirs@));
                    },
                }
            },
            None => {},
        }
        i += 1;
    }
    (containers, scopes, dirs)
}

fn copy_rollups(v: &Vec<DirRollup>) -> (r: Vec<DirRollup>)
    ensures
        rollups_view(r@) == rollups_view(v@),
{
    let ghost all = rollups_view(v@);
    let mut out: Vec<DirRollup> = Vec::new();
    let mut i: usize = 0;
    assert(rollups_view(out@) =~= all.take(0));
    while i < v.len()
        invariant
            i <= v@.len(),
            all == rollups_view(v@),
            rollups_view(out@) == all.take(i as int),
        decreases v@.len() - i,
    {
        let ghost prior = out@;
        let d = DirRollup {
            rel_path: v[i].rel_path.as_str().to_owned(),
            parent_rel_path: crate::text::copy_opt(&v[i].parent_rel_path),
            own_allocated: v[i].own_allocated,
            allocated_total: v[i].allocated_total,
            mod_time_min: v[i].mod_time_min,
            complete: v[i].complete,
        };
        let ghost dm = d@;
        out.push(d);
        i += 1;
        assert(rollups_view(out@) =~= rollups_view(prior).push(dm));
        assert(rollups_view(out@) =~= all.take(i as int));
    }
    assert(all.take(i as int) =~= all);
    out
}

fn copy_stored(s: &StoredUnits) -> (r: StoredUnits)
    ensures
        r@ == s@,
{
    StoredUnits {
        scope: s.scope.as_str().to_owned(),
        observed_at: s.observed_at,
        units: crate::artifact::copy_units(&s.units),
    }
}

fn push_stored(v: &mut Vec<StoredUnits>, s: StoredUnits)
    ensures
        stored_units_view(final(v)@) == stored_units_view(old(v)@).push(s@),
{
    let ghost m = s@;
    v.push(s);
    assert(stored_units_view(v@) =~= stored_units_view(old(v)@).push(m));
}

fn keep_replayable(previous: &Vec<StoredUnits>, scopes: &Vec<String>) -> (r: Vec<StoredUnits>)
    ensures
        stored_units_view(r@) == replayed_from(stored_units_view(previous@), texts(scopes@), previous@.len() as int),
{
    let ghost all = stored_units_view(previous@);
    let mut out: Vec<StoredUnits> = Vec::new();
    let mut i: usize = 0;
    assert(stored_units_view(out@) =~= replayed_from(all, texts(scopes@), 0));
    while i < previous.len()
        invariant
            i <= previous@.len(),
            all == stored_units_view(previous@),
            stored_units_view(out@) == replayed_from(all, texts(scopes@), i as int),
        decreases previous@.len() - i,
    {
        assert(all[i as int] == previous@[i as int]@);
        if holds_text(scopes, previous[i].scope.as_str()) {
            push_stored(&mut out, copy_stored(&previous[i]));
        }
        i += 1;
    }
    out
}

/// The units inside the stores of a pass. A store that was not read again
/// replays its stored units; one that was read is identified from what was
/// read.
pub fn identify_insides(
    adapters: &AdapterRegistry,
    plan: &Vec<Planned>,
    list: &Vec<Measurement>,
    previous: &Vec<StoredUnits>,
    coverage: &EventCoverage,
    observed_at: u64,
    facts: &FileFacts,
) -> (r: Vec<NestedArtifact>)
    requires
        list@.len() == plan@.len(),
        measurements_fit(list@),
    ensures
        units_view(r@) == insides(
            adapters@,
            planned_view(plan@),
            list@,
            store_ctx(
                planned_view(plan@),
                list@,
                stored_units_view(previous@),
                coverage@,
                observed_at,
                facts@,
            ),
        ),
{
    let (containers, scopes, dirs) = take_stores(plan, list);
    let kept = keep_replayable(previous, &scopes);
    assert(stored_units_view(previous@).len() == previous@.len());
    assert(planned_view(plan@).len() == plan@.len());
    let cache = super::plan::cache_from(&kept);
    let index = FoldedIndex::from_dirs(dirs);
    let mut ctx = BuildCtx::new(observed_at, &index, coverage, &cache).with_facts(facts);
    let projects: Vec<(FsPath, Vec<FsPath>)> = Vec::new();
    let markers = FileFacts::none();
    assert(projects_view(projects@) =~= Seq::<(PathModel, Seq<PathModel>)>::empty());
    identify_all(adapters, &projects, &markers, &containers, &mut ctx)
}

/// The stores whose insides a pass identified, for their history.
pub fn identified(plan: &Vec<Planned>, list: &Vec<Measurement>) -> (r: Vec<IdentifiedStore>)
    requires
        list@.len() == plan@.len(),
    ensures
        identified_view(r@) == identified_stores(planned_view(plan@), list@, plan@.len() as int),
{
    let ghost all = planned_view(plan@);
    let mut out: Vec<IdentifiedStore> = Vec::new();
    let mut i: usize = 0;
    assert(identified_view(out@) =~= identified_stores(all, list@, 0));
    while i < plan.len()
        invariant
            i <= plan@.len(),
            list@.len() == plan@.len(),
            all == planned_view(plan@),
            identified_view(out@) == identified_stores(all, list@, i as int),
        decreases plan@.len() - i,
    {
        let p = &plan[i];
        assert(all[i as int] == p@);
        if is_measured(p, &list[i]) {
            let s = IdentifiedStore {
                detector_id: p.candidate.detector_id.as_str().to_owned(),
                device: p.device,
                path: p.candidate.path.copy(),
            };
            let ghost sm = s@;
            let ghost prior = out@;
            out.push(s);
            assert(identified_view(out@) =~= identified_view(prior).push(sm));
        }
        i += 1;
    }
    out
}

// ---------------------------------------------------------------------
// What is kept for the next pass
// ---------------------------------------------------------------------

/// The units of one container.
pub open spec fn units_of(units: Seq<UnitModel>, scope: Seq<char>, n: int) -> Seq<UnitModel>
    decreases n,
{
    if n <= 0 {
        Seq::empty()
    } else if units[n - 1].container_id == Some(scope) {
        units_of(units, scope, n - 1).push(units[n - 1])
    } else {
        units_of(units, scope, n - 1)
    }
}

pub open spec fn scope_listed(list: Seq<(Seq<char>, Seq<UnitModel>)>, scope: Seq<char>) -> bool {
    exists|k: int| 0 <= k < list.len() && (#[trigger] list[k]).0 == scope
}

/// The first `n` measured stores with their units, each once. A store in which
/// nothing was identified is kept too.
pub open spec fn this_pass(stores: Seq<ContainerModel>, units: Seq<UnitModel>, n: int) -> Seq<
    (Seq<char>, Seq<UnitModel>),
>
    decreases n,
{
    if n <= 0 {
        Seq::empty()
    } else {
        let before = this_pass(stores, units, n - 1);
        let scope = stores[n - 1].scope();
        if scope_listed(before, scope) {
            before
        } else {
            before.push((scope, units_of(units, scope, units.len() as int)))
        }
    }
}

/// What a pass keeps for the next one; nothing where it measured no store.
pub open spec fn kept_units(
    plan: Seq<PlannedModel>,
    list: Seq<Measurement>,
    units: Seq<UnitModel>,
    previous: Seq<StoredModel>,
    observed_at: u64,
) -> Option<Seq<CachedModel>> {
    let stores = measured_stores(plan, list, plan.len() as int);
    if stores.len() == 0 {
        None
    } else {
        Some(kept_after(verified_at(this_pass(stores, units, stores.len() as int), observed_at), previous))
    }
}

fn units_in_scope(units: &Vec<NestedArtifact>, scope: &str) -> (r: Vec<NestedArtifact>)
    ensures
        units_view(r@) == units_of(units_view(units@), scope@, units@.len() as int),
{
    let ghost all = units_view(units@);
    let mut out: Vec<NestedArtifact> = Vec::new();
    let mut i: usize = 0;
    assert(units_view(out@) =~= units_of(all, scope@, 0));
    while i < units.len()
        invariant
            i <= units@.len(),
            all == units_view(units@),
            units_view(out@) == units_of(all, scope@, i as int),
        decreases units@.len() - i,
    {
        assert(all[i as int] == units@[i as int]@);
        if crate::text::opt_is(&units[i].container_id, scope) {
            push_unit(&mut out, units[i].copy());
        }
        i += 1;
    }
    out
}

fn has_scope(list: &Vec<(String, Vec<NestedArtifact>)>, scope: &str) -> (r: bool)
    ensures
        r == scope_listed(scoped_view(list@), scope@),
{
    let ghost all = scoped_view(list@);
    let mut i: usize = 0;
    while i < list.len()
        invariant
            i <= list@.len(),
            all == scoped_view(list@),
            forall|k: int| 0 <= k < i ==> (#[trigger] all[k]).0 != scope@,
        decreases list@.len() - i,
    {
        assert(all[i as int].0 == list@[i as int].0@);
        if same(list[i].0.as_str(), scope) {
            return true;
        }
        i += 1;
    }
    false
}

/// What a pass keeps of its stores for the next one.
pub fn keep_units(
    plan: &Vec<Planned>,
    list: &Vec<Measurement>,
    units: &Vec<NestedArtifact>,
    previous: &Vec<StoredUnits>,
    observed_at: u64,
) -> (r: Option<Vec<CachedRows>>)
    requires
        list@.len() == plan@.len(),
        measurements_fit(list@),
    ensures
        match r {
            Some(rows) => kept_units(
                planned_view(plan@),
                list@,
                units_view(units@),
                stored_units_view(previous@),
                observed_at,
            ) == Some(cached_view(rows@)),
            None => kept_units(
                planned_view(plan@),
                list@,
                units_view(units@),
                stored_units_view(previous@),
                observed_at,
            ) is None,
        },
{
    let (containers, _, _) = take_stores(plan, list);
    assert(planned_view(plan@).len() == plan@.len());
    assert(containers_view(containers@).len() == containers@.len());
    if containers.len() == 0 {
        return None;
    }
    let ghost stores = containers_view(containers@);
    let ghost all = units_view(units@);
    assert(all.len() == units@.len());
    let mut now: Vec<(String, Vec<NestedArtifact>)> = Vec::new();
    let mut i: usize = 0;
    assert(scoped_view(now@) =~= this_pass(stores, all, 0));
    while i < containers.len()
        invariant
            i <= containers@.len(),
            stores == containers_view(containers@),
            all == units_view(units@),
            all.len() == units@.len(),
            scoped_view(now@) == this_pass(stores, all, i as int),
        decreases containers@.len() - i,
    {
        assert(stores[i as int] == containers@[i as int]@);
        let scope = containers[i].scope();
        if !has_scope(&now, scope.as_str()) {
            let mine = units_in_scope(units, scope.as_str());
            let ghost m = (scope@, units_view(mine@));
            let ghost prior = now@;
            now.push((scope, mine));
            assert(scoped_view(now@) =~= scoped_view(prior).push(m));
        }
        i += 1;
    }
    Some(save_units(&now, previous, observed_at))
}

// ---------------------------------------------------------------------
// The units of a pass
// ---------------------------------------------------------------------

/// What a store last knew of a key: its bytes and how often it came back.
#[derive(Debug, Clone, PartialEq, Eq)]
pub struct LastKnown {
    pub key: String,
    pub bytes: u64,
    pub regrowth_count: u32,
}

pub struct LastModel {
    pub key: Seq<char>,
    pub bytes: u64,
    pub regrowth_count: u32,
}

impl View for LastKnown {
    type V = LastModel;

    open spec fn view(&self) -> LastModel {
        LastModel { key: self.key@, bytes: self.bytes, regrowth_count: self.regrowth_count }
    }
}

pub open spec fn lasts_view(s: Seq<LastKnown>) -> Seq<LastModel> {
    Seq::new(s.len(), |i: int| s[i]@)
}

pub open spec fn last_from(list: Seq<LastModel>, key: Seq<char>, i: int) -> Option<(u64, u32)>
    decreases list.len() - i,
{
    if i < 0 || i >= list.len() {
        None
    } else if list[i].key == key {
        Some((list[i].bytes, list[i].regrowth_count))
    } else {
        last_from(list, key, i + 1)
    }
}

/// What a store answered a pass: the history of its rows, the declared
/// consumers, and what it last knew.
#[derive(Debug)]
pub struct StoreAnswers {
    pub annotations: Result<Vec<Annotation>, StoreFailure>,
    pub consumers: Result<Vec<CachedRows>, StoreFailure>,
    pub unit_annotations: Result<Vec<Annotation>, StoreFailure>,
    pub last_known: Vec<LastKnown>,
}

/// A store that could not be read or written.
#[derive(Debug, Clone, PartialEq, Eq)]
pub struct StoreFailure {
    pub message: String,
}

/// What a pass knows when it makes its units.
pub struct AnswersModel {
    pub annotations: Seq<AnnotationModel>,
    pub consumers: Seq<CachedModel>,
    pub last_known: Seq<LastModel>,
    pub observed_at: u64,
    pub now: u64,
}

/// The unit of a location that was measured to the end.
pub open spec fn measured_unit(p: PlannedModel, m: Measurement, a: AnswersModel) -> ExternalModel {
    let history = match annotation_from(a.annotations, p.key, 0) {
        Some(h) => h,
        None => (None, 0u32),
    };
    let consumers = declared(a.consumers, p.key);
    ExternalModel {
        detector_id: p.candidate.detector_id,
        detector_name: p.candidate.detector_name,
        category: p.candidate.category,
        provenance: p.candidate.provenance,
        path: p.candidate.path,
        bytes: m.unit()->0.bytes,
        mtime_max: m.unit()->0.mtime_max,
        hardlinked: m.unit()->0.hardlinked,
        growth_bytes: history.0,
        regrowth_count: history.1,
        observed_at: a.observed_at,
        consumers,
        note: None,
        evidence: consumers_evidence_of(consumers, a.now).push(m.activity@),
    }
}

/// What is shown of a location that was not measured to the end: the last whole
/// measurement, or what was read this pass where that is more or nothing else
/// is known.
pub open spec fn shown(last: Option<(u64, u32)>, bound: Option<FoldedUnit>) -> (u64, u64, bool, Seq<char>) {
    match (last, bound) {
        (Some(l), Some(b)) => if b.bytes > l.0 {
            (
                b.bytes,
                b.mtime_max,
                b.hardlinked,
                "coverage incomplete: some directories could not be read; bytes are a lower bound"@,
            )
        } else {
            (
                l.0,
                0,
                true,
                "coverage incomplete this pass: could not be read; last complete measurement shown"@,
            )
        },
        (Some(l), None) => (
            l.0,
            0,
            true,
            "coverage incomplete this pass: could not be read; last complete measurement shown"@,
        ),
        (None, Some(b)) => (
            b.bytes,
            b.mtime_max,
            b.hardlinked,
            "coverage incomplete: some directories could not be read; bytes are a lower bound"@,
        ),
        (None, None) => (0, 0, true, "coverage incomplete this pass: could not be read"@),
    }
}

/// The name of a detector: that of its last candidate, or its id.
pub open spec fn name_of_detector(list: Seq<CandidateModel>, id: Seq<char>, n: int) -> Seq<char>
    decreases n,
{
    if n <= 0 {
        id
    } else if list[n - 1].detector_id == id {
        list[n - 1].detector_name
    } else {
        name_of_detector(list, id, n - 1)
    }
}

/// The unit of a location that is there and was not measured to the end. It is
/// never dropped in silence.
pub open spec fn protected_unit(
    candidates: Seq<CandidateModel>,
    p: PlannedModel,
    m: Measurement,
    a: AnswersModel,
) -> Option<ExternalModel> {
    match key_parts(p.key) {
        Some((detector_id, category, _, path)) => {
            let last = last_from(a.last_known, p.key, 0);
            let show = shown(last, m.bound());
            let consumers = declared(a.consumers, p.key);
            Some(
                ExternalModel {
                    detector_id,
                    detector_name: name_of_detector(candidates, detector_id, candidates.len() as int),
                    category: match category_named(category) {
                        Some(c) => c,
                        None => StorageCategory::Unclassified,
                    },
                    provenance: ProvenanceModel::BuiltinConvention,
                    path: path_of(path),
                    bytes: show.0,
                    mtime_max: show.1,
                    hardlinked: show.2,
                    growth_bytes: None,
                    regrowth_count: match last {
                        Some(l) => l.1,
                        None => 0,
                    },
                    observed_at: a.observed_at,
                    consumers,
                    note: Some(show.3),
                    evidence: consumers_evidence_of(consumers, a.now),
                },
            )
        },
        None => None,
    }
}

pub open spec fn measured_units(plan: Seq<PlannedModel>, list: Seq<Measurement>, a: AnswersModel, n: int) -> Seq<
    ExternalModel,
>
    decreases n,
{
    if n <= 0 {
        Seq::empty()
    } else if list[n - 1].whole() {
        measured_units(plan, list, a, n - 1).push(measured_unit(plan[n - 1], list[n - 1], a))
    } else {
        measured_units(plan, list, a, n - 1)
    }
}

pub open spec fn protected_units(
    candidates: Seq<CandidateModel>,
    plan: Seq<PlannedModel>,
    list: Seq<Measurement>,
    a: AnswersModel,
    n: int,
) -> Seq<ExternalModel>
    decreases n,
{
    if n <= 0 {
        Seq::empty()
    } else if list[n - 1].protected() {
        match protected_unit(candidates, plan[n - 1], list[n - 1], a) {
            Some(u) => protected_units(candidates, plan, list, a, n - 1).push(u),
            None => protected_units(candidates, plan, list, a, n - 1),
        }
    } else {
        protected_units(candidates, plan, list, a, n - 1)
    }
}

/// The units of a pass: what was measured to the end, then what is protected.
pub open spec fn external_units(
    candidates: Seq<CandidateModel>,
    plan: Seq<PlannedModel>,
    list: Seq<Measurement>,
    a: AnswersModel,
) -> Seq<ExternalModel> {
    measured_units(plan, list, a, plan.len() as int) + protected_units(
        candidates,
        plan,
        list,
        a,
        plan.len() as int,
    )
}

/// The first unit at a path, from place `i` on.
pub open spec fn unit_at(units: Seq<ExternalModel>, path: PathModel, i: int) -> Option<ExternalModel>
    decreases units.len() - i,
{
    if i < 0 || i >= units.len() {
        None
    } else if same_path(units[i].path, path) {
        Some(units[i])
    } else {
        unit_at(units, path, i + 1)
    }
}

/// Units inside stores, a store's own row with the history of its location:
/// the same bytes, never a second key.
pub open spec fn with_locations(inner: Seq<UnitModel>, units: Seq<ExternalModel>) -> Seq<UnitModel> {
    Seq::new(
        inner.len(),
        |i: int|
            match unit_at(units, inner[i].path, 0) {
                Some(e) => inner[i].history(e.growth_bytes, e.regrowth_count),
                None => inner[i],
            },
    )
}

struct Answers<'a> {
    annotations: &'a Vec<Annotation>,
    consumers: &'a Vec<CachedRows>,
    last_known: &'a Vec<LastKnown>,
    observed_at: u64,
    now: u64,
}

impl<'a> View for Answers<'a> {
    type V = AnswersModel;

    closed spec fn view(&self) -> AnswersModel {
        AnswersModel {
            annotations: annotations_view(self.annotations@),
            consumers: cached_view(self.consumers@),
            last_known: lasts_view(self.last_known@),
            observed_at: self.observed_at,
            now: self.now,
        }
    }
}

fn find_last(list: &Vec<LastKnown>, key: &str) -> (r: Option<(u64, u32)>)
    ensures
        r == last_from(lasts_view(list@), key@, 0),
{
    let ghost all = lasts_view(list@);
    let mut i: usize = 0;
    while i < list.len()
        invariant
            i <= list@.len(),
            all == lasts_view(list@),
            last_from(all, key@, 0) == last_from(all, key@, i as int),
        decreases list@.len() - i,
    {
        assert(all[i as int] == list@[i as int]@);
        if same(list[i].key.as_str(), key) {
            return Some((list[i].bytes, list[i].regrowth_count));
        }
        i += 1;
    }
    None
}

fn find_name(list: &Vec<Candidate>, id: &str) -> (r: String)
    ensures
        r@ == name_of_detector(candidates_view(list@), id@, list@.len() as int),
{
    let ghost all = candidates_view(list@);
    let mut n: usize = list.len();
    while n > 0
        invariant
            n <= list@.len(),
            all == candidates_view(list@),
            name_of_detector(all, id@, list@.len() as int) == name_of_detector(all, id@, n as int),
        decreases n,
    {
        assert(all[n - 1] == list@[n - 1]@);
        if same(list[n - 1].detector_id.as_str(), id) {
            return list[n - 1].detector_name.as_str().to_owned();
        }
        n -= 1;
    }
    id.to_owned()
}

fn make_measured(p: &Planned, m: &Measurement, row: &FoldedUnit, a: &Answers) -> (r: ExternalUnit)
    requires
        m.unit() == Some(*row),
    ensures
        r@ == measured_unit(p@, *m, a@),
{
    let (growth_bytes, regrowth_count): (Option<i64>, u32) = match find_annotation(a.annotations, p.key.as_str()) {
        Some(h) => h,
        None => (None, 0),
    };
    let consumers = load_consumers(a.consumers, p.key.as_str());
    let mut evidence = consumers_evidence(&consumers, a.now);
    push_fact(&mut evidence, m.activity.copy());
    ExternalUnit {
        detector_id: p.candidate.detector_id.as_str().to_owned(),
        detector_name: p.candidate.detector_name.as_str().to_owned(),
        category: p.candidate.category,
        provenance: p.candidate.provenance.copy(),
        path: p.candidate.path.copy(),
        bytes: row.bytes,
        mtime_max: row.mtime_max,
        hardlinked: row.hardlinked,
        growth_bytes,
        regrowth_count,
        observed_at: a.observed_at,
        consumers,
        note: None,
        evidence,
    }
}

fn show(last: Option<(u64, u32)>, bound: Option<&FoldedUnit>) -> (r: (u64, u64, bool, &'static str))
    ensures
        (r.0, r.1, r.2, r.3@) == shown(
            last,
            match bound {
                Some(b) => Some(*b),
                None => None,
            },
        ),
{
    match last {
        Some(l) => match bound {
            Some(b) => if b.bytes > l.0 {
                (
                    b.bytes,
                    b.mtime_max,
                    b.hardlinked,
                    "coverage incomplete: some directories could not be read; bytes are a lower bound",
                )
            } else {
                (
                    l.0,
                    0,
                    true,
                    "coverage incomplete this pass: could not be read; last complete measurement shown",
                )
            },
            None => (
                l.0,
                0,
                true,
                "coverage incomplete this pass: could not be read; last complete measurement shown",
            ),
        },
        None => match bound {
            Some(b) => (
                b.bytes,
                b.mtime_max,
                b.hardlinked,
                "coverage incomplete: some directories could not be read; bytes are a lower bound",
            ),
            None => (0, 0, true, "coverage incomplete this pass: could not be read"),
        },
    }
}

fn make_protected(candidates: &Vec<Candidate>, p: &Planned, m: &Measurement, a: &Answers) -> (r: Option<ExternalUnit>)
    ensures
        match r {
            Some(u) => protected_unit(candidates_view(candidates@), p@, *m, a@) == Some(u@),
            None => protected_unit(candidates_view(candidates@), p@, *m, a@) is None,
        },
{
    assert(candidates_view(candidates@).len() == candidates@.len());
    match parse_external_key(p.key.as_str()) {
        Some((detector_id, category, _, path)) => {
            let last = find_last(a.last_known, p.key.as_str());
            let bound = match &m.observation {
                UnitObservation::Unit(row) => if row.complete {
                    None
                } else {
                    Some(row)
                },
                _ => None,
            };
            let (bytes, mtime_max, hardlinked, note) = show(last, bound);
            let consumers = load_consumers(a.consumers, p.key.as_str());
            let evidence = consumers_evidence(&consumers, a.now);
            let detector_name = find_name(candidates, detector_id.as_str());
            Some(
                ExternalUnit {
                    detector_id,
                    detector_name,
                    category: match category_from_str(category.as_str()) {
                        Some(c) => c,
                        None => StorageCategory::Unclassified,
                    },
                    provenance: Provenance::BuiltinConvention,
                    path: FsPath::parse(path.as_str()),
                    bytes,
                    mtime_max,
                    hardlinked,
                    growth_bytes: None,
                    regrowth_count: match last {
                        Some(l) => l.1,
                        None => 0,
                    },
                    observed_at: a.observed_at,
                    consumers,
                    note: Some(note.to_owned()),
                    evidence,
                },
            )
        },
        None => None,
    }
}

fn make_units(candidates: &Vec<Candidate>, plan: &Vec<Planned>, list: &Vec<Measurement>, a: &Answers) -> (r: Vec<
    ExternalUnit,
>)
    requires
        list@.len() == plan@.len(),
    ensures
        externals_view(r@) == external_units(candidates_view(candidates@), planned_view(plan@), list@, a@),
{
    let ghost all = planned_view(plan@);
    let ghost names = candidates_view(candidates@);
    assert(all.len() == plan@.len());
    let mut out: Vec<ExternalUnit> = Vec::new();
    let mut i: usize = 0;
    assert(externals_view(out@) =~= measured_units(all, list@, a@, 0));
    while i < plan.len()
        invariant
            i <= plan@.len(),
            list@.len() == plan@.len(),
            all == planned_view(plan@),
            externals_view(out@) == measured_units(all, list@, a@, i as int),
        decreases plan@.len() - i,
    {
        let p = &plan[i];
        let m = &list[i];
        assert(all[i as int] == p@);
        match &m.observation {
            UnitObservation::Unit(row) => {
                if row.complete {
                    push_external(&mut out, make_measured(p, m, row, a));
                }
            },
            _ => {},
        }
        i += 1;
    }
    let ghost measured = externals_view(out@);
    let mut k: usize = 0;
    assert(measured + protected_units(names, all, list@, a@, 0) =~= measured);
    while k < plan.len()
        invariant
            k <= plan@.len(),
            list@.len() == plan@.len(),
            all == planned_view(plan@),
            names == candidates_view(candidates@),
            externals_view(out@) == measured + protected_units(names, all, list@, a@, k as int),
        decreases plan@.len() - k,
    {
        let p = &plan[k];
        let m = &list[k];
        assert(all[k as int] == p@);
        let is_protected = match &m.observation {
            UnitObservation::Absent => false,
            UnitObservation::Unreadable => true,
            UnitObservation::Unit(row) => !row.complete,
        };
        if is_protected {
            match make_protected(candidates, p, m, a) {
                Some(u) => {
                    push_external(&mut out, u);
                },
                None => {},
            }
        }
        k += 1;
        assert(externals_view(out@) =~= measured + protected_units(names, all, list@, a@, k as int));
    }
    out
}

fn find_unit_at<'a>(units: &'a Vec<ExternalUnit>, path: &FsPath) -> (r: Option<&'a ExternalUnit>)
    ensures
        match r {
            Some(u) => unit_at(externals_view(units@), path@, 0) == Some(u@),
            None => unit_at(externals_view(units@), path@, 0) is None,
        },
{
    let ghost all = externals_view(units@);
    let mut i: usize = 0;
    while i < units.len()
        invariant
            i <= units@.len(),
            all == externals_view(units@),
            unit_at(all, path@, 0) == unit_at(all, path@, i as int),
        decreases units@.len() - i,
    {
        assert(all[i as int] == units@[i as int]@);
        if units[i].path.same(path) {
            return Some(&units[i]);
        }
        i += 1;
    }
    None
}

fn join_locations(inner: &Vec<NestedArtifact>, units: &Vec<ExternalUnit>) -> (r: Vec<NestedArtifact>)
    ensures
        units_view(r@) == with_locations(units_view(inner@), externals_view(units@)),
{
    let ghost all = units_view(inner@);
    let ghost want = with_locations(all, externals_view(units@));
    let mut out: Vec<NestedArtifact> = Vec::new();
    let mut i: usize = 0;
    assert(units_view(out@) =~= want.take(0));
    while i < inner.len()
        invariant
            i <= inner@.len(),
            all == units_view(inner@),
            want == with_locations(all, externals_view(units@)),
            units_view(out@) == want.take(i as int),
        decreases inner@.len() - i,
    {
        assert(all[i as int] == inner@[i as int]@);
        let next = match find_unit_at(units, &inner[i].path) {
            Some(e) => NestedUnitBuilder::amend(inner[i].copy()).history(e.growth_bytes, e.regrowth_count).build(),
            None => inner[i].copy(),
        };
        push_unit(&mut out, next);
        i += 1;
        assert(units_view(out@) =~= want.take(i as int));
    }
    assert(want.take(i as int) =~= want);
    out
}

// ---------------------------------------------------------------------
// The observation
// ---------------------------------------------------------------------

/// What an external observation gives.
#[derive(Debug)]
pub struct ExternalObservation {
    pub units: Vec<ExternalUnit>,
    /// The units inside the build stores among them.
    pub interiors: Vec<NestedArtifact>,
}

/// What a pass is about, and what it has been told.
pub struct ExternalPass<'a> {
    pub scope: &'a EffectiveScope,
    pub canonical: &'a CanonicalPaths,
    pub devices: &'a Devices,
    pub adapters: &'a AdapterRegistry,
    pub detectors: &'a DetectorRegistry,
    /// What is stored of stores.
    pub previous: &'a Vec<StoredUnits>,
    pub coverage: &'a EventCoverage,
    pub observed_at: u64,
    pub now: u64,
    pub facts: &'a FileFacts,
}

pub struct ExternalInput {
    pub scope: EffectiveScope,
    pub canonical: Seq<(PathModel, PathModel)>,
    pub devices: Seq<(PathModel, u64)>,
    pub adapters: Seq<Builtin>,
    pub detectors: Seq<DetectorModel>,
    pub previous: Seq<StoredModel>,
    pub coverage: CoverageWindow,
    pub observed_at: u64,
    pub now: u64,
    pub facts: Seq<FactModel>,
}

impl<'a> View for ExternalPass<'a> {
    type V = ExternalInput;

    open spec fn view(&self) -> ExternalInput {
        ExternalInput {
            scope: *self.scope,
            canonical: self.canonical@,
            devices: self.devices@,
            adapters: self.adapters@,
            detectors: self.detectors@,
            previous: stored_units_view(self.previous@),
            coverage: self.coverage@,
            observed_at: self.observed_at,
            now: self.now,
            facts: self.facts@,
        }
    }
}

impl ExternalInput {
    /// The plan of a pass.
    pub open spec fn plan(self) -> Seq<PlannedModel> {
        planned(
            plan_input(
                self.scope,
                self.canonical,
                self.devices,
                self.adapters,
                self.detectors,
                self.previous,
                self.coverage,
                self.observed_at,
            ),
        )
    }

    /// The units inside the stores of a pass, before history.
    pub open spec fn interiors(self, list: Seq<Measurement>) -> Seq<UnitModel> {
        insides(
            self.adapters,
            self.plan(),
            list,
            store_ctx(self.plan(), list, self.previous, self.coverage, self.observed_at, self.facts),
        )
    }
}

impl<'a> ExternalPass<'a> {
    /// The plan of a pass.
    pub fn plan(&self) -> (r: Vec<Planned>)
        ensures
            planned_view(r@) == self@.plan(),
    {
        plan_locations(
            self.scope,
            self.canonical,
            self.devices,
            self.adapters,
            self.detectors,
            self.previous,
            self.coverage,
            self.observed_at,
        )
    }
}

/// What a store answered, as far as it could.
pub enum OutcomeModel {
    Failed(StoreFailure),
    Done { units: Seq<ExternalModel>, interiors: Seq<UnitModel> },
}

pub open spec fn answers_of(
    annotations: Seq<AnnotationModel>,
    consumers: Seq<CachedModel>,
    last_known: Seq<LastModel>,
    x: ExternalInput,
) -> AnswersModel {
    AnswersModel { annotations, consumers, last_known, observed_at: x.observed_at, now: x.now }
}

/// What a pass gives when no store is asked: no history, no consumers.
pub open spec fn outcome_alone(x: ExternalInput, list: Seq<Measurement>) -> OutcomeModel {
    let a = answers_of(Seq::empty(), Seq::empty(), Seq::empty(), x);
    let units = external_units(x.scope.candidates(), x.plan(), list, a);
    OutcomeModel::Done { units, interiors: with_locations(x.interiors(list), units) }
}

/// What a pass gives, from its measurements and what its store answered.
pub open spec fn outcome_with(x: ExternalInput, list: Seq<Measurement>, s: StoreAnswers) -> OutcomeModel {
    match s.annotations {
        Err(e) => OutcomeModel::Failed(e),
        Ok(annotations) => match s.consumers {
            Err(e) => OutcomeModel::Failed(e),
            Ok(consumers) => match s.unit_annotations {
                Err(e) => OutcomeModel::Failed(e),
                Ok(unit_annotations) => {
                    let a = answers_of(
                        annotations_view(annotations@),
                        cached_view(consumers@),
                        lasts_view(s.last_known@),
                        x,
                    );
                    let units = external_units(x.scope.candidates(), x.plan(), list, a);
                    let inner = annotated_units(
                        identified_stores(x.plan(), list, x.plan().len() as int),
                        x.interiors(list),
                        annotations_view(unit_annotations@),
                    );
                    OutcomeModel::Done { units, interiors: with_locations(inner, units) }
                },
            },
        },
    }
}

/// Observes external storage: one unit for each location, and the insides of the
/// stores among them, from the pass's measurements and what its store answered.
/// A store that failed fails the observation.
pub fn observe_external(
    pass: &ExternalPass,
    list: &Vec<Measurement>,
    store: Option<&StoreAnswers>,
) -> (r: Result<ExternalObservation, StoreFailure>)
    requires
        list@.len() == pass@.plan().len(),
        measurements_fit(list@),
    ensures
        match r {
            Ok(o) => (match store {
                Some(s) => outcome_with(pass@, list@, *s),
                None => outcome_alone(pass@, list@),
            }) == (OutcomeModel::Done {
                units: externals_view(o.units@),
                interiors: units_view(o.interiors@),
            }),
            Err(e) => match store {
                Some(s) => outcome_with(pass@, list@, *s) matches OutcomeModel::Failed(f) && f.message@ == e.message@,
                None => false,
            },
        },
{
    let plan = pass.plan();
    assert(planned_view(plan@).len() == plan@.len());
    let (candidates, _) = authorized_candidates(pass.scope, pass.canonical);
    let no_annotations: Vec<Annotation> = Vec::new();
    let no_consumers: Vec<CachedRows> = Vec::new();
    let no_last: Vec<LastKnown> = Vec::new();
    assert(annotations_view(no_annotations@) =~= Seq::<AnnotationModel>::empty());
    assert(cached_view(no_consumers@) =~= Seq::<CachedModel>::empty());
    assert(lasts_view(no_last@) =~= Seq::<LastModel>::empty());
    let annotations = match store {
        Some(s) => match &s.annotations {
            Ok(v) => v,
            Err(e) => {
                return Err(StoreFailure { message: e.message.as_str().to_owned() });
            },
        },
        None => &no_annotations,
    };
    let consumers = match store {
        Some(s) => match &s.consumers {
            Ok(v) => v,
            Err(e) => {
                return Err(StoreFailure { message: e.message.as_str().to_owned() });
            },
        },
        None => &no_consumers,
    };
    let unit_annotations = match store {
        Some(s) => match &s.unit_annotations {
            Ok(v) => Some(v),
            Err(e) => {
                return Err(StoreFailure { message: e.message.as_str().to_owned() });
            },
        },
        None => None,
    };
    let last_known = match store {
        Some(s) => &s.last_known,
        None => &no_last,
    };
    let mut interiors = identify_insides(
        pass.adapters,
        &plan,
        list,
        pass.previous,
        pass.coverage,
        pass.observed_at,
        pass.facts,
    );
    let stores = identified(&plan, list);
    record_history(&stores, &mut interiors, unit_annotations);
    let a = Answers { annotations, consumers, last_known, observed_at: pass.observed_at, now: pass.now };
    let units = make_units(&candidates, &plan, list, &a);
    let joined = join_locations(&interiors, &units);
    Ok(ExternalObservation { units, interiors: joined })
}

/// [`observe_external`] for those who want the units only.
pub fn discover_and_measure(
    pass: &ExternalPass,
    list: &Vec<Measurement>,
    store: Option<&StoreAnswers>,
) -> (r: Result<Vec<ExternalUnit>, StoreFailure>)
    requires
        list@.len() == pass@.plan().len(),
        measurements_fit(list@),
    ensures
        match r {
            Ok(units) => (match store {
                Some(s) => outcome_with(pass@, list@, *s),
                None => outcome_alone(pass@, list@),
            }) matches OutcomeModel::Done { units: u, .. } && u == externals_view(units@),
            Err(e) => match store {
                Some(s) => outcome_with(pass@, list@, *s) matches OutcomeModel::Failed(f) && f.message@ == e.message@,
                None => false,
            },
        },
{
    match observe_external(pass, list, store) {
        Ok(o) => Ok(o.units),
        Err(e) => Err(e),
    }
}

// ---------------------------------------------------------------------
// Laws
// ---------------------------------------------------------------------

/// A location that could not be read to the end stays visible as itself, with no
/// growth: coverage that shrinks is not storage that shrinks.
pub proof fn law_unread_locations_stay_visible(
    candidates: Seq<CandidateModel>,
    p: PlannedModel,
    m: Measurement,
    a: AnswersModel,
)
    requires
        p.key == super::unit::location_key(
            p.candidate.detector_id,
            p.candidate.category,
            p.device,
            p.candidate.path,
        ),
        crate::text::free_of(p.candidate.detector_id, '\u{1}'),
        crate::text::free_of(path_text(p.candidate.path), '\u{1}'),
    ensures
        protected_unit(candidates, p, m, a) matches Some(u) && {
            &&& u.detector_id == p.candidate.detector_id
            &&& u.category == p.candidate.category
            &&& u.path == p.candidate.path
            &&& u.growth_bytes is None
            &&& u.note is Some
            &&& (last_from(a.last_known, p.key, 0) matches Some(l) ==> u.bytes >= l.0 && u.regrowth_count == l.1)
        },
{
    let c = p.candidate;
    super::unit::law_category_labels_read_back(c.category);
    crate::growth::law_keys_read_back(c.detector_id, category_text(c.category), p.device, path_text(c.path));
    crate::path::law_path_texts_read_back(c.path);
}

/// What history is told of a pass never speaks of a location that was not
/// measured to the end.
pub proof fn law_only_whole_measurements_are_recorded(plan: Seq<PlannedModel>, list: Seq<Measurement>, n: int, k: int)
    requires
        0 <= n <= plan.len(),
        plan.len() == list.len(),
        0 <= k < measured_rows(plan, list, n).len(),
    ensures
        measured_paths(plan, list, n).len() == measured_rows(plan, list, n).len(),
        exists|i: int|
            0 <= i < n && (#[trigger] list[i]).whole() && measured_rows(plan, list, n)[k] == measured_row(
                plan[i],
                list[i],
            ) && measured_paths(plan, list, n)[k] == plan[i].candidate.path,
    decreases n,
{
    lemma_recorded_lengths(plan, list, n);
    if n > 0 {
        lemma_recorded_lengths(plan, list, n - 1);
        if list[n - 1].whole() && k == measured_rows(plan, list, n).len() - 1 {
            assert(list[n - 1].whole());
        } else {
            law_only_whole_measurements_are_recorded(plan, list, n - 1, k);
            let i = choose|i: int|
                0 <= i < n - 1 && (#[trigger] list[i]).whole() && measured_rows(plan, list, n - 1)[k] == measured_row(
                    plan[i],
                    list[i],
                ) && measured_paths(plan, list, n - 1)[k] == plan[i].candidate.path;
            assert(list[i].whole());
        }
    }
}

proof fn lemma_recorded_lengths(plan: Seq<PlannedModel>, list: Seq<Measurement>, n: int)
    ensures
        measured_paths(plan, list, n).len() == measured_rows(plan, list, n).len(),
    decreases n,
{
    if n > 0 {
        lemma_recorded_lengths(plan, list, n - 1);
    }
}

/// Whether two lists of units are the same but for who uses them.
pub open spec fn same_but_consumers(a: Seq<ExternalModel>, b: Seq<ExternalModel>) -> bool {
    &&& a.len() == b.len()
    &&& forall|i: int| 0 <= i < a.len() ==> #[trigger] same_unit_but_consumers(a[i], b[i])
}

pub open spec fn same_unit_but_consumers(a: ExternalModel, b: ExternalModel) -> bool {
    b == super::unit::with_consumers(a, b.consumers, b.evidence)
}

proof fn lemma_measured_consumers(plan: Seq<PlannedModel>, list: Seq<Measurement>, a: AnswersModel, b: AnswersModel, n: int)
    requires
        b == (AnswersModel { consumers: b.consumers, ..a }),
    ensures
        same_but_consumers(measured_units(plan, list, a, n), measured_units(plan, list, b, n)),
    decreases n,
{
    if n > 0 {
        lemma_measured_consumers(plan, list, a, b, n - 1);
        if list[n - 1].whole() {
            assert(same_unit_but_consumers(
                measured_unit(plan[n - 1], list[n - 1], a),
                measured_unit(plan[n - 1], list[n - 1], b),
            ));
        }
    }
}

proof fn lemma_protected_consumers(
    candidates: Seq<CandidateModel>,
    plan: Seq<PlannedModel>,
    list: Seq<Measurement>,
    a: AnswersModel,
    b: AnswersModel,
    n: int,
)
    requires
        b == (AnswersModel { consumers: b.consumers, ..a }),
    ensures
        same_but_consumers(
            protected_units(candidates, plan, list, a, n),
            protected_units(candidates, plan, list, b, n),
        ),
    decreases n,
{
    if n > 0 {
        lemma_protected_consumers(candidates, plan, list, a, b, n - 1);
        if list[n - 1].protected() && protected_unit(candidates, plan[n - 1], list[n - 1], a) is Some {
            assert(same_unit_but_consumers(
                protected_unit(candidates, plan[n - 1], list[n - 1], a)->0,
                protected_unit(candidates, plan[n - 1], list[n - 1], b)->0,
            ));
        }
    }
}

/// Association changes never duplicate a unit, drop one, or touch its bytes or
/// its history.
pub proof fn law_association_changes_keep_units(
    candidates: Seq<CandidateModel>,
    plan: Seq<PlannedModel>,
    list: Seq<Measurement>,
    a: AnswersModel,
    b: AnswersModel,
)
    requires
        b == (AnswersModel { consumers: b.consumers, ..a }),
    ensures
        same_but_consumers(
            external_units(candidates, plan, list, a),
            external_units(candidates, plan, list, b),
        ),
{
    let n = plan.len() as int;
    lemma_measured_consumers(plan, list, a, b, n);
    lemma_protected_consumers(candidates, plan, list, a, b, n);
    let x = external_units(candidates, plan, list, a);
    let y = external_units(candidates, plan, list, b);
    let m = measured_units(plan, list, a, n).len() as int;
    assert forall|i: int| 0 <= i < x.len() implies #[trigger] same_unit_but_consumers(x[i], y[i]) by {
        if i < m {
            assert(same_unit_but_consumers(measured_units(plan, list, a, n)[i], measured_units(plan, list, b, n)[i]));
        } else {
            assert(same_unit_but_consumers(
                protected_units(candidates, plan, list, a, n)[i - m],
                protected_units(candidates, plan, list, b, n)[i - m],
            ));
        }
    }
}

} // verus!
