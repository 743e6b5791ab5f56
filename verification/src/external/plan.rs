//! What an external observation may measure, and how each location is to be
//! measured.

use super::unit::{location_key, unit_key, Provenance, ProvenanceModel};
use crate::artifact::copy_units;
use crate::build_adapters::container::{
    cache_entries, entry_of, BuildContainer, CacheEntry, CacheModel, ContainerCache, ContainerModel, EntryStored,
    FoldedIndex,
};
use crate::build_adapters::context::{written_by, BuildCtx, CtxModel};
use crate::build_adapters::registry::{Builtin, Registry as AdapterRegistry};
use crate::build_stores::join::{containers_for, stores_among, stores_view, StoreModel};
use crate::build_stores::tables::{stored_units_view, StoredModel, StoredUnits};
use crate::detectors::{located_view, DetectorModel, Located, LocatedModel, Registry as DetectorRegistry};
use crate::facts::{resolved, CanonicalPaths};
use crate::fs_events::{CoverageWindow, EventCoverage};
use crate::locations::StorageCategory;
use crate::path::{has_path, inside, order_once, ordered_once, paths, push_path, same_path, FsPath, PathModel};
use vstd::prelude::*;

verus! {

// ---------------------------------------------------------------------
// Scope
// ---------------------------------------------------------------------

/// A location that the scope lets a pass measure. Without a detector it is a
/// project root, which is not external storage.
#[derive(Debug, Clone, PartialEq, Eq)]
pub struct AuthorizedRoot {
    pub detector_id: Option<String>,
    pub detector_name: Option<String>,
    pub category: StorageCategory,
    pub provenance: Provenance,
    pub path: FsPath,
}

/// A location that the scope does not let a pass measure.
#[derive(Debug, Clone, PartialEq, Eq)]
pub struct UnauthorizedRoot {
    pub path: FsPath,
    /// Whether the user put it out of scope.
    pub out_of_scope: bool,
}

/// What a pass may measure: in general, and inside the roots named on an
/// explicit invocation.
#[derive(Debug, Clone, PartialEq, Eq)]
pub struct EffectiveScope {
    pub explicit: bool,
    pub authorized: Vec<AuthorizedRoot>,
    pub unauthorized: Vec<UnauthorizedRoot>,
    pub authorized_in_explicit_roots: Vec<AuthorizedRoot>,
    pub unauthorized_in_explicit_roots: Vec<UnauthorizedRoot>,
}

/// A location to measure, by what it resolves to.
pub struct CandidateModel {
    pub detector_id: Seq<char>,
    pub detector_name: Seq<char>,
    pub category: StorageCategory,
    pub provenance: ProvenanceModel,
    pub path: PathModel,
}

pub struct Candidate {
    pub detector_id: String,
    pub detector_name: String,
    pub category: StorageCategory,
    pub provenance: Provenance,
    pub path: FsPath,
}

impl View for Candidate {
    type V = CandidateModel;

    open spec fn view(&self) -> CandidateModel {
        CandidateModel {
            detector_id: self.detector_id@,
            detector_name: self.detector_name@,
            category: self.category,
            provenance: self.provenance@,
            path: self.path@,
        }
    }
}

pub open spec fn candidates_view(s: Seq<Candidate>) -> Seq<CandidateModel> {
    Seq::new(s.len(), |i: int| s[i]@)
}

impl Candidate {
    pub fn copy(&self) -> (r: Self)
        ensures
            r@ == self@,
    {
        Candidate {
            detector_id: self.detector_id.as_str().to_owned(),
            detector_name: self.detector_name.as_str().to_owned(),
            category: self.category,
            provenance: self.provenance.copy(),
            path: self.path.copy(),
        }
    }
}

impl AuthorizedRoot {
    /// The location a detector proposed, by its own name or its detector's id.
    pub open spec fn candidate(self) -> Option<CandidateModel> {
        match self.detector_id {
            Some(id) => Some(
                CandidateModel {
                    detector_id: id@,
                    detector_name: match self.detector_name {
                        Some(n) => n@,
                        None => id@,
                    },
                    category: self.category,
                    provenance: self.provenance@,
                    path: self.path@,
                },
            ),
            None => None,
        }
    }
}

/// The locations that detectors proposed, among the first `n`.
pub open spec fn proposed(roots: Seq<AuthorizedRoot>, n: int) -> Seq<CandidateModel>
    decreases n,
{
    if n <= 0 {
        Seq::empty()
    } else {
        match roots[n - 1].candidate() {
            Some(c) => proposed(roots, n - 1).push(c),
            None => proposed(roots, n - 1),
        }
    }
}

/// What the user put out of scope, by what it resolves to, among the first `n`.
pub open spec fn left_out(roots: Seq<UnauthorizedRoot>, canonical: Seq<(PathModel, PathModel)>, n: int) -> Seq<PathModel>
    decreases n,
{
    if n <= 0 {
        Seq::empty()
    } else if roots[n - 1].out_of_scope {
        left_out(roots, canonical, n - 1).push(resolved(canonical, roots[n - 1].path@))
    } else {
        left_out(roots, canonical, n - 1)
    }
}

impl EffectiveScope {
    pub open spec fn authorized_spec(self) -> Seq<AuthorizedRoot> {
        if self.explicit {
            self.authorized_in_explicit_roots@
        } else {
            self.authorized@
        }
    }

    pub open spec fn unauthorized_spec(self) -> Seq<UnauthorizedRoot> {
        if self.explicit {
            self.unauthorized_in_explicit_roots@
        } else {
            self.unauthorized@
        }
    }

    /// The locations a pass may measure.
    pub open spec fn candidates(self) -> Seq<CandidateModel> {
        proposed(self.authorized_spec(), self.authorized_spec().len() as int)
    }

    /// What lies out of the pass's scope.
    pub open spec fn out_of_scope(self, canonical: Seq<(PathModel, PathModel)>) -> Seq<PathModel> {
        left_out(self.unauthorized_spec(), canonical, self.unauthorized_spec().len() as int)
    }
}

fn make_candidate(root: &AuthorizedRoot) -> (r: Option<Candidate>)
    ensures
        match r {
            Some(c) => root.candidate() == Some(c@),
            None => root.candidate() is None,
        },
{
    match &root.detector_id {
        Some(id) => {
            let name = match &root.detector_name {
                Some(n) => n.as_str().to_owned(),
                None => id.as_str().to_owned(),
            };
            Some(
                Candidate {
                    detector_id: id.as_str().to_owned(),
                    detector_name: name,
                    category: root.category,
                    provenance: root.provenance.copy(),
                    path: root.path.copy(),
                },
            )
        },
        None => None,
    }
}

fn push_candidate(v: &mut Vec<Candidate>, c: Candidate)
    ensures
        candidates_view(final(v)@) == candidates_view(old(v)@).push(c@),
{
    let ghost m = c@;
    v.push(c);
    assert(candidates_view(v@) =~= candidates_view(old(v)@).push(m));
}

/// The locations a pass may measure, and what it deliberately may not.
pub fn authorized_candidates(scope: &EffectiveScope, canonical: &CanonicalPaths) -> (r: (Vec<Candidate>, Vec<FsPath>))
    ensures
        candidates_view(r.0@) == scope.candidates(),
        paths(r.1@) == scope.out_of_scope(canonical@),
{
    let roots = if scope.explicit {
        &scope.authorized_in_explicit_roots
    } else {
        &scope.authorized
    };
    let others = if scope.explicit {
        &scope.unauthorized_in_explicit_roots
    } else {
        &scope.unauthorized
    };
    let mut list: Vec<Candidate> = Vec::new();
    let mut i: usize = 0;
    assert(candidates_view(list@) =~= proposed(roots@, 0));
    while i < roots.len()
        invariant
            i <= roots@.len(),
            candidates_view(list@) == proposed(roots@, i as int),
        decreases roots@.len() - i,
    {
        match make_candidate(&roots[i]) {
            Some(c) => {
                push_candidate(&mut list, c);
            },
            None => {},
        }
        i += 1;
    }
    let mut out: Vec<FsPath> = Vec::new();
    let mut k: usize = 0;
    assert(paths(out@) =~= left_out(others@, canonical@, 0));
    while k < others.len()
        invariant
            k <= others@.len(),
            paths(out@) == left_out(others@, canonical@, k as int),
        decreases others@.len() - k,
    {
        if others[k].out_of_scope {
            push_path(&mut out, canonical.of(&others[k].path));
        }
        k += 1;
    }
    (list, out)
}

// ---------------------------------------------------------------------
// One unit per location
// ---------------------------------------------------------------------

pub open spec fn at_canonical(c: CandidateModel, canonical: Seq<(PathModel, PathModel)>) -> CandidateModel {
    CandidateModel { path: resolved(canonical, c.path), ..c }
}

pub open spec fn is_listed(list: Seq<CandidateModel>, category: StorageCategory, path: PathModel) -> bool {
    exists|k: int| 0 <= k < list.len() && (#[trigger] list[k]).category == category && same_path(list[k].path, path)
}

/// The first `n` candidates by what they resolve to, each place once in a
/// category: bytes registered twice are one unit.
pub open spec fn placed(list: Seq<CandidateModel>, canonical: Seq<(PathModel, PathModel)>, n: int) -> Seq<CandidateModel>
    decreases n,
{
    if n <= 0 {
        Seq::empty()
    } else {
        let before = placed(list, canonical, n - 1);
        let c = at_canonical(list[n - 1], canonical);
        if is_listed(before, c.category, c.path) {
            before
        } else {
            before.push(c)
        }
    }
}

fn is_in(list: &Vec<Candidate>, category: StorageCategory, path: &FsPath) -> (r: bool)
    ensures
        r == is_listed(candidates_view(list@), category, path@),
{
    let ghost all = candidates_view(list@);
    let mut i: usize = 0;
    while i < list.len()
        invariant
            i <= list@.len(),
            all == candidates_view(list@),
            forall|k: int| 0 <= k < i ==> !((#[trigger] all[k]).category == category && same_path(all[k].path, path@)),
        decreases list@.len() - i,
    {
        assert(all[i as int] == list@[i as int]@);
        if list[i].category == category && list[i].path.same(path) {
            return true;
        }
        i += 1;
    }
    false
}

/// The candidates by what they resolve to, each place once in a category.
pub fn place_candidates(list: &Vec<Candidate>, canonical: &CanonicalPaths) -> (r: Vec<Candidate>)
    ensures
        candidates_view(r@) == placed(candidates_view(list@), canonical@, list@.len() as int),
{
    let ghost all = candidates_view(list@);
    let mut out: Vec<Candidate> = Vec::new();
    let mut i: usize = 0;
    assert(candidates_view(out@) =~= placed(all, canonical@, 0));
    while i < list.len()
        invariant
            i <= list@.len(),
            all == candidates_view(list@),
            candidates_view(out@) == placed(all, canonical@, i as int),
        decreases list@.len() - i,
    {
        assert(all[i as int] == list@[i as int]@);
        let mut c = list[i].copy();
        c.path = canonical.of(&list[i].path);
        if !is_in(&out, c.category, &c.path) {
            push_candidate(&mut out, c);
        }
        i += 1;
    }
    out
}

// ---------------------------------------------------------------------
// The plan
// ---------------------------------------------------------------------

/// The locations among the first `n` that lie strictly inside another.
pub open spec fn locations_inside(list: Seq<CandidateModel>, i: int, n: int) -> Seq<PathModel>
    decreases n,
{
    if n <= 0 {
        Seq::empty()
    } else if n - 1 != i && inside(list[n - 1].path, list[i].path) {
        locations_inside(list, i, n - 1).push(list[n - 1].path)
    } else {
        locations_inside(list, i, n - 1)
    }
}

pub open spec fn paths_inside(list: Seq<PathModel>, path: PathModel, n: int) -> Seq<PathModel>
    decreases n,
{
    if n <= 0 {
        Seq::empty()
    } else if inside(list[n - 1], path) {
        paths_inside(list, path, n - 1).push(list[n - 1])
    } else {
        paths_inside(list, path, n - 1)
    }
}

/// What a location's measurement leaves out: the locations inside it, which are
/// measured on their own, and what inside it is out of scope.
pub open spec fn exclusions(list: Seq<CandidateModel>, out_of_scope: Seq<PathModel>, i: int) -> Seq<PathModel> {
    ordered_once(
        locations_inside(list, i, list.len() as int) + paths_inside(
            out_of_scope,
            list[i].path,
            out_of_scope.len() as int,
        ),
    )
}

/// The devices of paths; zero where unknown.
#[derive(Debug, Clone, PartialEq, Eq)]
pub struct Devices {
    pub pairs: Vec<(FsPath, u64)>,
}

impl View for Devices {
    type V = Seq<(PathModel, u64)>;

    open spec fn view(&self) -> Seq<(PathModel, u64)> {
        Seq::new(self.pairs@.len(), |i: int| (self.pairs@[i].0@, self.pairs@[i].1))
    }
}

pub open spec fn device_from(pairs: Seq<(PathModel, u64)>, path: PathModel, i: int) -> u64
    decreases pairs.len() - i,
{
    if i < 0 || i >= pairs.len() {
        0
    } else if same_path(pairs[i].0, path) {
        pairs[i].1
    } else {
        device_from(pairs, path, i + 1)
    }
}

impl Devices {
    pub fn of(&self, path: &FsPath) -> (r: u64)
        ensures
            r == device_from(self@, path@, 0),
    {
        let mut i: usize = 0;
        while i < self.pairs.len()
            invariant
                i <= self.pairs@.len(),
                device_from(self@, path@, 0) == device_from(self@, path@, i as int),
            decreases self.pairs@.len() - i,
        {
            assert(self@[i as int] == (self.pairs@[i as int].0@, self.pairs@[i as int].1));
            if self.pairs[i].0.same(path) {
                return self.pairs[i].1;
            }
            i += 1;
        }
        0
    }
}

pub open spec fn as_located(list: Seq<CandidateModel>) -> Seq<LocatedModel> {
    Seq::new(
        list.len(),
        |i: int| LocatedModel { detector_id: list[i].detector_id, category: list[i].category, path: list[i].path },
    )
}

/// The container of location `i`, if it is a store.
pub open spec fn store_at(stores: Seq<StoreModel>, i: usize, k: int) -> Option<ContainerModel>
    decreases stores.len() - k,
{
    if k < 0 || k >= stores.len() {
        None
    } else if stores[k].0 == i {
        Some(stores[k].1)
    } else {
        store_at(stores, i, k + 1)
    }
}

/// What is stored of containers, each under its own scope, with when it was
/// verified.
pub open spec fn stored_entries(previous: Seq<StoredModel>) -> Seq<EntryStored> {
    Seq::new(
        previous.len(),
        |i: int|
            EntryStored { scope: previous[i].scope, stored_at: previous[i].observed_at, units: previous[i].units },
    )
}

pub open spec fn cache_of(previous: Seq<StoredModel>) -> CacheModel {
    CacheModel { entries: stored_entries(previous), enabled: true }
}

/// What a pass asks before measuring: whether stored units may be replayed.
pub open spec fn probe(previous: Seq<StoredModel>, coverage: CoverageWindow, observed_at: u64) -> CtxModel {
    CtxModel {
        observed_at,
        rows: Seq::empty(),
        facts: Seq::empty(),
        coverage,
        cache: cache_of(previous),
        daemon: None,
    }
}

/// A location, and how it is to be measured.
pub struct PlannedModel {
    pub candidate: CandidateModel,
    pub device: u64,
    pub key: Seq<char>,
    pub exclusions: Seq<PathModel>,
    pub container: Option<ContainerModel>,
    pub reuse: bool,
}

/// A location, and how it is to be measured.
pub struct Planned {
    pub candidate: Candidate,
    pub device: u64,
    /// The key its history is kept under.
    pub key: String,
    /// What its measurement leaves out.
    pub exclusions: Vec<FsPath>,
    /// The container it is, when it is a build store. Its directories are then
    /// kept beside its total.
    pub container: Option<BuildContainer>,
    /// Whether its stored units may be replayed.
    pub reuse: bool,
}

impl View for Planned {
    type V = PlannedModel;

    open spec fn view(&self) -> PlannedModel {
        PlannedModel {
            candidate: self.candidate@,
            device: self.device,
            key: self.key@,
            exclusions: paths(self.exclusions@),
            container: match self.container {
                Some(c) => Some(c@),
                None => None,
            },
            reuse: self.reuse,
        }
    }
}

pub open spec fn planned_view(s: Seq<Planned>) -> Seq<PlannedModel> {
    Seq::new(s.len(), |i: int| s[i]@)
}

/// What a plan goes by.
pub struct PlanInput {
    pub list: Seq<CandidateModel>,
    pub out_of_scope: Seq<PathModel>,
    pub devices: Seq<(PathModel, u64)>,
    pub stores: Seq<StoreModel>,
    pub ctx: CtxModel,
}

pub open spec fn planned_at(p: PlanInput, i: int) -> PlannedModel {
    let c = p.list[i];
    let device = device_from(p.devices, c.path, 0);
    let container = store_at(p.stores, i as usize, 0);
    PlannedModel {
        candidate: c,
        device,
        key: location_key(c.detector_id, c.category, device, c.path),
        exclusions: exclusions(p.list, p.out_of_scope, i),
        container,
        reuse: container is Some && p.ctx.replayed(container->0) is Some,
    }
}

pub open spec fn planned(p: PlanInput) -> Seq<PlannedModel> {
    Seq::new(p.list.len(), |i: int| planned_at(p, i))
}

/// What the plan of a pass goes by.
pub open spec fn plan_input(
    scope: EffectiveScope,
    canonical: Seq<(PathModel, PathModel)>,
    devices: Seq<(PathModel, u64)>,
    adapters: Seq<Builtin>,
    detectors: Seq<DetectorModel>,
    previous: Seq<StoredModel>,
    coverage: CoverageWindow,
    observed_at: u64,
) -> PlanInput {
    let list = placed(scope.candidates(), canonical, scope.candidates().len() as int);
    PlanInput {
        list,
        out_of_scope: scope.out_of_scope(canonical),
        devices,
        stores: stores_among(adapters, detectors, as_located(list)),
        ctx: probe(previous, coverage, observed_at),
    }
}

fn find_exclusions(list: &Vec<Candidate>, out_of_scope: &Vec<FsPath>, i: usize) -> (r: Vec<FsPath>)
    requires
        i < list@.len(),
    ensures
        paths(r@) == exclusions(candidates_view(list@), paths(out_of_scope@), i as int),
{
    let ghost all = candidates_view(list@);
    let ghost others = paths(out_of_scope@);
    let here = &list[i].path;
    assert(all[i as int] == list@[i as int]@);
    let mut found: Vec<FsPath> = Vec::new();
    let mut n: usize = 0;
    assert(paths(found@) =~= locations_inside(all, i as int, 0));
    while n < list.len()
        invariant
            n <= list@.len(),
            i < list@.len(),
            all == candidates_view(list@),
            here@ == all[i as int].path,
            paths(found@) == locations_inside(all, i as int, n as int),
        decreases list@.len() - n,
    {
        assert(all[n as int] == list@[n as int]@);
        if n != i && list[n].path.inside(here) {
            push_path(&mut found, list[n].path.copy());
        }
        n += 1;
    }
    let ghost inner = locations_inside(all, i as int, all.len() as int);
    assert(all.len() == list@.len());
    let mut k: usize = 0;
    assert(inner + paths_inside(others, here@, 0) =~= inner);
    while k < out_of_scope.len()
        invariant
            k <= out_of_scope@.len(),
            others == paths(out_of_scope@),
            paths(found@) == inner + paths_inside(others, here@, k as int),
        decreases out_of_scope@.len() - k,
    {
        assert(others[k as int] == out_of_scope@[k as int]@);
        if out_of_scope[k].inside(here) {
            push_path(&mut found, out_of_scope[k].copy());
        }
        k += 1;
        assert(paths(found@) =~= inner + paths_inside(others, here@, k as int));
    }
    assert(others.len() == out_of_scope@.len());
    order_once(&found)
}

fn locate(list: &Vec<Candidate>) -> (r: Vec<Located>)
    ensures
        located_view(r@) == as_located(candidates_view(list@)),
{
    let ghost want = as_located(candidates_view(list@));
    let mut out: Vec<Located> = Vec::new();
    let mut i: usize = 0;
    assert(located_view(out@) =~= want.take(0));
    while i < list.len()
        invariant
            i <= list@.len(),
            want == as_located(candidates_view(list@)),
            located_view(out@) == want.take(i as int),
        decreases list@.len() - i,
    {
        assert(candidates_view(list@)[i as int] == list@[i as int]@);
        let ghost prior = out@;
        let l = Located {
            detector_id: list[i].detector_id.as_str().to_owned(),
            category: list[i].category,
            path: list[i].path.copy(),
        };
        let ghost lm = l@;
        out.push(l);
        i += 1;
        assert(located_view(out@) =~= located_view(prior).push(lm));
        assert(located_view(out@) =~= want.take(i as int));
    }
    assert(want.take(i as int) =~= want);
    out
}

fn find_container(stores: &Vec<(usize, BuildContainer)>, i: usize) -> (r: Option<BuildContainer>)
    ensures
        match r {
            Some(c) => store_at(stores_view(stores@), i, 0) == Some(c@),
            None => store_at(stores_view(stores@), i, 0) is None,
        },
{
    let ghost all = stores_view(stores@);
    let mut k: usize = 0;
    while k < stores.len()
        invariant
            k <= stores@.len(),
            all == stores_view(stores@),
            store_at(all, i, 0) == store_at(all, i, k as int),
        decreases stores@.len() - k,
    {
        assert(all[k as int] == (stores@[k as int].0, stores@[k as int].1@));
        if stores[k].0 == i {
            return Some(stores[k].1.copy());
        }
        k += 1;
    }
    None
}

/// What is stored, as a cache to replay from.
pub fn cache_from(previous: &Vec<StoredUnits>) -> (r: ContainerCache)
    ensures
        r@ == cache_of(stored_units_view(previous@)),
{
    let ghost all = stored_entries(stored_units_view(previous@));
    let mut list: Vec<CacheEntry> = Vec::new();
    let mut i: usize = 0;
    assert(cache_entries(list@) =~= all.take(0));
    while i < previous.len()
        invariant
            i <= previous@.len(),
            all == stored_entries(stored_units_view(previous@)),
            cache_entries(list@) == all.take(i as int),
        decreases previous@.len() - i,
    {
        assert(stored_units_view(previous@)[i as int] == previous@[i as int]@);
        let ghost prior = list@;
        let entry = CacheEntry {
            scope: previous[i].scope.as_str().to_owned(),
            stored_at: previous[i].observed_at,
            units: copy_units(&previous[i].units),
        };
        let ghost em = entry@;
        list.push(entry);
        i += 1;
        assert(cache_entries(list@) =~= cache_entries(prior).push(em));
        assert(cache_entries(list@) =~= all.take(i as int));
    }
    assert(all.take(i as int) =~= all);
    ContainerCache::from_stored(list)
}

/// Plans a pass: one measurement for each location in scope.
pub fn plan_locations(
    scope: &EffectiveScope,
    canonical: &CanonicalPaths,
    devices: &Devices,
    adapters: &AdapterRegistry,
    detectors: &DetectorRegistry,
    previous: &Vec<StoredUnits>,
    coverage: &EventCoverage,
    observed_at: u64,
) -> (r: Vec<Planned>)
    ensures
        planned_view(r@) == planned(
            plan_input(
                *scope,
                canonical@,
                devices@,
                adapters@,
                detectors@,
                stored_units_view(previous@),
                coverage@,
                observed_at,
            ),
        ),
{
    let (candidates, out_of_scope) = authorized_candidates(scope, canonical);
    assert(scope.candidates().len() == candidates@.len());
    let list = place_candidates(&candidates, canonical);
    let located = locate(&list);
    let stores = containers_for(adapters, detectors, &located);
    let cache = cache_from(previous);
    let no_rows = FoldedIndex::empty();
    let ctx = BuildCtx::new(observed_at, &no_rows, coverage, &cache);
    let ghost input = plan_input(
        *scope,
        canonical@,
        devices@,
        adapters@,
        detectors@,
        stored_units_view(previous@),
        coverage@,
        observed_at,
    );
    let ghost want = planned(input);
    assert(ctx@ == input.ctx);
    assert(input.list.len() == list@.len());
    let mut out: Vec<Planned> = Vec::new();
    let mut i: usize = 0;
    assert(planned_view(out@) =~= want.take(0));
    while i < list.len()
        invariant
            i <= list@.len(),
            input.list == candidates_view(list@),
            input.list.len() == list@.len(),
            input.out_of_scope == paths(out_of_scope@),
            input.devices == devices@,
            input.stores == stores_view(stores@),
            input.ctx == ctx@,
            want == planned(input),
            planned_view(out@) == want.take(i as int),
        decreases list@.len() - i,
    {
        let c = &list[i];
        assert(input.list[i as int] == c@);
        let device = devices.of(&c.path);
        let container = find_container(&stores, i);
        let reuse = match &container {
            Some(b) => ctx.can_reuse(b),
            None => false,
        };
        let p = Planned {
            candidate: c.copy(),
            device,
            key: unit_key(c.detector_id.as_str(), c.category, device, &c.path),
            exclusions: find_exclusions(&list, &out_of_scope, i),
            container,
            reuse,
        };
        assert(p@ == planned_at(input, i as int));
        let ghost pm = p@;
        let ghost prior = out@;
        out.push(p);
        i += 1;
        assert(planned_view(out@) =~= planned_view(prior).push(pm));
        assert(planned_view(out@) =~= want.take(i as int));
    }
    assert(want.take(i as int) =~= want);
    out
}

// ---------------------------------------------------------------------
// Laws
// ---------------------------------------------------------------------

/// Whether no place is listed twice in a category.
pub open spec fn places_differ(list: Seq<CandidateModel>) -> bool {
    forall|i: int, j: int|
        0 <= i < j < list.len() ==> !((#[trigger] list[i]).category == (#[trigger] list[j]).category && same_path(
            list[i].path,
            list[j].path,
        ))
}

/// A location registered twice is measured once.
pub proof fn law_a_location_is_measured_once(list: Seq<CandidateModel>, canonical: Seq<(PathModel, PathModel)>, n: int)
    ensures
        places_differ(placed(list, canonical, n)),
    decreases n,
{
    if n > 0 {
        law_a_location_is_measured_once(list, canonical, n - 1);
    }
}

proof fn lemma_locations_inside(list: Seq<CandidateModel>, i: int, n: int, j: int)
    requires
        0 <= j < n <= list.len(),
        j != i,
        inside(list[j].path, list[i].path),
    ensures
        has_path(locations_inside(list, i, n), list[j].path),
    decreases n,
{
    if j == n - 1 {
        let s = locations_inside(list, i, n);
        assert(same_path(s[s.len() - 1], list[j].path));
    } else {
        lemma_locations_inside(list, i, n - 1, j);
        let before = locations_inside(list, i, n - 1);
        let k = choose|k: int| 0 <= k < before.len() && same_path(#[trigger] before[k], list[j].path);
        assert(same_path(locations_inside(list, i, n)[k], list[j].path));
    }
}

proof fn lemma_paths_inside(list: Seq<PathModel>, path: PathModel, n: int, j: int)
    requires
        0 <= j < n <= list.len(),
        inside(list[j], path),
    ensures
        has_path(paths_inside(list, path, n), list[j]),
    decreases n,
{
    if j == n - 1 {
        let s = paths_inside(list, path, n);
        assert(same_path(s[s.len() - 1], list[j]));
    } else {
        lemma_paths_inside(list, path, n - 1, j);
        let before = paths_inside(list, path, n - 1);
        let k = choose|k: int| 0 <= k < before.len() && same_path(#[trigger] before[k], list[j]);
        assert(same_path(paths_inside(list, path, n)[k], list[j]));
    }
}

proof fn lemma_inside_lengths(list: Seq<CandidateModel>, out: Seq<PathModel>, i: int)
    ensures
        locations_inside(list, i, list.len() as int).len() <= list.len(),
        paths_inside(out, list[i].path, out.len() as int).len() <= out.len(),
{
    lemma_locations_len(list, i, list.len() as int);
    lemma_paths_len(out, list[i].path, out.len() as int);
}

proof fn lemma_locations_len(list: Seq<CandidateModel>, i: int, n: int)
    requires
        n >= 0,
    ensures
        locations_inside(list, i, n).len() <= n,
    decreases n,
{
    if n > 0 {
        lemma_locations_len(list, i, n - 1);
    }
}

proof fn lemma_paths_len(list: Seq<PathModel>, path: PathModel, n: int)
    requires
        n >= 0,
    ensures
        paths_inside(list, path, n).len() <= n,
    decreases n,
{
    if n > 0 {
        lemma_paths_len(list, path, n - 1);
    }
}

/// No bytes are measured twice: a location's measurement leaves out every other
/// location inside it.
pub proof fn law_nested_locations_are_left_out(list: Seq<CandidateModel>, out_of_scope: Seq<PathModel>, i: int, j: int)
    requires
        list.len() + out_of_scope.len() <= usize::MAX,
        0 <= i < list.len(),
        0 <= j < list.len(),
        inside(list[j].path, list[i].path),
    ensures
        has_path(exclusions(list, out_of_scope, i), list[j].path),
{
    let a = locations_inside(list, i, list.len() as int);
    let b = paths_inside(out_of_scope, list[i].path, out_of_scope.len() as int);
    lemma_inside_lengths(list, out_of_scope, i);
    lemma_locations_inside(list, i, list.len() as int, j);
    let k = choose|k: int| 0 <= k < a.len() && same_path(#[trigger] a[k], list[j].path);
    assert(same_path((a + b)[k], list[j].path));
    crate::path::law_ordering_keeps_paths(a + b, list[j].path);
}

/// Putting a place out of scope takes it out of the measurement around it, so
/// that it does not read as growth there.
pub proof fn law_excluded_places_are_left_out(list: Seq<CandidateModel>, out_of_scope: Seq<PathModel>, i: int, j: int)
    requires
        list.len() + out_of_scope.len() <= usize::MAX,
        0 <= i < list.len(),
        0 <= j < out_of_scope.len(),
        inside(out_of_scope[j], list[i].path),
    ensures
        has_path(exclusions(list, out_of_scope, i), out_of_scope[j]),
{
    let a = locations_inside(list, i, list.len() as int);
    let b = paths_inside(out_of_scope, list[i].path, out_of_scope.len() as int);
    lemma_inside_lengths(list, out_of_scope, i);
    lemma_paths_inside(out_of_scope, list[i].path, out_of_scope.len() as int, j);
    let k = choose|k: int| 0 <= k < b.len() && same_path(#[trigger] b[k], out_of_scope[j]);
    assert(same_path((a + b)[a.len() + k], out_of_scope[j]));
    crate::path::law_ordering_keeps_paths(a + b, out_of_scope[j]);
}

proof fn lemma_stored_entry(previous: Seq<StoredModel>, k: int, n: int)
    requires
        0 <= k < n <= previous.len(),
        forall|j: int| k < j < previous.len() ==> (#[trigger] previous[j]).scope != previous[k].scope,
    ensures
        entry_of(stored_entries(previous), previous[k].scope, n) == Some(stored_entries(previous)[k]),
    decreases n,
{
    if k < n - 1 {
        assert(previous[n - 1].scope != previous[k].scope);
        lemma_stored_entry(previous, k, n - 1);
    }
}

/// A store whose answer is kept is not walked again while nothing under it
/// changes, whatever its number of units: nothing identified in it is an answer,
/// not a missing one.
pub proof fn law_a_kept_answer_is_reused(p: PlanInput, previous: Seq<StoredModel>, i: int, k: int)
    requires
        p.ctx.cache == cache_of(previous),
        store_at(p.stores, i as usize, 0) matches Some(c) && {
            &&& 0 <= k < previous.len()
            &&& previous[k].scope == c.scope()
            &&& forall|j: int| k < j < previous.len() ==> (#[trigger] previous[j]).scope != previous[k].scope
            &&& written_by(previous[k].units, c.adapter_id)
            &&& p.ctx.coverage.unchanged_since(c.path, previous[k].observed_at)
        },
    ensures
        planned_at(p, i).reuse,
        p.ctx.replayed(store_at(p.stores, i as usize, 0)->0) == Some(previous[k].units),
{
    lemma_stored_entry(previous, k, previous.len() as int);
}

} // verus!
