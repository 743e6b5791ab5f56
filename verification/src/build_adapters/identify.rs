//! One pass over every container the adapters claim.

use super::adapter::BuildAdapter;
use super::builder::NestedUnitBuilder;
use super::container::{containers_view, BuildContainer, CacheModel, ContainerModel};
use super::context::{BuildCtx, CtxModel};
use super::registry::{Builtin, Registry};
use crate::artifact::{
    append_units, push_unit, units_view, ActionModel, ArtifactRole, NestedActionCapability, NestedArtifact, UnitModel,
};
use crate::facts::{FactModel, FileFacts};
use crate::order::{at_places, before, keys_of, lemma_stable_places, place_in, sort_places, stable_order, stable_places};
use crate::path::{
    has_path, holds_path, inside, law_path_order_is_total, law_path_order_is_transitive, lemma_path_key_injective,
    path_key, path_less, paths, push_path, same_path, FsPath, PathModel,
};
use crate::text::same;
use vstd::prelude::*;

verus! {

/// A project: its root, and the artifact directories found in it.
pub open spec fn projects_view(s: Seq<(FsPath, Vec<FsPath>)>) -> Seq<(PathModel, Seq<PathModel>)> {
    Seq::new(s.len(), |i: int| (s[i].0@, paths(s[i].1@)))
}

/// How far a pass has come: the paths that are claimed, the units emitted, and
/// what may be replayed, with when it was last verified.
pub struct PassModel {
    pub claimed: Seq<PathModel>,
    pub out: Seq<UnitModel>,
    pub cache: CacheModel,
}

impl PassModel {
    /// Where a pass begins.
    pub open spec fn begin(ctx: CtxModel) -> PassModel {
        PassModel { claimed: Seq::empty(), out: Seq::empty(), cache: ctx.cache }
    }

    /// The context as the pass has left it.
    pub open spec fn now(self, ctx: CtxModel) -> CtxModel {
        CtxModel { cache: self.cache, ..ctx }
    }

    /// A container is claimed once: whoever comes first has it, and no one later
    /// replays or identifies it. A project's units are offered for removal where
    /// they can be.
    pub open spec fn visit(self, a: Builtin, c: ContainerModel, ctx: CtxModel, offer: bool) -> PassModel {
        if has_path(self.claimed, c.path) {
            self
        } else {
            let units = units_for(a, c, self.now(ctx));
            PassModel {
                claimed: self.claimed.push(c.path),
                out: self.out + (if offer {
                    offered_all(a, c, units)
                } else {
                    units
                }),
                cache: self.now(ctx).after(c).cache,
            }
        }
    }
}

/// The units of one container: replayed where they may be, identified
/// otherwise.
pub open spec fn units_for(a: Builtin, c: ContainerModel, ctx: CtxModel) -> Seq<UnitModel> {
    match ctx.replayed(c) {
        Some(units) => units,
        None => a.identify_spec(c, ctx),
    }
}

/// Whether a unit can be offered for removal as an exact path: its adapter
/// names its role, it lies inside the project, its layout is understood, its
/// cost is stated, and nothing withholds it.
pub open spec fn removable(a: Builtin, c: ContainerModel, u: UnitModel) -> bool {
    &&& a.trash_roles_spec().contains(u.role)
    &&& c.project_root matches Some(root) && inside(u.path, root)
    &&& !c.shared
    &&& u.coverage.supported
    &&& u.consequence is Some
    &&& u.action == ActionModel::InspectionOnly
}

pub open spec fn offered(a: Builtin, c: ContainerModel, u: UnitModel) -> UnitModel {
    if removable(a, c, u) {
        u.trash_path()
    } else {
        u
    }
}

pub open spec fn offered_all(a: Builtin, c: ContainerModel, units: Seq<UnitModel>) -> Seq<UnitModel> {
    Seq::new(units.len(), |i: int| offered(a, c, units[i]))
}

/// A pass over the first `n` containers of a project.
pub open spec fn over_project(a: Builtin, list: Seq<ContainerModel>, ctx: CtxModel, p: PassModel, n: int) -> PassModel
    decreases n,
{
    if n <= 0 {
        p
    } else {
        let c = list[n - 1];
        over_project(a, list, ctx, p, n - 1).visit(a, c, ctx, true)
    }
}

/// A pass over the first `n` projects.
pub open spec fn over_projects(
    a: Builtin,
    projects: Seq<(PathModel, Seq<PathModel>)>,
    markers: Seq<FactModel>,
    ctx: CtxModel,
    p: PassModel,
    n: int,
) -> PassModel
    decreases n,
{
    if n <= 0 {
        p
    } else {
        let list = a.containers_spec(projects[n - 1].0, projects[n - 1].1, markers);
        over_project(
            a,
            list,
            ctx,
            over_projects(a, projects, markers, ctx, p, n - 1),
            list.len() as int,
        )
    }
}

/// A pass over the first `n` shared stores, an adapter's own only.
pub open spec fn over_stores(a: Builtin, shared: Seq<ContainerModel>, ctx: CtxModel, p: PassModel, n: int) -> PassModel
    decreases n,
{
    if n <= 0 {
        p
    } else {
        let c = shared[n - 1];
        let q = over_stores(a, shared, ctx, p, n - 1);
        if c.adapter_id == a.id_spec() {
            q.visit(a, c, ctx, false)
        } else {
            q
        }
    }
}

/// A pass of the first `n` adapters, each over every project and then over its
/// shared stores.
pub open spec fn over_adapters(
    adapters: Seq<Builtin>,
    projects: Seq<(PathModel, Seq<PathModel>)>,
    markers: Seq<FactModel>,
    shared: Seq<ContainerModel>,
    ctx: CtxModel,
    n: int,
) -> PassModel
    decreases n,
{
    if n <= 0 {
        PassModel::begin(ctx)
    } else {
        let a = adapters[n - 1];
        let p = over_adapters(adapters, projects, markers, shared, ctx, n - 1);
        over_stores(
            a,
            shared,
            ctx,
            over_projects(a, projects, markers, ctx, p, projects.len() as int),
            shared.len() as int,
        )
    }
}

/// The units of a pass, as they were emitted.
pub open spec fn emitted(
    adapters: Seq<Builtin>,
    projects: Seq<(PathModel, Seq<PathModel>)>,
    markers: Seq<FactModel>,
    shared: Seq<ContainerModel>,
    ctx: CtxModel,
) -> Seq<UnitModel> {
    over_adapters(adapters, projects, markers, shared, ctx, adapters.len() as int).out
}

pub open spec fn unit_keys(units: Seq<UnitModel>) -> Seq<Seq<u32>> {
    Seq::new(units.len(), |i: int| path_key(units[i].path))
}

/// Units in path order.
pub open spec fn units_by_path(units: Seq<UnitModel>) -> Seq<UnitModel> {
    at_places(units, stable_places(unit_keys(units)))
}

/// A list without the units whose path is that of the unit before them.
pub open spec fn one_per_path(units: Seq<UnitModel>) -> Seq<UnitModel>
    decreases units.len(),
{
    if units.len() <= 1 {
        units
    } else {
        let shorter = one_per_path(units.drop_last());
        if same_path(units.last().path, units[units.len() - 2].path) {
            shorter
        } else {
            shorter.push(units.last())
        }
    }
}

// ---------------------------------------------------------------------
// The pass
// ---------------------------------------------------------------------

struct Pass {
    claimed: Vec<FsPath>,
    out: Vec<NestedArtifact>,
}

/// How far a pass has come, in a context as the pass has left it.
spec fn pass_at(p: Pass, ctx: CtxModel) -> PassModel {
    PassModel { claimed: paths(p.claimed@), out: units_view(p.out@), cache: ctx.cache }
}

fn holds_role(roles: &Vec<ArtifactRole>, role: ArtifactRole) -> (r: bool)
    ensures
        r == roles@.contains(role),
{
    let mut i: usize = 0;
    while i < roles.len()
        invariant
            i <= roles@.len(),
            forall|k: int| 0 <= k < i ==> roles@[k] != role,
        decreases roles@.len() - i,
    {
        if roles[i] == role {
            return true;
        }
        i += 1;
    }
    false
}

fn can_remove(a: &Builtin, c: &BuildContainer, u: &NestedArtifact) -> (r: bool)
    ensures
        r == removable(*a, c@, u@),
{
    let roles = a.trash_roles();
    let in_project = match &c.project_root {
        Some(root) => u.path.inside(root),
        None => false,
    };
    let withheld = match u.action {
        NestedActionCapability::InspectionOnly => false,
        _ => true,
    };
    holds_role(&roles, u.role) && in_project && !c.shared && u.coverage.supported && u.consequence.is_some() && !withheld
}

fn offer_all(a: &Builtin, c: &BuildContainer, units: &Vec<NestedArtifact>) -> (r: Vec<NestedArtifact>)
    ensures
        units_view(r@) == offered_all(*a, c@, units_view(units@)),
{
    let ghost all = units_view(units@);
    let mut out: Vec<NestedArtifact> = Vec::new();
    let mut i: usize = 0;
    assert(units_view(out@) =~= offered_all(*a, c@, all).take(0));
    while i < units.len()
        invariant
            i <= units@.len(),
            all == units_view(units@),
            units_view(out@) == offered_all(*a, c@, all).take(i as int),
        decreases units@.len() - i,
    {
        let u = &units[i];
        assert(all[i as int] == u@);
        let next = if can_remove(a, c, u) {
            NestedUnitBuilder::amend(u.copy()).trash_path().build()
        } else {
            u.copy()
        };
        push_unit(&mut out, next);
        i += 1;
        assert(units_view(out@) =~= offered_all(*a, c@, all).take(i as int));
    }
    assert(offered_all(*a, c@, all).take(i as int) =~= offered_all(*a, c@, all));
    out
}

fn find_units(a: &Builtin, c: &BuildContainer, ctx: &mut BuildCtx) -> (r: Vec<NestedArtifact>)
    ensures
        units_view(r@) == units_for(*a, c@, old(ctx)@),
        final(ctx)@ == old(ctx)@.after(c@),
{
    ctx.container(
        c,
        |x: &BuildCtx| -> (out: Vec<NestedArtifact>)
            ensures
                units_view(out@) == a.identify_spec(c@, x@)
            { a.identify(c, x) },
    )
}

fn visit(a: &Builtin, c: &BuildContainer, ctx: &mut BuildCtx, offer: bool, p: &mut Pass)
    ensures
        pass_at(*final(p), final(ctx)@) == pass_at(*old(p), old(ctx)@).visit(*a, c@, old(ctx)@, offer),
        final(ctx)@ == (CtxModel { cache: final(ctx)@.cache, ..old(ctx)@ }),
{
    if !holds_path(&p.claimed, &c.path) {
        let units = find_units(a, c, ctx);
        let ready = if offer {
            offer_all(a, c, &units)
        } else {
            units
        };
        push_path(&mut p.claimed, c.path.copy());
        append_units(&mut p.out, ready);
        assert(pass_at(*old(p), old(ctx)@).now(old(ctx)@) == old(ctx)@);
    }
}

fn run_project(a: &Builtin, list: &Vec<BuildContainer>, ctx: &mut BuildCtx, p: &mut Pass)
    ensures
        pass_at(*final(p), final(ctx)@) == over_project(
            *a,
            containers_view(list@),
            old(ctx)@,
            pass_at(*old(p), old(ctx)@),
            list@.len() as int,
        ),
        final(ctx)@ == (CtxModel { cache: final(ctx)@.cache, ..old(ctx)@ }),
{
    let ghost all = containers_view(list@);
    let ghost base = ctx@;
    let ghost start = pass_at(*p, ctx@);
    let mut i: usize = 0;
    while i < list.len()
        invariant
            i <= list@.len(),
            all == containers_view(list@),
            ctx@ == (CtxModel { cache: ctx@.cache, ..base }),
            pass_at(*p, ctx@) == over_project(*a, all, base, start, i as int),
        decreases list@.len() - i,
    {
        let c = &list[i];
        assert(all[i as int] == c@);
        let ghost before = pass_at(*p, ctx@);
        assert(before.now(ctx@) == before.now(base));
        visit(a, c, ctx, true, p);
        i += 1;
    }
}

fn run_projects(
    a: &Builtin,
    projects: &Vec<(FsPath, Vec<FsPath>)>,
    markers: &FileFacts,
    ctx: &mut BuildCtx,
    p: &mut Pass,
)
    ensures
        pass_at(*final(p), final(ctx)@) == over_projects(
            *a,
            projects_view(projects@),
            markers@,
            old(ctx)@,
            pass_at(*old(p), old(ctx)@),
            projects@.len() as int,
        ),
        final(ctx)@ == (CtxModel { cache: final(ctx)@.cache, ..old(ctx)@ }),
{
    let ghost all = projects_view(projects@);
    let ghost base = ctx@;
    let ghost start = pass_at(*p, ctx@);
    let mut i: usize = 0;
    while i < projects.len()
        invariant
            i <= projects@.len(),
            all == projects_view(projects@),
            ctx@ == (CtxModel { cache: ctx@.cache, ..base }),
            pass_at(*p, ctx@) == over_projects(*a, all, markers@, base, start, i as int),
        decreases projects@.len() - i,
    {
        assert(all[i as int] == (projects@[i as int].0@, paths(projects@[i as int].1@)));
        let list = a.containers(&projects[i].0, &projects[i].1, markers);
        assert(containers_view(list@).len() == list@.len());
        proof {
            lemma_base(*a, containers_view(list@), base, ctx@, pass_at(*p, ctx@), list@.len() as int);
        }
        run_project(a, &list, ctx, p);
        i += 1;
    }
}

/// What may be replayed is the pass's own: a pass goes by the rest of a context.
proof fn lemma_base(a: Builtin, list: Seq<ContainerModel>, base: CtxModel, ctx: CtxModel, p: PassModel, n: int)
    requires
        ctx == (CtxModel { cache: ctx.cache, ..base }),
    ensures
        over_project(a, list, ctx, p, n) == over_project(a, list, base, p, n),
    decreases n,
{
    if n > 0 {
        lemma_base(a, list, base, ctx, p, n - 1);
        let q = over_project(a, list, base, p, n - 1);
        assert(q.now(ctx) == q.now(base));
    }
}

proof fn lemma_base_projects(
    a: Builtin,
    projects: Seq<(PathModel, Seq<PathModel>)>,
    markers: Seq<FactModel>,
    base: CtxModel,
    ctx: CtxModel,
    p: PassModel,
    n: int,
)
    requires
        ctx == (CtxModel { cache: ctx.cache, ..base }),
    ensures
        over_projects(a, projects, markers, ctx, p, n) == over_projects(a, projects, markers, base, p, n),
    decreases n,
{
    if n > 0 {
        lemma_base_projects(a, projects, markers, base, ctx, p, n - 1);
        let list = a.containers_spec(projects[n - 1].0, projects[n - 1].1, markers);
        let q = over_projects(a, projects, markers, base, p, n - 1);
        lemma_base(a, list, base, ctx, q, list.len() as int);
    }
}

proof fn lemma_base_stores(a: Builtin, shared: Seq<ContainerModel>, base: CtxModel, ctx: CtxModel, p: PassModel, n: int)
    requires
        ctx == (CtxModel { cache: ctx.cache, ..base }),
    ensures
        over_stores(a, shared, ctx, p, n) == over_stores(a, shared, base, p, n),
    decreases n,
{
    if n > 0 {
        lemma_base_stores(a, shared, base, ctx, p, n - 1);
        let q = over_stores(a, shared, base, p, n - 1);
        assert(q.now(ctx) == q.now(base));
    }
}

fn run_stores(a: &Builtin, shared: &Vec<BuildContainer>, ctx: &mut BuildCtx, p: &mut Pass)
    ensures
        pass_at(*final(p), final(ctx)@) == over_stores(
            *a,
            containers_view(shared@),
            old(ctx)@,
            pass_at(*old(p), old(ctx)@),
            shared@.len() as int,
        ),
        final(ctx)@ == (CtxModel { cache: final(ctx)@.cache, ..old(ctx)@ }),
{
    let ghost all = containers_view(shared@);
    let ghost base = ctx@;
    let ghost start = pass_at(*p, ctx@);
    let mut i: usize = 0;
    while i < shared.len()
        invariant
            i <= shared@.len(),
            all == containers_view(shared@),
            ctx@ == (CtxModel { cache: ctx@.cache, ..base }),
            pass_at(*p, ctx@) == over_stores(*a, all, base, start, i as int),
        decreases shared@.len() - i,
    {
        let c = &shared[i];
        assert(all[i as int] == c@);
        let ghost before = pass_at(*p, ctx@);
        assert(before.now(ctx@) == before.now(base));
        if same(c.adapter_id, a.id()) {
            visit(a, c, ctx, false, p);
        }
        i += 1;
    }
}

fn order_by_path(units: &Vec<NestedArtifact>) -> (r: Vec<NestedArtifact>)
    ensures
        units_view(r@) == units_by_path(units_view(units@)),
{
    let ghost all = units_view(units@);
    let mut keys: Vec<Vec<u32>> = Vec::new();
    let mut i: usize = 0;
    while i < units.len()
        invariant
            i <= units@.len(),
            all == units_view(units@),
            keys_of(keys@) == unit_keys(all).take(i as int),
        decreases units@.len() - i,
    {
        let k = units[i].path.key();
        let ghost prior = keys@;
        assert(all[i as int] == units@[i as int]@);
        keys.push(k);
        i += 1;
        assert(keys_of(keys@) =~= keys_of(prior).push(k@));
        assert(keys_of(keys@) =~= unit_keys(all).take(i as int));
    }
    assert(unit_keys(all).take(i as int) =~= unit_keys(all));
    let order = sort_places(&keys);
    let ghost want = units_by_path(all);
    let mut out: Vec<NestedArtifact> = Vec::new();
    let mut j: usize = 0;
    assert(units_view(out@) =~= want.take(0));
    while j < order.len()
        invariant
            j <= order@.len(),
            all == units_view(units@),
            order@ == stable_places(unit_keys(all)),
            stable_order(unit_keys(all), order@),
            want == units_by_path(all),
            units_view(out@) == want.take(j as int),
        decreases order@.len() - j,
    {
        assert(order@[j as int] < all.len());
        push_unit(&mut out, units[order[j]].copy());
        assert(want[j as int] == units@[order@[j as int] as int]@);
        j += 1;
        assert(units_view(out@) =~= want.take(j as int));
    }
    assert(want.take(j as int) =~= want);
    out
}

fn drop_same_paths(units: &Vec<NestedArtifact>) -> (r: Vec<NestedArtifact>)
    ensures
        units_view(r@) == one_per_path(units_view(units@)),
{
    let ghost all = units_view(units@);
    let mut out: Vec<NestedArtifact> = Vec::new();
    let mut i: usize = 0;
    assert(units_view(out@) =~= one_per_path(all.take(0)));
    while i < units.len()
        invariant
            i <= units@.len(),
            all == units_view(units@),
            units_view(out@) == one_per_path(all.take(i as int)),
        decreases units@.len() - i,
    {
        let ghost next = all.take(i + 1);
        assert(next.drop_last() =~= all.take(i as int));
        assert(next.last() == units@[i as int]@);
        if i == 0 {
            push_unit(&mut out, units[i].copy());
            assert(units_view(out@) =~= next);
        } else {
            assert(next[next.len() - 2] == units@[i - 1]@);
            if !units[i].path.same(&units[i - 1].path) {
                push_unit(&mut out, units[i].copy());
            }
        }
        i += 1;
    }
    assert(all.take(i as int) =~= all);
    out
}

/// Every registered adapter, over every container it claims under the given
/// projects and over its shared stores. When two adapters claim one directory
/// the earlier has it and the later is not asked; the units come in path order,
/// one per path. What was replayed is verified as of this pass.
pub fn identify_all(
    registry: &Registry,
    projects: &Vec<(FsPath, Vec<FsPath>)>,
    markers: &FileFacts,
    shared: &Vec<BuildContainer>,
    ctx: &mut BuildCtx,
) -> (r: Vec<NestedArtifact>)
    ensures
        units_view(r@) == one_per_path(
            units_by_path(
                emitted(registry@, projects_view(projects@), markers@, containers_view(shared@), old(ctx)@),
            ),
        ),
        final(ctx)@ == over_adapters(
            registry@,
            projects_view(projects@),
            markers@,
            containers_view(shared@),
            old(ctx)@,
            registry@.len() as int,
        ).now(old(ctx)@),
{
    let ghost projs = projects_view(projects@);
    let ghost stores = containers_view(shared@);
    assert(projs.len() == projects@.len());
    assert(stores.len() == shared@.len());
    let adapters = registry.adapters();
    let mut p = Pass { claimed: Vec::new(), out: Vec::new() };
    let mut i: usize = 0;
    let ghost base = ctx@;
    proof {
        assert(paths(p.claimed@) =~= Seq::<PathModel>::empty());
        assert(units_view(p.out@) =~= Seq::<UnitModel>::empty());
    }
    while i < adapters.len()
        invariant
            i <= adapters@.len(),
            adapters@ == registry@,
            projs == projects_view(projects@),
            stores == containers_view(shared@),
            projs.len() == projects@.len(),
            stores.len() == shared@.len(),
            base == old(ctx)@,
            ctx@ == (CtxModel { cache: ctx@.cache, ..base }),
            pass_at(p, ctx@) == over_adapters(registry@, projs, markers@, stores, base, i as int),
        decreases adapters@.len() - i,
    {
        let a = adapters[i];
        let ghost first = pass_at(p, ctx@);
        proof {
            lemma_base_projects(a, projs, markers@, base, ctx@, first, projs.len() as int);
        }
        run_projects(&a, projects, markers, ctx, &mut p);
        proof {
            lemma_base_stores(a, stores, base, ctx@, pass_at(p, ctx@), stores.len() as int);
        }
        run_stores(&a, shared, ctx, &mut p);
        i += 1;
    }
    let sorted = order_by_path(&p.out);
    drop_same_paths(&sorted)
}

// ---------------------------------------------------------------------
// Laws
// ---------------------------------------------------------------------

/// What a pass gives back is in path order, and no path has two units.
pub proof fn law_identified_units_have_one_path_each(units: Seq<UnitModel>, i: int, j: int)
    requires
        units.len() <= usize::MAX,
        0 <= i < j < one_per_path(units_by_path(units)).len(),
    ensures
        path_less(
            one_per_path(units_by_path(units))[i].path,
            one_per_path(units_by_path(units))[j].path,
        ),
{
    lemma_by_path_sorted(units);
    lemma_one_per_path(units_by_path(units));
}

/// No path that was emitted is lost.
pub proof fn law_no_emitted_path_is_lost(units: Seq<UnitModel>, k: int)
    requires
        units.len() <= usize::MAX,
        0 <= k < units.len(),
    ensures
        exists|i: int|
            0 <= i < one_per_path(units_by_path(units)).len() && same_path(
                (#[trigger] one_per_path(units_by_path(units))[i]).path,
                units[k].path,
            ),
{
    let keys = unit_keys(units);
    lemma_stable_places(keys);
    let order = stable_places(keys);
    assert(place_in(order, k));
    let j = choose|j: int| 0 <= j < order.len() && order[j] == k;
    assert(units_by_path(units)[j] == units[k]);
    lemma_by_path_sorted(units);
    lemma_one_per_path(units_by_path(units));
    assert(path_kept(units_by_path(units), j));
}

/// Whether a list is in path order, equal paths together.
spec fn path_sorted(units: Seq<UnitModel>) -> bool {
    forall|i: int, j: int|
        0 <= i < j < units.len() ==> path_less((#[trigger] units[i]).path, (#[trigger] units[j]).path) || same_path(
            units[i].path,
            units[j].path,
        )
}

proof fn lemma_by_path_sorted(units: Seq<UnitModel>)
    requires
        units.len() <= usize::MAX,
    ensures
        path_sorted(units_by_path(units)),
        units_by_path(units).len() == units.len(),
{
    let keys = unit_keys(units);
    lemma_stable_places(keys);
    let order = stable_places(keys);
    let sorted = units_by_path(units);
    assert forall|i: int, j: int| 0 <= i < j < sorted.len() implies path_less(
        (#[trigger] sorted[i]).path,
        (#[trigger] sorted[j]).path,
    ) || same_path(sorted[i].path, sorted[j].path) by {
        assert(before(keys, order[i] as int, order[j] as int));
        if keys[order[i] as int] == keys[order[j] as int] {
            lemma_path_key_injective(sorted[i].path, sorted[j].path);
        }
    }
}

/// Whether the path of unit `k` is still there.
spec fn path_kept(units: Seq<UnitModel>, k: int) -> bool {
    exists|i: int|
        0 <= i < one_per_path(units).len() && same_path((#[trigger] one_per_path(units)[i]).path, units[k].path)
}

proof fn lemma_one_per_path(units: Seq<UnitModel>)
    requires
        path_sorted(units),
    ensures
        forall|i: int, j: int|
            0 <= i < j < one_per_path(units).len() ==> path_less(
                (#[trigger] one_per_path(units)[i]).path,
                (#[trigger] one_per_path(units)[j]).path,
            ),
        units.len() > 0 ==> one_per_path(units).len() > 0 && same_path(
            one_per_path(units).last().path,
            units.last().path,
        ),
        forall|k: int| 0 <= k < units.len() ==> #[trigger] path_kept(units, k),
    decreases units.len(),
{
    let out = one_per_path(units);
    if units.len() <= 1 {
        assert forall|k: int| 0 <= k < units.len() implies #[trigger] path_kept(units, k) by {
            assert(same_path(out[k].path, units[k].path));
        }
    } else {
        let head = units.drop_last();
        let shorter = one_per_path(head);
        assert(path_sorted(head)) by {
            assert forall|i: int, j: int| 0 <= i < j < head.len() implies path_less(
                (#[trigger] head[i]).path,
                (#[trigger] head[j]).path,
            ) || same_path(head[i].path, head[j].path) by {
                assert(head[i] == units[i] && head[j] == units[j]);
            }
        }
        lemma_one_per_path(head);
        let n = units.len() as int;
        assert(head.last() == units[n - 2]);
        assert(path_less(units[n - 2].path, units[n - 1].path) || same_path(units[n - 2].path, units[n - 1].path));
        if !same_path(units.last().path, units[n - 2].path) {
            assert forall|i: int| 0 <= i < shorter.len() implies path_less(
                (#[trigger] shorter[i]).path,
                units.last().path,
            ) by {
                if i < shorter.len() - 1 {
                    assert(path_less(shorter[i].path, shorter[shorter.len() - 1].path));
                    law_path_order_is_transitive(shorter[i].path, shorter.last().path, units.last().path);
                }
            }
            assert forall|i: int, j: int| 0 <= i < j < out.len() implies path_less(
                (#[trigger] out[i]).path,
                (#[trigger] out[j]).path,
            ) by {
                assert(out[i] == shorter[i]);
                if j < shorter.len() {
                    assert(out[j] == shorter[j]);
                }
            }
        }
        assert forall|k: int| 0 <= k < units.len() implies #[trigger] path_kept(units, k) by {
            if k < n - 1 {
                assert(path_kept(head, k));
                let i = choose|i: int| 0 <= i < shorter.len() && same_path((#[trigger] shorter[i]).path, head[k].path);
                assert(out[i] == shorter[i]);
                assert(same_path(out[i].path, units[k].path));
            } else {
                assert(same_path(out[out.len() - 1].path, units[k].path));
            }
        }
    }
}

/// An unchanged container costs no reading: where its units are replayed, what
/// was measured and read this pass does not matter.
pub proof fn law_replaying_reads_nothing(a: Builtin, c: ContainerModel, ctx: CtxModel, other: CtxModel)
    requires
        ctx.replayed(c) is Some,
        other == (CtxModel { rows: other.rows, facts: other.facts, ..ctx }),
    ensures
        units_for(a, c, other) == units_for(a, c, ctx),
{
}

/// Whether unit `k` is the first at its path.
pub open spec fn first_at_path(units: Seq<UnitModel>, k: int) -> bool {
    &&& 0 <= k < units.len()
    &&& forall|j: int| 0 <= j < k ==> !same_path((#[trigger] units[j]).path, units[k].path)
}

/// Where two adapters speak of one path, the one that is registered first is
/// heard: of the units at a path, the first that was emitted stays.
pub proof fn law_the_first_emitted_stays(units: Seq<UnitModel>, i: int)
    requires
        units.len() <= usize::MAX,
        0 <= i < one_per_path(units_by_path(units)).len(),
    ensures
        exists|k: int|
            #[trigger] first_at_path(units, k) && one_per_path(units_by_path(units))[i] == units[k],
{
    let keys = unit_keys(units);
    lemma_stable_places(keys);
    let order = stable_places(keys);
    let sorted = units_by_path(units);
    lemma_by_path_sorted(units);
    lemma_kept_starts(sorted, i);
    let j = choose|j: int| #[trigger] starts_path(sorted, j) && one_per_path(sorted)[i] == sorted[j];
    let k = order[j] as int;
    assert(sorted[j] == units[k]);
    assert forall|m: int| 0 <= m < k implies !same_path((#[trigger] units[m]).path, units[k].path) by {
        if same_path(units[m].path, units[k].path) {
            assert(place_in(order, m));
            let n = choose|n: int| 0 <= n < order.len() && order[n] == m;
            assert(sorted[n] == units[m]);
            assert(keys[m] == keys[k]);
            if n < j {
                law_path_order_is_total(sorted[n].path, sorted[j].path);
                assert(!same_path(sorted[j - 1].path, sorted[j].path));
                assert(path_less(sorted[j - 1].path, sorted[j].path));
                if n < j - 1 {
                    if path_less(sorted[n].path, sorted[j - 1].path) {
                        law_path_order_is_transitive(sorted[n].path, sorted[j - 1].path, sorted[j].path);
                    }
                }
            } else if n > j {
                assert(before(keys, order[j] as int, order[n] as int));
                crate::order::lemma_lex_irreflexive(keys[k]);
            }
        }
    }
    assert(first_at_path(units, k));
}

/// Whether the unit before unit `j` has another path.
spec fn starts_path(units: Seq<UnitModel>, j: int) -> bool {
    0 <= j < units.len() && (j > 0 ==> !same_path(units[j - 1].path, units[j].path))
}

proof fn lemma_kept_starts(units: Seq<UnitModel>, i: int)
    requires
        0 <= i < one_per_path(units).len(),
    ensures
        exists|j: int| #[trigger] starts_path(units, j) && one_per_path(units)[i] == units[j],
    decreases units.len(),
{
    if units.len() <= 1 {
        assert(starts_path(units, i));
    } else {
        let head = units.drop_last();
        let shorter = one_per_path(head);
        if i < shorter.len() {
            lemma_kept_starts(head, i);
            let j = choose|j: int| #[trigger] starts_path(head, j) && shorter[i] == head[j];
            assert(starts_path(units, j));
            assert(units[j] == head[j]);
        } else {
            assert(starts_path(units, units.len() - 1));
        }
    }
}

proof fn lemma_claims_once(
    a: Builtin,
    projects: Seq<(PathModel, Seq<PathModel>)>,
    markers: Seq<FactModel>,
    shared: Seq<ContainerModel>,
    ctx: CtxModel,
    p: PassModel,
    n: int,
)
    requires
        p.claimed.no_duplicates(),
    ensures
        over_stores(a, shared, ctx, p, n).claimed.no_duplicates(),
        over_projects(a, projects, markers, ctx, p, n).claimed.no_duplicates(),
    decreases n,
{
    if n > 0 {
        lemma_claims_once(a, projects, markers, shared, ctx, p, n - 1);
        let inner = a.containers_spec(projects[n - 1].0, projects[n - 1].1, markers);
        lemma_project_claims_once(
            a,
            inner,
            ctx,
            over_projects(a, projects, markers, ctx, p, n - 1),
            inner.len() as int,
        );
    }
}

proof fn lemma_project_claims_once(a: Builtin, list: Seq<ContainerModel>, ctx: CtxModel, p: PassModel, n: int)
    requires
        p.claimed.no_duplicates(),
    ensures
        over_project(a, list, ctx, p, n).claimed.no_duplicates(),
    decreases n,
{
    if n > 0 {
        lemma_project_claims_once(a, list, ctx, p, n - 1);
    }
}

/// A container is identified by one adapter only, whoever claims it.
pub proof fn law_a_container_is_claimed_once(
    adapters: Seq<Builtin>,
    projects: Seq<(PathModel, Seq<PathModel>)>,
    markers: Seq<FactModel>,
    shared: Seq<ContainerModel>,
    ctx: CtxModel,
    n: int,
)
    ensures
        over_adapters(adapters, projects, markers, shared, ctx, n).claimed.no_duplicates(),
    decreases n,
{
    if n > 0 {
        law_a_container_is_claimed_once(adapters, projects, markers, shared, ctx, n - 1);
        let a = adapters[n - 1];
        let p = over_adapters(adapters, projects, markers, shared, ctx, n - 1);
        lemma_claims_once(a, projects, markers, shared, ctx, p, projects.len() as int);
        let q = over_projects(a, projects, markers, ctx, p, projects.len() as int);
        lemma_claims_once(a, projects, markers, shared, ctx, q, shared.len() as int);
    }
}

/// Offering a unit for removal changes nothing about what it is.
pub proof fn law_offering_keeps_identity(a: Builtin, c: ContainerModel, u: UnitModel)
    ensures
        offered(a, c, u).same_identity(u),
        offered(a, c, u).role == u.role,
        offered(a, c, u).bytes == u.bytes,
        offered(a, c, u).action != u.action ==> removable(a, c, u),
{
    reveal(UnitModel::trash_path);
}

/// Nothing in a shared store is ever offered for removal by the pass.
pub proof fn law_shared_stores_are_never_offered(a: Builtin, c: ContainerModel, u: UnitModel)
    requires
        c.shared,
    ensures
        offered(a, c, u) == u,
{
}

} // verus!
