//! What an adapter is, and what the adapters share.

use super::container::{containers_view, dir_refs, push_container, BuildContainer, ContainerModel, DirModel, FoldedDir};
use super::context::{BuildCtx, CtxModel};
use crate::artifact::{append_units, units_view, ArtifactRole, NestedArtifact, UnitModel};
use crate::facts::{is_dir_at, FactModel, FileFacts};
use crate::locations::BuildStoreKind;
use crate::path::{has_path, paths, push_path, same_path, FsPath, PathModel};
use vstd::prelude::*;

verus! {

/// What an adapter says it can do. Saying nothing claims nothing.
#[derive(Debug, Clone, Copy, PartialEq, Eq, Structural)]
pub struct BuildCapabilities {
    /// Whether it identifies containers shared across projects.
    pub identifies_shared_stores: bool,
    /// Whether it can attribute a unit to a package identity.
    pub attributes_package_identity: bool,
    /// Whether it exposes exact-path actions on its units.
    pub actions_available: bool,
}

/// One ecosystem's identification of build storage. An adapter only
/// identifies: it reads measured rows and records of what was read, and
/// returns units.
pub trait BuildAdapter {
    spec fn trash_roles_spec(&self) -> Seq<ArtifactRole>;

    spec fn id_spec(&self) -> Seq<char>;

    spec fn name_spec(&self) -> Seq<char>;

    spec fn capabilities_spec(&self) -> BuildCapabilities;

    spec fn store_kinds_spec(&self) -> Seq<BuildStoreKind>;

    spec fn containers_spec(&self, root: PathModel, candidates: Seq<PathModel>, facts: Seq<FactModel>) -> Seq<
        ContainerModel,
    >;

    spec fn identify_spec(&self, c: ContainerModel, ctx: CtxModel) -> Seq<UnitModel>;

    /// Roles this adapter can remove as an exact project-local path.
    fn trash_roles(&self) -> (r: Vec<ArtifactRole>)
        ensures
            r@ == self.trash_roles_spec(),
    ;

    /// The adapter's stable id.
    fn id(&self) -> (r: &'static str)
        ensures
            r@ == self.id_spec(),
    ;

    fn name(&self) -> (r: &'static str)
        ensures
            r@ == self.name_spec(),
    ;

    fn capabilities(&self) -> (r: BuildCapabilities)
        ensures
            r == self.capabilities_spec(),
    ;

    /// Which kinds of machine-wide store this adapter identifies the inside of.
    fn store_kinds(&self) -> (r: Vec<BuildStoreKind>)
        ensures
            r@ == self.store_kinds_spec(),
    ;

    /// Which containers under `project_root` this adapter claims, given the
    /// artifact directories found there and the marker files beside them.
    fn containers(&self, project_root: &FsPath, candidates: &Vec<FsPath>, facts: &FileFacts) -> (r: Vec<
        BuildContainer,
    >)
        ensures
            containers_view(r@) == self.containers_spec(project_root@, paths(candidates@), facts@),
    ;

    /// Identifies the inside of one container.
    fn identify(&self, container: &BuildContainer, ctx: &BuildCtx) -> (r: Vec<NestedArtifact>)
        ensures
            units_view(r@) == self.identify_spec(container@, ctx@),
    ;
}

// ---------------------------------------------------------------------
// Claims
// ---------------------------------------------------------------------

/// The containers that the first `n` wanted paths make: one for each that is a
/// directory, the first time it is wanted.
pub open spec fn claims(id: Seq<char>, wanted: Seq<PathModel>, root: PathModel, facts: Seq<FactModel>, n: int) -> Seq<
    ContainerModel,
>
    decreases n,
{
    if n <= 0 {
        Seq::empty()
    } else if is_dir_at(facts, wanted[n - 1]) && !has_path(wanted.take(n - 1), wanted[n - 1]) {
        claims(id, wanted, root, facts, n - 1).push(ContainerModel::of_project(id, wanted[n - 1], root))
    } else {
        claims(id, wanted, root, facts, n - 1)
    }
}

/// All the containers that the wanted paths make.
pub open spec fn claimed(id: Seq<char>, wanted: Seq<PathModel>, root: PathModel, facts: Seq<FactModel>) -> Seq<
    ContainerModel,
> {
    claims(id, wanted, root, facts, wanted.len() as int)
}

pub fn claim_all(id: &'static str, wanted: &Vec<FsPath>, root: &FsPath, facts: &FileFacts) -> (r: Vec<BuildContainer>)
    ensures
        containers_view(r@) == claimed(id@, paths(wanted@), root@, facts@),
{
    let ghost want = paths(wanted@);
    let mut out: Vec<BuildContainer> = Vec::new();
    let mut i: usize = 0;
    assert(containers_view(out@) =~= claims(id@, want, root@, facts@, 0));
    while i < wanted.len()
        invariant
            i <= wanted@.len(),
            want == paths(wanted@),
            containers_view(out@) == claims(id@, want, root@, facts@, i as int),
        decreases wanted@.len() - i,
    {
        let p = &wanted[i];
        assert(want[i as int] == p@);
        if facts.is_dir(p) && !wanted_before(wanted, i) {
            push_container(&mut out, BuildContainer::project(id, p.copy(), root.copy()));
        }
        i += 1;
    }
    out
}

fn wanted_before(wanted: &Vec<FsPath>, n: usize) -> (r: bool)
    requires
        n < wanted@.len(),
    ensures
        r == has_path(paths(wanted@).take(n as int), paths(wanted@)[n as int]),
{
    let ghost want = paths(wanted@);
    let mut i: usize = 0;
    while i < n
        invariant
            i <= n < wanted@.len(),
            want == paths(wanted@),
            forall|k: int| 0 <= k < i ==> !same_path(#[trigger] want[k], want[n as int]),
        decreases n - i,
    {
        assert(want[i as int] == wanted@[i as int]@);
        if wanted[i].same(&wanted[n]) {
            assert(same_path(want.take(n as int)[i as int], want[n as int]));
            return true;
        }
        i += 1;
    }
    assert(!has_path(want.take(n as int), want[n as int]));
    false
}

/// The paths that `f` accepts, in order.
pub fn filter_paths<F: Fn(&FsPath) -> bool>(
    candidates: &Vec<FsPath>,
    f: F,
    Ghost(g): Ghost<spec_fn(PathModel) -> bool>,
) -> (r: Vec<FsPath>)
    requires
        forall|p: &FsPath| #[trigger] f.requires((p,)),
        forall|p: &FsPath, out: bool| #[trigger] f.ensures((p,), out) ==> out == g(p@),
    ensures
        paths(r@) == paths(candidates@).filter(g),
{
    let ghost all = paths(candidates@);
    let mut want: Vec<FsPath> = Vec::new();
    let mut i: usize = 0;
    assert(paths(want@) =~= all.take(0).filter(g)) by {
        reveal(Seq::filter);
    }
    while i < candidates.len()
        invariant
            i <= candidates@.len(),
            all == paths(candidates@),
            forall|p: &FsPath| #[trigger] f.requires((p,)),
            forall|p: &FsPath, out: bool| #[trigger] f.ensures((p,), out) ==> out == g(p@),
            paths(want@) == all.take(i as int).filter(g),
        decreases candidates@.len() - i,
    {
        let p = &candidates[i];
        assert(all[i as int] == p@);
        if f(p) {
            push_path(&mut want, p.copy());
        }
        proof {
            super::container::lemma_filter_step(all, g, i as int);
        }
        i += 1;
    }
    assert(all.take(i as int) =~= all);
    want
}

pub fn append_paths(list: &mut Vec<FsPath>, more: Vec<FsPath>)
    ensures
        paths(final(list)@) == paths(old(list)@) + paths(more@),
{
    let mut rest = more;
    list.append(&mut rest);
    assert(paths(list@) =~= paths(old(list)@) + paths(more@));
}

/// No paths.
pub fn no_paths() -> (r: Vec<FsPath>)
    ensures
        paths(r@) == Seq::<PathModel>::empty(),
{
    let v: Vec<FsPath> = Vec::new();
    assert(paths(v@) =~= Seq::<PathModel>::empty());
    v
}

// ---------------------------------------------------------------------
// Units of many parts
// ---------------------------------------------------------------------

/// The units of each item, one item after another.
pub open spec fn flat<T>(s: Seq<T>, f: spec_fn(T) -> Seq<UnitModel>) -> Seq<UnitModel>
    decreases s.len(),
{
    if s.len() == 0 {
        Seq::empty()
    } else {
        flat(s.drop_last(), f) + f(s.last())
    }
}

pub proof fn lemma_flat_step<T>(s: Seq<T>, f: spec_fn(T) -> Seq<UnitModel>, i: int)
    requires
        0 <= i < s.len(),
    ensures
        flat(s.take(i + 1), f) == flat(s.take(i), f) + f(s[i]),
{
    assert(s.take(i + 1).drop_last() =~= s.take(i));
}

/// The units of each directory, one directory after another.
pub fn each_dir<F: Fn(&FoldedDir) -> Vec<NestedArtifact>>(
    dirs: &Vec<&FoldedDir>,
    f: F,
    Ghost(g): Ghost<spec_fn(DirModel) -> Seq<UnitModel>>,
) -> (r: Vec<NestedArtifact>)
    requires
        forall|d: &FoldedDir| #[trigger] f.requires((d,)),
        forall|d: &FoldedDir, out: Vec<NestedArtifact>| #[trigger]
            f.ensures((d,), out) ==> units_view(out@) == g(d@),
    ensures
        units_view(r@) == flat(dir_refs(dirs@), g),
{
    let ghost rows = dir_refs(dirs@);
    let mut units: Vec<NestedArtifact> = Vec::new();
    let mut i: usize = 0;
    assert(units_view(units@) =~= flat(rows.take(0), g));
    while i < dirs.len()
        invariant
            i <= dirs@.len(),
            rows == dir_refs(dirs@),
            forall|d: &FoldedDir| #[trigger] f.requires((d,)),
            forall|d: &FoldedDir, out: Vec<NestedArtifact>| #[trigger]
                f.ensures((d,), out) ==> units_view(out@) == g(d@),
            units_view(units@) == flat(rows.take(i as int), g),
        decreases dirs@.len() - i,
    {
        let d = dirs[i];
        assert(rows[i as int] == d@);
        let more = f(d);
        append_units(&mut units, more);
        proof {
            lemma_flat_step(rows, g, i as int);
        }
        i += 1;
    }
    assert(rows.take(i as int) =~= rows);
    units
}

/// The views of a list's items.
pub open spec fn views<T: View>(s: Seq<T>) -> Seq<T::V> {
    Seq::new(s.len(), |i: int| s[i]@)
}

/// The units of each item of a list, one item after another.
pub fn each<T: View, F: Fn(&T) -> Vec<NestedArtifact>>(
    items: &Vec<T>,
    f: F,
    Ghost(g): Ghost<spec_fn(T::V) -> Seq<UnitModel>>,
) -> (r: Vec<NestedArtifact>)
    requires
        forall|d: &T| #[trigger] f.requires((d,)),
        forall|d: &T, out: Vec<NestedArtifact>| #[trigger] f.ensures((d,), out) ==> units_view(out@) == g(d@),
    ensures
        units_view(r@) == flat(views(items@), g),
{
    let ghost rows = views(items@);
    let mut units: Vec<NestedArtifact> = Vec::new();
    let mut i: usize = 0;
    assert(units_view(units@) =~= flat(rows.take(0), g));
    while i < items.len()
        invariant
            i <= items@.len(),
            rows == views(items@),
            forall|d: &T| #[trigger] f.requires((d,)),
            forall|d: &T, out: Vec<NestedArtifact>| #[trigger]
                f.ensures((d,), out) ==> units_view(out@) == g(d@),
            units_view(units@) == flat(rows.take(i as int), g),
        decreases items@.len() - i,
    {
        let d = &items[i];
        assert(rows[i as int] == d@);
        let more = f(d);
        append_units(&mut units, more);
        proof {
            lemma_flat_step(rows, g, i as int);
        }
        i += 1;
    }
    assert(rows.take(i as int) =~= rows);
    units
}

/// A list of one unit.
pub fn one(u: NestedArtifact) -> (r: Vec<NestedArtifact>)
    ensures
        units_view(r@) == seq![u@],
{
    let mut v: Vec<NestedArtifact> = Vec::new();
    v.push(u);
    assert(units_view(v@) =~= seq![u@]);
    v
}

/// No units.
pub fn no_units() -> (r: Vec<NestedArtifact>)
    ensures
        units_view(r@) == Seq::<UnitModel>::empty(),
{
    let v: Vec<NestedArtifact> = Vec::new();
    assert(units_view(v@) =~= Seq::<UnitModel>::empty());
    v
}

// ---------------------------------------------------------------------
// Tables
// ---------------------------------------------------------------------

/// One place a layout is known to have.
pub struct KnownPart {
    pub name: &'static str,
    pub role: ArtifactRole,
    pub what: &'static str,
    pub consequence: &'static str,
}

pub struct PartModel {
    pub name: Seq<char>,
    pub role: ArtifactRole,
    pub what: Seq<char>,
    pub consequence: Seq<char>,
}

impl View for KnownPart {
    type V = PartModel;

    open spec fn view(&self) -> PartModel {
        PartModel {
            name: self.name@,
            role: self.role,
            what: self.what@,
            consequence: self.consequence@,
        }
    }
}

/// The entry of a table with this name, from place `i` on.
pub open spec fn part_from(table: Seq<PartModel>, name: Seq<char>, i: int) -> Option<PartModel>
    decreases table.len() - i,
{
    if i < 0 || i >= table.len() {
        None
    } else if table[i].name == name {
        Some(table[i])
    } else {
        part_from(table, name, i + 1)
    }
}

pub open spec fn part_named(table: Seq<PartModel>, name: Seq<char>) -> Option<PartModel> {
    part_from(table, name, 0)
}

pub open spec fn opt_part(o: Option<&KnownPart>) -> Option<PartModel> {
    match o {
        Some(p) => Some(p@),
        None => None,
    }
}

pub fn find_part<'a>(table: &'a Vec<KnownPart>, name: &str) -> (r: Option<&'a KnownPart>)
    ensures
        opt_part(r) == part_named(views(table@), name@),
{
    let ghost rows = views(table@);
    let mut i: usize = 0;
    while i < table.len()
        invariant
            i <= table@.len(),
            rows == views(table@),
            part_named(rows, name@) == part_from(rows, name@, i as int),
        decreases table@.len() - i,
    {
        assert(rows[i as int] == table@[i as int]@);
        if crate::text::same(table[i].name, name) {
            return Some(&table[i]);
        }
        i += 1;
    }
    None
}

} // verus!
