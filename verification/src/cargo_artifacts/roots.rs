//! The Cargo build directories among what a report already observed.

use super::layout::{layout_for, layout_of, CargoEnvironment, CargoLayout, LayoutModel};
use crate::facts::{is_dir_at, is_file_at, resolved, CanonicalPaths, FactModel, FileFacts};
use crate::path::{file_name, has_path, holds_path, joined_path, opt_path, paths, push_path, same_opt, FsPath, PathModel};
use crate::report::{
    projects_view, ArtifactKind, ArtifactRowModel, ProjectModel, ProjectRow, WorktreeModel, WorktreeRow,
};
use crate::text::{holds_text, opt_is};
use vstd::prelude::*;

verus! {

/// The build directories found so far, each with its worktree, and what they
/// resolve to.
pub struct RootsModel {
    pub found: Seq<(PathModel, PathModel)>,
    pub seen: Seq<PathModel>,
}

/// What the search goes by.
pub struct SearchModel {
    pub facts: Seq<FactModel>,
    pub env: CargoEnvironment,
    pub canonical: Seq<(PathModel, PathModel)>,
}

/// Whether a directory is where Cargo builds to: configured, or named `target`.
pub open spec fn in_layout(layout: LayoutModel, path: PathModel) -> bool {
    same_opt(layout.target_dir, path) || same_opt(layout.build_dir, path) || file_name(path) == Some("target"@)
}

pub open spec fn is_root(row: ArtifactRowModel, layout: LayoutModel, facts: Seq<FactModel>) -> bool {
    row.kind == ArtifactKind::BuildOutput && is_dir_at(facts, row.path) && in_layout(layout, row.path)
}

/// Whether a worktree builds with Cargo, as far as is known.
pub open spec fn builds_with_cargo(p: ProjectModel, w: WorktreeModel, facts: Seq<FactModel>) -> bool {
    is_file_at(facts, joined_path(w.path, "Cargo.toml"@)) || p.ecosystems.contains("rs"@)
}

pub open spec fn over_row(s: SearchModel, w: WorktreeModel, row: ArtifactRowModel, r: RootsModel) -> RootsModel {
    let at = resolved(s.canonical, row.path);
    if is_root(row, layout_of(w.path, s.facts, s.env), s.facts) && !has_path(r.seen, at) {
        RootsModel { found: r.found.push((row.path, w.path)), seen: r.seen.push(at) }
    } else {
        r
    }
}

pub open spec fn over_rows(s: SearchModel, w: WorktreeModel, r: RootsModel, n: int) -> RootsModel
    decreases n,
{
    if n <= 0 {
        r
    } else {
        over_row(s, w, w.artifacts[n - 1], over_rows(s, w, r, n - 1))
    }
}

pub open spec fn over_worktrees(s: SearchModel, p: ProjectModel, r: RootsModel, n: int) -> RootsModel
    decreases n,
{
    if n <= 0 {
        r
    } else {
        let before = over_worktrees(s, p, r, n - 1);
        let w = p.worktrees[n - 1];
        if builds_with_cargo(p, w, s.facts) {
            over_rows(s, w, before, w.artifacts.len() as int)
        } else {
            before
        }
    }
}

pub open spec fn over_projects(s: SearchModel, list: Seq<ProjectModel>, n: int) -> RootsModel
    decreases n,
{
    if n <= 0 {
        RootsModel { found: Seq::empty(), seen: Seq::empty() }
    } else {
        let p = list[n - 1];
        over_worktrees(s, p, over_projects(s, list, n - 1), p.worktrees.len() as int)
    }
}

struct Roots {
    found: Vec<(FsPath, FsPath)>,
    seen: Vec<FsPath>,
}

pub open spec fn pairs_of(s: Seq<(FsPath, FsPath)>) -> Seq<(PathModel, PathModel)> {
    Seq::new(s.len(), |i: int| (s[i].0@, s[i].1@))
}

impl View for Roots {
    type V = RootsModel;

    closed spec fn view(&self) -> RootsModel {
        RootsModel { found: pairs_of(self.found@), seen: paths(self.seen@) }
    }
}

struct Search<'a> {
    facts: &'a FileFacts,
    env: &'a CargoEnvironment,
    canonical: &'a CanonicalPaths,
}

impl<'a> View for Search<'a> {
    type V = SearchModel;

    closed spec fn view(&self) -> SearchModel {
        SearchModel { facts: self.facts@, env: *self.env, canonical: self.canonical@ }
    }
}

fn is_same(o: &Option<FsPath>, path: &FsPath) -> (r: bool)
    ensures
        r == same_opt(opt_path(*o), path@),
{
    match o {
        Some(p) => p.same(path),
        None => false,
    }
}

fn lies_in_layout(layout: &CargoLayout, path: &FsPath) -> (r: bool)
    ensures
        r == in_layout(layout@, path@),
{
    if is_same(&layout.target_dir, path) || is_same(&layout.build_dir, path) {
        return true;
    }
    let name = path.file_name();
    opt_is(&name, "target")
}

fn take_rows(s: &Search, w: &WorktreeRow, r: &mut Roots)
    ensures
        final(r)@ == over_rows(s@, w@, old(r)@, w@.artifacts.len() as int),
{
    let layout = layout_for(&w.path, s.facts, s.env);
    let ghost start = r@;
    let mut i: usize = 0;
    while i < w.artifacts.len()
        invariant
            i <= w.artifacts@.len(),
            layout@ == layout_of(w@.path, s@.facts, s@.env),
            r@ == over_rows(s@, w@, start, i as int),
        decreases w.artifacts@.len() - i,
    {
        let row = &w.artifacts[i];
        assert(w@.artifacts[i as int] == row@);
        if row.kind == ArtifactKind::BuildOutput && s.facts.is_dir(&row.path) && lies_in_layout(&layout, &row.path) {
            let at = s.canonical.of(&row.path);
            if !holds_path(&r.seen, &at) {
                let ghost prior = *r;
                let ghost at_parts = at@;
                push_path(&mut r.seen, at);
                r.found.push((row.path.copy(), w.path.copy()));
                assert(pairs_of(r.found@) =~= pairs_of(prior.found@).push((row.path@, w.path@)));
            }
        }
        i += 1;
    }
}

fn take_worktrees(s: &Search, p: &ProjectRow, r: &mut Roots)
    ensures
        final(r)@ == over_worktrees(s@, p@, old(r)@, p@.worktrees.len() as int),
{
    let ghost start = r@;
    let mut i: usize = 0;
    while i < p.worktrees.len()
        invariant
            i <= p.worktrees@.len(),
            r@ == over_worktrees(s@, p@, start, i as int),
        decreases p.worktrees@.len() - i,
    {
        let w = &p.worktrees[i];
        assert(p@.worktrees[i as int] == w@);
        let manifest = w.path.join("Cargo.toml");
        if s.facts.is_file(&manifest) || holds_text(&p.ecosystems, "rs") {
            take_rows(s, w, r);
        }
        i += 1;
    }
}

/// The observed build directories, each with the worktree it was first met in.
/// A directory that resolves to one already met is passed over.
pub fn project_roots(
    projects: &Vec<ProjectRow>,
    facts: &FileFacts,
    env: &CargoEnvironment,
    canonical: &CanonicalPaths,
) -> (r: Vec<(FsPath, FsPath)>)
    ensures
        pairs_of(r@) == over_projects(
            (SearchModel { facts: facts@, env: *env, canonical: canonical@ }),
            projects_view(projects@),
            projects@.len() as int,
        ).found,
{
    let s = Search { facts, env, canonical };
    let ghost list = projects_view(projects@);
    let mut roots = Roots { found: Vec::new(), seen: Vec::new() };
    assert(pairs_of(roots.found@) =~= Seq::<(PathModel, PathModel)>::empty());
    assert(paths(roots.seen@) =~= Seq::<PathModel>::empty());
    let mut i: usize = 0;
    while i < projects.len()
        invariant
            i <= projects@.len(),
            list == projects_view(projects@),
            roots@ == over_projects(s@, list, i as int),
        decreases projects@.len() - i,
    {
        assert(list[i as int] == projects@[i as int]@);
        take_worktrees(&s, &projects[i], &mut roots);
        i += 1;
    }
    roots.found
}

// ---------------------------------------------------------------------
// Laws
// ---------------------------------------------------------------------

/// Whether what was found resolves to what was seen, each directory once.
pub open spec fn each_once(s: SearchModel, r: RootsModel) -> bool {
    &&& r.found.len() == r.seen.len()
    &&& forall|i: int| 0 <= i < r.found.len() ==> r.seen[i] == resolved(s.canonical, (#[trigger] r.found[i]).0)
    &&& r.seen.no_duplicates()
}

proof fn lemma_row_once(s: SearchModel, w: WorktreeModel, r: RootsModel, n: int)
    requires
        each_once(s, r),
    ensures
        each_once(s, over_rows(s, w, r, n)),
    decreases n,
{
    if n > 0 {
        lemma_row_once(s, w, r, n - 1);
    }
}

proof fn lemma_worktrees_once(s: SearchModel, p: ProjectModel, r: RootsModel, n: int)
    requires
        each_once(s, r),
    ensures
        each_once(s, over_worktrees(s, p, r, n)),
    decreases n,
{
    if n > 0 {
        lemma_worktrees_once(s, p, r, n - 1);
        let w = p.worktrees[n - 1];
        lemma_row_once(s, w, over_worktrees(s, p, r, n - 1), w.artifacts.len() as int);
    }
}

/// No two of the build directories found are one directory under two names.
pub proof fn law_each_build_directory_once(s: SearchModel, list: Seq<ProjectModel>, n: int)
    ensures
        each_once(s, over_projects(s, list, n)),
    decreases n,
{
    if n > 0 {
        law_each_build_directory_once(s, list, n - 1);
        let p = list[n - 1];
        lemma_worktrees_once(s, p, over_projects(s, list, n - 1), p.worktrees.len() as int);
    }
}

} // verus!
