//! Which directories Cargo builds to are found: each of them, and no others.

use super::layout::layout_of;
use super::roots::{
    is_root, law_each_build_directory_once, over_projects, over_rows, over_worktrees, RootsModel, SearchModel,
};
use crate::facts::{fact_of, resolved};
use crate::path::{file_name, has_path, joined_path, same_opt, same_path, PathModel};
use crate::report::{ArtifactKind, ArtifactRowModel, ProjectModel, WorktreeModel};
use vstd::prelude::*;

verus! {

/// Whether a worktree's row is a directory that Cargo builds to: the worktree has
/// a Cargo manifest or its project is a Rust one, and what was read there is a
/// directory that Cargo is configured to build to or that has the name it builds
/// to by itself.
pub open spec fn is_build_directory(s: SearchModel, p: ProjectModel, w: WorktreeModel, row: ArtifactRowModel) -> bool {
    let manifest = fact_of(s.facts, joined_path(w.path, "Cargo.toml"@));
    let there = fact_of(s.facts, row.path);
    let layout = layout_of(w.path, s.facts, s.env);
    &&& p.ecosystems.contains("rs"@) || (manifest is Some && manifest->0.is_file)
    &&& row.kind == ArtifactKind::BuildOutput
    &&& there is Some && there->0.is_dir
    &&& file_name(row.path) == Some("target"@) || same_opt(layout.target_dir, row.path) || same_opt(
        layout.build_dir,
        row.path,
    )
}

proof fn lemma_rows_grow(s: SearchModel, w: WorktreeModel, r: RootsModel, n: int, at: PathModel)
    requires
        has_path(r.seen, at),
    ensures
        has_path(over_rows(s, w, r, n).seen, at),
    decreases n,
{
    if n > 0 {
        lemma_rows_grow(s, w, r, n - 1, at);
        let before = over_rows(s, w, r, n - 1).seen;
        let k = choose|k: int| 0 <= k < before.len() && same_path(#[trigger] before[k], at);
        assert(over_rows(s, w, r, n).seen[k] == before[k]);
    }
}

proof fn lemma_worktrees_grow(s: SearchModel, p: ProjectModel, r: RootsModel, n: int, at: PathModel)
    requires
        has_path(r.seen, at),
    ensures
        has_path(over_worktrees(s, p, r, n).seen, at),
    decreases n,
{
    if n > 0 {
        lemma_worktrees_grow(s, p, r, n - 1, at);
        let w = p.worktrees[n - 1];
        lemma_rows_grow(s, w, over_worktrees(s, p, r, n - 1), w.artifacts.len() as int, at);
    }
}

proof fn lemma_row_seen(s: SearchModel, w: WorktreeModel, r: RootsModel, n: int, i: int)
    requires
        0 <= i < n <= w.artifacts.len(),
        is_root(w.artifacts[i], layout_of(w.path, s.facts, s.env), s.facts),
    ensures
        has_path(over_rows(s, w, r, n).seen, resolved(s.canonical, w.artifacts[i].path)),
    decreases n,
{
    let at = resolved(s.canonical, w.artifacts[i].path);
    let before = over_rows(s, w, r, n - 1);
    let now = over_rows(s, w, r, n);
    if i < n - 1 {
        lemma_row_seen(s, w, r, n - 1, i);
        let k = choose|k: int| 0 <= k < before.seen.len() && same_path(#[trigger] before.seen[k], at);
        assert(now.seen[k] == before.seen[k]);
    } else if !has_path(before.seen, at) {
        assert(same_path(now.seen[before.seen.len() as int], at));
    }
}

proof fn lemma_worktree_seen(s: SearchModel, p: ProjectModel, r: RootsModel, n: int, t: int, i: int)
    requires
        0 <= t < n <= p.worktrees.len(),
        0 <= i < p.worktrees[t].artifacts.len(),
        is_build_directory(s, p, p.worktrees[t], p.worktrees[t].artifacts[i]),
    ensures
        has_path(over_worktrees(s, p, r, n).seen, resolved(s.canonical, p.worktrees[t].artifacts[i].path)),
    decreases n,
{
    let w = p.worktrees[n - 1];
    let at = resolved(s.canonical, p.worktrees[t].artifacts[i].path);
    let before = over_worktrees(s, p, r, n - 1);
    if t < n - 1 {
        lemma_worktree_seen(s, p, r, n - 1, t, i);
        lemma_rows_grow(s, w, before, w.artifacts.len() as int, at);
    } else {
        lemma_row_seen(s, w, before, w.artifacts.len() as int, i);
    }
}

proof fn lemma_project_seen(s: SearchModel, list: Seq<ProjectModel>, n: int, q: int, t: int, i: int)
    requires
        0 <= q < n <= list.len(),
        0 <= t < list[q].worktrees.len(),
        0 <= i < list[q].worktrees[t].artifacts.len(),
        is_build_directory(s, list[q], list[q].worktrees[t], list[q].worktrees[t].artifacts[i]),
    ensures
        has_path(over_projects(s, list, n).seen, resolved(s.canonical, list[q].worktrees[t].artifacts[i].path)),
    decreases n,
{
    let p = list[n - 1];
    let at = resolved(s.canonical, list[q].worktrees[t].artifacts[i].path);
    let before = over_projects(s, list, n - 1);
    if q < n - 1 {
        lemma_project_seen(s, list, n - 1, q, t, i);
        lemma_worktrees_grow(s, p, before, p.worktrees.len() as int, at);
    } else {
        lemma_worktree_seen(s, p, before, p.worktrees.len() as int, t, i);
    }
}

/// Every directory that Cargo builds to is found, under the name of it that
/// comes first.
pub proof fn law_every_build_directory_is_found(s: SearchModel, list: Seq<ProjectModel>, q: int, t: int, i: int) -> (k:
    int)
    requires
        0 <= q < list.len(),
        0 <= t < list[q].worktrees.len(),
        0 <= i < list[q].worktrees[t].artifacts.len(),
        is_build_directory(s, list[q], list[q].worktrees[t], list[q].worktrees[t].artifacts[i]),
    ensures
        0 <= k < over_projects(s, list, list.len() as int).found.len(),
        same_path(
            resolved(s.canonical, over_projects(s, list, list.len() as int).found[k].0),
            resolved(s.canonical, list[q].worktrees[t].artifacts[i].path),
        ),
{
    let r = over_projects(s, list, list.len() as int);
    let at = resolved(s.canonical, list[q].worktrees[t].artifacts[i].path);
    law_each_build_directory_once(s, list, list.len() as int);
    lemma_project_seen(s, list, list.len() as int, q, t, i);
    let k = choose|k: int| 0 <= k < r.seen.len() && same_path(#[trigger] r.seen[k], at);
    assert(r.seen[k] == resolved(s.canonical, r.found[k].0));
    k
}

/// Whether row `at.1` of worktree `at.0` is a directory that Cargo builds to, found
/// as what it was found as.
pub open spec fn found_at(s: SearchModel, p: ProjectModel, at: (int, int), found: (PathModel, PathModel)) -> bool {
    &&& 0 <= at.0 < p.worktrees.len()
    &&& 0 <= at.1 < p.worktrees[at.0].artifacts.len()
    &&& is_build_directory(s, p, p.worktrees[at.0], p.worktrees[at.0].artifacts[at.1])
    &&& found.0 == p.worktrees[at.0].artifacts[at.1].path
    &&& found.1 == p.worktrees[at.0].path
}

proof fn lemma_row_source(s: SearchModel, p: ProjectModel, t: int, r: RootsModel, n: int, k: int) -> (i: int)
    requires
        0 <= t < p.worktrees.len(),
        0 <= n <= p.worktrees[t].artifacts.len(),
        super::roots::builds_with_cargo(p, p.worktrees[t], s.facts),
        r.found.len() <= k < over_rows(s, p.worktrees[t], r, n).found.len(),
    ensures
        found_at(s, p, (t, i), over_rows(s, p.worktrees[t], r, n).found[k]),
    decreases n,
{
    let w = p.worktrees[t];
    let before = over_rows(s, w, r, n - 1);
    if n > 0 && k < before.found.len() {
        lemma_row_source(s, p, t, r, n - 1, k)
    } else {
        n - 1
    }
}

proof fn lemma_rows_keep(s: SearchModel, w: WorktreeModel, r: RootsModel, n: int)
    ensures
        r.found.len() <= over_rows(s, w, r, n).found.len(),
        forall|k: int| 0 <= k < r.found.len() ==> #[trigger] over_rows(s, w, r, n).found[k] == r.found[k],
    decreases n,
{
    if n > 0 {
        lemma_rows_keep(s, w, r, n - 1);
    }
}

proof fn lemma_worktrees_keep(s: SearchModel, p: ProjectModel, r: RootsModel, n: int)
    ensures
        r.found.len() <= over_worktrees(s, p, r, n).found.len(),
        forall|k: int| 0 <= k < r.found.len() ==> #[trigger] over_worktrees(s, p, r, n).found[k] == r.found[k],
    decreases n,
{
    if n > 0 {
        lemma_worktrees_keep(s, p, r, n - 1);
        let w = p.worktrees[n - 1];
        lemma_rows_keep(s, w, over_worktrees(s, p, r, n - 1), w.artifacts.len() as int);
    }
}

proof fn lemma_worktree_source(s: SearchModel, p: ProjectModel, r: RootsModel, n: int, k: int) -> (at: (int, int))
    requires
        0 <= n <= p.worktrees.len(),
        r.found.len() <= k < over_worktrees(s, p, r, n).found.len(),
    ensures
        found_at(s, p, at, over_worktrees(s, p, r, n).found[k]),
    decreases n,
{
    let before = over_worktrees(s, p, r, n - 1);
    if n <= 0 {
        (0, 0)
    } else {
        let w = p.worktrees[n - 1];
        lemma_rows_keep(s, w, before, w.artifacts.len() as int);
        if k < before.found.len() {
            let at = lemma_worktree_source(s, p, r, n - 1, k);
            assert(over_worktrees(s, p, r, n).found[k] == before.found[k]);
            at
        } else {
            let i = lemma_row_source(s, p, n - 1, before, w.artifacts.len() as int, k);
            (n - 1, i)
        }
    }
}

/// Nothing else is found: each directory found is a row of one of the projects
/// that Cargo builds to, with the worktree it is of.
pub proof fn law_only_build_directories_are_found(s: SearchModel, list: Seq<ProjectModel>, n: int, k: int) -> (at: (
    int,
    (int, int),
))
    requires
        0 <= n <= list.len(),
        0 <= k < over_projects(s, list, n).found.len(),
    ensures
        0 <= at.0 < n,
        found_at(s, list[at.0], at.1, over_projects(s, list, n).found[k]),
    decreases n,
{
    let before = over_projects(s, list, n - 1);
    if n <= 0 {
        (0, (0, 0))
    } else {
        let p = list[n - 1];
        lemma_worktrees_keep(s, p, before, p.worktrees.len() as int);
        if k < before.found.len() {
            let at = law_only_build_directories_are_found(s, list, n - 1, k);
            assert(over_projects(s, list, n).found[k] == before.found[k]);
            at
        } else {
            (n - 1, lemma_worktree_source(s, p, before, p.worktrees.len() as int, k))
        }
    }
}

} // verus!
