//! The rows a report is made of, as far as the library reads and writes them.

use crate::evidence::{copy_facts, evidence_view, Evidence, FactModelled};
use crate::path::{FsPath, PathModel};
use crate::text::{cat2, copy_all, copy_opt, opt_text, texts};
use vstd::prelude::*;

verus! {

/// What a row of a worktree stands for.
#[derive(Debug, Clone, Copy, PartialEq, Eq, Structural)]
pub enum ArtifactKind {
    Source,
    BuildOutput,
    Other,
}

#[derive(Debug, Clone, PartialEq, Eq)]
pub struct ArtifactRow {
    pub kind: ArtifactKind,
    pub path: FsPath,
    pub evidence: Vec<Evidence>,
}

pub struct ArtifactRowModel {
    pub kind: ArtifactKind,
    pub path: PathModel,
    pub evidence: Seq<FactModelled>,
}

impl View for ArtifactRow {
    type V = ArtifactRowModel;

    open spec fn view(&self) -> ArtifactRowModel {
        ArtifactRowModel { kind: self.kind, path: self.path@, evidence: evidence_view(self.evidence@) }
    }
}

pub open spec fn artifacts_view(s: Seq<ArtifactRow>) -> Seq<ArtifactRowModel> {
    Seq::new(s.len(), |i: int| s[i]@)
}

/// How a checkout relates to its project.
#[derive(Debug, Clone, Copy, PartialEq, Eq, Structural)]
pub enum WorktreeKind {
    Main,
    Linked,
    Clone,
}

#[derive(Debug, Clone, PartialEq, Eq)]
pub struct WorktreeRow {
    pub worktree_id: String,
    pub path: FsPath,
    pub kind: WorktreeKind,
    pub artifacts: Vec<ArtifactRow>,
}

pub struct WorktreeModel {
    pub worktree_id: Seq<char>,
    pub path: PathModel,
    pub kind: WorktreeKind,
    pub artifacts: Seq<ArtifactRowModel>,
}

impl View for WorktreeRow {
    type V = WorktreeModel;

    open spec fn view(&self) -> WorktreeModel {
        WorktreeModel {
            worktree_id: self.worktree_id@,
            path: self.path@,
            kind: self.kind,
            artifacts: artifacts_view(self.artifacts@),
        }
    }
}

pub open spec fn worktrees_view(s: Seq<WorktreeRow>) -> Seq<WorktreeModel> {
    Seq::new(s.len(), |i: int| s[i]@)
}

#[derive(Debug, Clone, PartialEq, Eq)]
pub struct ProjectRow {
    pub project_id: String,
    pub name: String,
    pub worktrees: Vec<WorktreeRow>,
    pub ecosystems: Vec<String>,
    pub remote: Option<String>,
}

pub struct ProjectModel {
    pub project_id: Seq<char>,
    pub name: Seq<char>,
    pub worktrees: Seq<WorktreeModel>,
    pub ecosystems: Seq<Seq<char>>,
    pub remote: Option<Seq<char>>,
}

impl View for ProjectRow {
    type V = ProjectModel;

    open spec fn view(&self) -> ProjectModel {
        ProjectModel {
            project_id: self.project_id@,
            name: self.name@,
            worktrees: worktrees_view(self.worktrees@),
            ecosystems: texts(self.ecosystems@),
            remote: opt_text(self.remote),
        }
    }
}

pub open spec fn projects_view(s: Seq<ProjectRow>) -> Seq<ProjectModel> {
    Seq::new(s.len(), |i: int| s[i]@)
}

/// A report, as far as it is made of projects.
#[derive(Debug, Clone, PartialEq, Eq)]
pub struct Report {
    pub projects: Vec<ProjectRow>,
}

pub fn copy_worktrees(v: &Vec<WorktreeRow>) -> (r: Vec<WorktreeRow>)
    ensures
        worktrees_view(r@) == worktrees_view(v@),
{
    let ghost all = worktrees_view(v@);
    let mut out: Vec<WorktreeRow> = Vec::new();
    let mut i: usize = 0;
    assert(worktrees_view(out@) =~= all.take(0));
    while i < v.len()
        invariant
            i <= v@.len(),
            all == worktrees_view(v@),
            worktrees_view(out@) == all.take(i as int),
        decreases v@.len() - i,
    {
        let w = WorktreeRow {
            worktree_id: v[i].worktree_id.as_str().to_owned(),
            path: v[i].path.copy(),
            kind: v[i].kind,
            artifacts: copy_artifacts(&v[i].artifacts),
        };
        let ghost wm = w@;
        let ghost prior = out@;
        out.push(w);
        i += 1;
        assert(worktrees_view(out@) =~= worktrees_view(prior).push(wm));
        assert(worktrees_view(out@) =~= all.take(i as int));
    }
    assert(all.take(i as int) =~= all);
    out
}

pub fn copy_artifacts(v: &Vec<ArtifactRow>) -> (r: Vec<ArtifactRow>)
    ensures
        artifacts_view(r@) == artifacts_view(v@),
{
    let ghost all = artifacts_view(v@);
    let mut out: Vec<ArtifactRow> = Vec::new();
    let mut i: usize = 0;
    assert(artifacts_view(out@) =~= all.take(0));
    while i < v.len()
        invariant
            i <= v@.len(),
            all == artifacts_view(v@),
            artifacts_view(out@) == all.take(i as int),
        decreases v@.len() - i,
    {
        let a = ArtifactRow {
            kind: v[i].kind,
            path: v[i].path.copy(),
            evidence: copy_facts(&v[i].evidence),
        };
        let ghost am = a@;
        let ghost prior = out@;
        out.push(a);
        i += 1;
        assert(artifacts_view(out@) =~= artifacts_view(prior).push(am));
        assert(artifacts_view(out@) =~= all.take(i as int));
    }
    assert(all.take(i as int) =~= all);
    out
}

pub fn copy_project(p: &ProjectRow) -> (r: ProjectRow)
    ensures
        r@ == p@,
{
    ProjectRow {
        project_id: p.project_id.as_str().to_owned(),
        name: p.name.as_str().to_owned(),
        worktrees: copy_worktrees(&p.worktrees),
        ecosystems: copy_all(&p.ecosystems),
        remote: copy_opt(&p.remote),
    }
}

/// The id of what a text names: equal texts, equal ids. Its shape is this
/// library's own choice, and nothing may be read out of it.
pub open spec fn id_of(text: Seq<char>) -> Seq<char> {
    "id:"@ + text
}

pub fn id_for(text: &str) -> (r: String)
    ensures
        r@ == id_of(text@),
{
    cat2("id:", text)
}

/// Different texts have different ids.
pub proof fn law_ids_are_faithful(a: Seq<char>, b: Seq<char>)
    ensures
        id_of(a) == id_of(b) <==> a == b,
{
    if id_of(a) == id_of(b) {
        assert(a =~= id_of(a).skip("id:"@.len() as int));
        assert(b =~= id_of(b).skip("id:"@.len() as int));
    }
}

} // verus!
