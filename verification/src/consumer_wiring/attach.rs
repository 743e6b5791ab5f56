//! Attaching who uses what, both ways: to the projects that declare and depend,
//! and to the units they use.

use super::caches::{
    find_hit, fingerprint_string, fingerprint_text, hit, in_seconds, put, put_entry, CachedIdentity, Gap, GapModel,
    IdentityModel,
};
use super::matching::{
    answers_view, contributing, find_listing, found_view, holders, installed_for, installed_versions_for, listings_view,
    match_identity, names_in, resolve_declaration, resolved_evidence, whole_store, whole_store_unit, AnswerModel,
    DeclarationAnswer, EntryFound, Listing, ListingModel, StoreEntry,
};
use crate::build_stores::rows::rows_view;
use crate::build_stores::tables::{cached_view, CachedModel, CachedRows};
use crate::detectors::{
    anchored, anchored_places, detectors_view, located_view, ConventionModel, ConventionRole, Detector, DetectorModel,
    InstalledVersionNaming, Located, LocatedModel, LookupModel, ManagerConvention, Registry, RoleModel,
    StoreEntryLookup,
};
use crate::evidence::{
    consumer_fact, evidence_view, extend_facts, push_fact, Evidence, EvidenceSource, FactKind, FactModelled,
    FactSubtype, FactValue, SourceModel, StatusModel, ValueModel,
};
use crate::external::unit::{externals_view, push_external, ExternalModel, ExternalUnit};
use crate::locations::StorageCategory;
use crate::number::{decimal, write_u64};
use crate::path::{joined_path, path_text, paths, push_path, same_path, FsPath, PathModel};
use crate::report::{
    artifacts_view, copy_artifacts, copy_project, projects_view, worktrees_view, ArtifactKind, ArtifactRow,
    ArtifactRowModel, ProjectModel, ProjectRow, Report, WorktreeModel, WorktreeRow,
};
use crate::text::{
    cat2, cat3, cat7, copy_all, drop_repeats, ends, finishes, holds_text, opt_text, push_text, same, sort_texts,
    sorted_texts, texts, without_repeats,
};
use vstd::prelude::*;

verus! {

// ---------------------------------------------------------------------
// What was read
// ---------------------------------------------------------------------

/// What could not be read of a lockfile, and what is said of it: as a lockfile
/// that is none, and as a dependency without a stated version.
#[derive(Debug, Clone)]
pub struct GapAnswer {
    pub gap: Gap,
    pub invalid: Evidence,
    pub unresolved: Evidence,
}

pub struct GapAnswerModel {
    pub gap: GapModel,
    pub invalid: FactModelled,
    pub unresolved: FactModelled,
}

impl View for GapAnswer {
    type V = GapAnswerModel;

    open spec fn view(&self) -> GapAnswerModel {
        GapAnswerModel { gap: self.gap@, invalid: self.invalid@, unresolved: self.unresolved@ }
    }
}

pub open spec fn gap_answers_view(s: Seq<GapAnswer>) -> Seq<GapAnswerModel> {
    Seq::new(s.len(), |i: int| s[i]@)
}

/// What was read of a worktree.
#[derive(Debug, Clone)]
pub struct WorktreeReading {
    pub path: FsPath,
    pub declarations: Vec<DeclarationAnswer>,
    pub identities: Vec<CachedIdentity>,
    pub gaps: Vec<GapAnswer>,
}

pub struct ReadingModel {
    pub path: PathModel,
    pub declarations: Seq<AnswerModel>,
    pub identities: Seq<IdentityModel>,
    pub gaps: Seq<GapAnswerModel>,
}

impl View for WorktreeReading {
    type V = ReadingModel;

    open spec fn view(&self) -> ReadingModel {
        ReadingModel {
            path: self.path@,
            declarations: answers_view(self.declarations@),
            identities: super::caches::identities_view(self.identities@),
            gaps: gap_answers_view(self.gaps@),
        }
    }
}

pub open spec fn readings_view(s: Seq<WorktreeReading>) -> Seq<ReadingModel> {
    Seq::new(s.len(), |i: int| s[i]@)
}

/// A manager's machine-wide default, read from its file.
#[derive(Debug, Clone, PartialEq, Eq)]
pub struct DefaultReading {
    pub path: FsPath,
    pub declared: Option<String>,
    /// The installed directory the declared channel names, if any.
    pub channel_dir: Option<String>,
}

pub struct DefaultModel {
    pub path: PathModel,
    pub declared: Option<Seq<char>>,
    pub channel_dir: Option<Seq<char>>,
}

impl View for DefaultReading {
    type V = DefaultModel;

    open spec fn view(&self) -> DefaultModel {
        DefaultModel { path: self.path@, declared: opt_text(self.declared), channel_dir: opt_text(self.channel_dir) }
    }
}

pub open spec fn defaults_view(s: Seq<DefaultReading>) -> Seq<DefaultModel> {
    Seq::new(s.len(), |i: int| s[i]@)
}

/// A folder of a store of build output, and what its record says: an outcome and
/// a detail. Beside them, what is said of the folder among the projects known,
/// with the workspace its record names and without one.
#[derive(Debug, Clone)]
pub struct FolderReading {
    pub store: FsPath,
    pub name: String,
    pub record: FsPath,
    pub outcome: String,
    pub detail: String,
    pub with_workspace: Evidence,
    pub without_workspace: Evidence,
}

pub struct FolderModel {
    pub store: PathModel,
    pub name: Seq<char>,
    pub record: PathModel,
    pub outcome: Seq<char>,
    pub detail: Seq<char>,
    pub with_workspace: FactModelled,
    pub without_workspace: FactModelled,
}

impl View for FolderReading {
    type V = FolderModel;

    open spec fn view(&self) -> FolderModel {
        FolderModel {
            store: self.store@,
            name: self.name@,
            record: self.record@,
            outcome: self.outcome@,
            detail: self.detail@,
            with_workspace: self.with_workspace@,
            without_workspace: self.without_workspace@,
        }
    }
}

pub open spec fn folders_view(s: Seq<FolderReading>) -> Seq<FolderModel> {
    Seq::new(s.len(), |i: int| s[i]@)
}

/// Everything that was read for a report.
pub struct Readings<'a> {
    pub registry: &'a Registry,
    pub listings: &'a Vec<Listing>,
    pub entries: &'a Vec<StoreEntry>,
    pub worktrees: &'a Vec<WorktreeReading>,
    pub defaults: &'a Vec<DefaultReading>,
    pub folders: &'a Vec<FolderReading>,
    pub now: u64,
}

pub struct WiringModel {
    pub units: Seq<LocatedModel>,
    pub detectors: Seq<DetectorModel>,
    pub listings: Seq<ListingModel>,
    pub entries: Seq<EntryFound>,
    pub worktrees: Seq<ReadingModel>,
    pub defaults: Seq<DefaultModel>,
    pub folders: Seq<FolderModel>,
    pub now: u64,
}

impl<'a> Readings<'a> {
    pub open spec fn wiring(&self, units: Seq<LocatedModel>) -> WiringModel {
        WiringModel {
            units,
            detectors: self.registry@,
            listings: listings_view(self.listings@),
            entries: found_view(self.entries@),
            worktrees: readings_view(self.worktrees@),
            defaults: defaults_view(self.defaults@),
            folders: folders_view(self.folders@),
            now: self.now,
        }
    }
}

/// External units as the locations detectors published.
pub open spec fn as_located(units: Seq<ExternalModel>) -> Seq<LocatedModel> {
    Seq::new(
        units.len(),
        |i: int|
            LocatedModel { detector_id: units[i].detector_id, category: units[i].category, path: units[i].path },
    )
}

fn locate_units(units: &Vec<ExternalUnit>) -> (r: Vec<Located>)
    ensures
        located_view(r@) == as_located(externals_view(units@)),
        r@.len() == units@.len(),
{
    let ghost want = as_located(externals_view(units@));
    let mut out: Vec<Located> = Vec::new();
    let mut i: usize = 0;
    assert(located_view(out@) =~= want.take(0));
    while i < units.len()
        invariant
            i <= units@.len(),
            out@.len() == i,
            want == as_located(externals_view(units@)),
            located_view(out@) == want.take(i as int),
        decreases units@.len() - i,
    {
        assert(externals_view(units@)[i as int] == units@[i as int]@);
        let ghost prior = out@;
        let l = Located {
            detector_id: units[i].detector_id.as_str().to_owned(),
            category: units[i].category,
            path: units[i].path.copy(),
        };
        let ghost lm = l@;
        out.push(l);
        i += 1;
        assert(located_view(out@) =~= located_view(prior).push(lm));
        assert(located_view(out@) =~= want.take(i as int));
    }
    assert(want.take(i as int) =~= want);
    out
}

// ---------------------------------------------------------------------
// The project side
// ---------------------------------------------------------------------

pub open spec fn roots_in(list: Seq<WorktreeModel>) -> Seq<PathModel> {
    Seq::new(list.len(), |i: int| list[i].path)
}

/// The roots of every worktree of the first `n` projects.
pub open spec fn all_roots(list: Seq<ProjectModel>, n: int) -> Seq<PathModel>
    decreases n,
{
    if n <= 0 {
        Seq::empty()
    } else {
        all_roots(list, n - 1) + roots_in(list[n - 1].worktrees)
    }
}

/// The root of every worktree in a report, in order.
pub fn worktree_roots(report: &Report) -> (r: Vec<FsPath>)
    ensures
        paths(r@) == all_roots(projects_view(report.projects@), report.projects@.len() as int),
{
    let ghost all = projects_view(report.projects@);
    let mut out: Vec<FsPath> = Vec::new();
    let mut i: usize = 0;
    assert(paths(out@) =~= all_roots(all, 0));
    while i < report.projects.len()
        invariant
            i <= report.projects@.len(),
            all == projects_view(report.projects@),
            paths(out@) == all_roots(all, i as int),
        decreases report.projects@.len() - i,
    {
        let p = &report.projects[i];
        assert(all[i as int] == p@);
        let ghost before = paths(out@);
        let ghost mine = roots_in(p@.worktrees);
        let mut k: usize = 0;
        assert(before + mine.take(0) =~= before);
        while k < p.worktrees.len()
            invariant
                k <= p.worktrees@.len(),
                mine == roots_in(p@.worktrees),
                paths(out@) == before + mine.take(k as int),
            decreases p.worktrees@.len() - k,
        {
            assert(p@.worktrees[k as int] == p.worktrees@[k as int]@);
            push_path(&mut out, p.worktrees[k].path.copy());
            k += 1;
            assert(before + mine.take(k as int) =~= (before + mine.take(k - 1)).push(mine[k - 1]));
        }
        assert(mine.take(k as int) =~= mine);
        i += 1;
    }
    out
}

pub open spec fn reading_from(list: Seq<ReadingModel>, path: PathModel, i: int) -> Option<ReadingModel>
    decreases list.len() - i,
{
    if i < 0 || i >= list.len() {
        None
    } else if same_path(list[i].path, path) {
        Some(list[i])
    } else {
        reading_from(list, path, i + 1)
    }
}

pub open spec fn declaration_fact(w: WiringModel, a: AnswerModel) -> FactModelled {
    resolved_evidence(a, installed_for(a.declaration, w.units, w.detectors, w.listings))
}

pub open spec fn declaration_facts(w: WiringModel, list: Seq<AnswerModel>) -> Seq<FactModelled> {
    Seq::new(list.len(), |i: int| declaration_fact(w, list[i]))
}

/// What is said of a gap: a dependency without a stated version is another thing
/// than a lockfile that is none.
pub open spec fn gap_fact(g: GapAnswerModel) -> FactModelled {
    if finishes(g.gap.ecosystem, "-unresolved"@) {
        g.unresolved
    } else {
        g.invalid
    }
}

pub open spec fn gap_facts(list: Seq<GapAnswerModel>) -> Seq<FactModelled> {
    Seq::new(list.len(), |i: int| gap_fact(list[i]))
}

/// What is said of a worktree itself.
pub open spec fn worktree_facts(w: WiringModel, r: ReadingModel) -> Seq<FactModelled> {
    declaration_facts(w, r.declarations) + gap_facts(r.gaps)
}

/// The units the first `n` declarations use, where that is established.
pub open spec fn declared_users(w: WiringModel, list: Seq<AnswerModel>, n: int) -> Seq<usize>
    decreases n,
{
    if n <= 0 {
        Seq::empty()
    } else {
        let before = declared_users(w, list, n - 1);
        if declaration_fact(w, list[n - 1]).known() {
            before + contributing(
                list[n - 1],
                installed_for(list[n - 1].declaration, w.units, w.detectors, w.listings),
            )
        } else {
            before
        }
    }
}

/// The units that hold the first `n` packages.
pub open spec fn identity_users(w: WiringModel, list: Seq<IdentityModel>, n: int) -> Seq<usize>
    decreases n,
{
    if n <= 0 {
        Seq::empty()
    } else {
        identity_users(w, list, n - 1) + holders(
            w.units,
            w.detectors,
            list[n - 1],
            w.entries,
            w.detectors.len() as int,
        )
    }
}

/// Whether some package is of an ecosystem that a unit keeps as a whole.
pub open spec fn uses_whole(w: WiringModel, list: Seq<IdentityModel>, place: usize) -> bool {
    exists|k: int| 0 <= k < list.len() && whole_store(w.units, w.detectors, (#[trigger] list[k]).ecosystem, 0) == Some(place)
}

/// The units used as a whole among the first `n`, each once, in order.
pub open spec fn whole_users(w: WiringModel, list: Seq<IdentityModel>, n: int) -> Seq<usize>
    decreases n,
{
    if n <= 0 {
        Seq::empty()
    } else if uses_whole(w, list, (n - 1) as usize) {
        whole_users(w, list, n - 1).push((n - 1) as usize)
    } else {
        whole_users(w, list, n - 1)
    }
}

/// The units a worktree uses.
pub open spec fn worktree_users(w: WiringModel, r: ReadingModel) -> Seq<usize> {
    declared_users(w, r.declarations, r.declarations.len() as int) + identity_users(
        w,
        r.identities,
        r.identities.len() as int,
    ) + whole_users(w, r.identities, w.units.len() as int)
}

/// A worktree's artifacts with facts on its first source row.
pub open spec fn with_facts_from(rows: Seq<ArtifactRowModel>, facts: Seq<FactModelled>, i: int) -> Seq<ArtifactRowModel>
    decreases rows.len() - i,
{
    if i < 0 || i >= rows.len() {
        rows
    } else if rows[i].kind == ArtifactKind::Source {
        rows.update(i, ArtifactRowModel { evidence: rows[i].evidence + facts, ..rows[i] })
    } else {
        with_facts_from(rows, facts, i + 1)
    }
}

pub open spec fn wired_worktree(w: WiringModel, t: WorktreeModel) -> WorktreeModel {
    match reading_from(w.worktrees, t.path, 0) {
        Some(r) => WorktreeModel { artifacts: with_facts_from(t.artifacts, worktree_facts(w, r), 0), ..t },
        None => t,
    }
}

pub open spec fn wired_worktrees(w: WiringModel, list: Seq<WorktreeModel>) -> Seq<WorktreeModel> {
    Seq::new(list.len(), |i: int| wired_worktree(w, list[i]))
}

pub open spec fn wired_project(w: WiringModel, p: ProjectModel) -> ProjectModel {
    ProjectModel { worktrees: wired_worktrees(w, p.worktrees), ..p }
}

/// Projects with what is said of their worktrees.
pub open spec fn wired_projects(w: WiringModel, list: Seq<ProjectModel>) -> Seq<ProjectModel> {
    Seq::new(list.len(), |i: int| wired_project(w, list[i]))
}

pub open spec fn labelled(users: Seq<usize>, label: Seq<char>) -> Seq<(usize, Seq<char>)> {
    Seq::new(users.len(), |i: int| (users[i], label))
}

/// The uses of units by the first `n` worktrees of a project.
pub open spec fn project_uses(w: WiringModel, p: ProjectModel, n: int) -> Seq<(usize, Seq<char>)>
    decreases n,
{
    if n <= 0 {
        Seq::empty()
    } else {
        let before = project_uses(w, p, n - 1);
        match reading_from(w.worktrees, p.worktrees[n - 1].path, 0) {
            Some(r) => before + labelled(worktree_users(w, r), p.name),
            None => before,
        }
    }
}

/// The uses of units by the first `n` projects.
pub open spec fn uses(w: WiringModel, list: Seq<ProjectModel>, n: int) -> Seq<(usize, Seq<char>)>
    decreases n,
{
    if n <= 0 {
        Seq::empty()
    } else {
        uses(w, list, n - 1) + project_uses(w, list[n - 1], list[n - 1].worktrees.len() as int)
    }
}

fn find_reading<'a>(list: &'a Vec<WorktreeReading>, path: &FsPath) -> (r: Option<&'a WorktreeReading>)
    ensures
        match r {
            Some(x) => reading_from(readings_view(list@), path@, 0) == Some(x@),
            None => reading_from(readings_view(list@), path@, 0) is None,
        },
{
    let ghost all = readings_view(list@);
    let mut i: usize = 0;
    while i < list.len()
        invariant
            i <= list@.len(),
            all == readings_view(list@),
            reading_from(all, path@, 0) == reading_from(all, path@, i as int),
        decreases list@.len() - i,
    {
        assert(all[i as int] == list@[i as int]@);
        if list[i].path.same(path) {
            return Some(&list[i]);
        }
        i += 1;
    }
    None
}

fn take_declarations(x: &Readings, units: &Vec<Located>, list: &Vec<DeclarationAnswer>) -> (r: (Vec<Evidence>, Vec<usize>))
    ensures
        evidence_view(r.0@) == declaration_facts(x.wiring(located_view(units@)), answers_view(list@)),
        r.1@ == declared_users(x.wiring(located_view(units@)), answers_view(list@), list@.len() as int),
{
    let ghost w = x.wiring(located_view(units@));
    let ghost all = answers_view(list@);
    let ghost want = declaration_facts(w, all);
    let mut facts: Vec<Evidence> = Vec::new();
    let mut users: Vec<usize> = Vec::new();
    let mut i: usize = 0;
    assert(evidence_view(facts@) =~= want.take(0));
    while i < list.len()
        invariant
            i <= list@.len(),
            w == x.wiring(located_view(units@)),
            all == answers_view(list@),
            want == declaration_facts(w, all),
            evidence_view(facts@) == want.take(i as int),
            users@ == declared_users(w, all, i as int),
        decreases list@.len() - i,
    {
        let a = &list[i];
        assert(all[i as int] == a@);
        let installed = installed_versions_for(&a.declaration, units, x.registry, x.listings);
        let (e, mut mine) = resolve_declaration(a, &installed);
        if e.is_known() {
            users.append(&mut mine);
        }
        push_fact(&mut facts, e);
        i += 1;
        assert(evidence_view(facts@) =~= want.take(i as int));
    }
    assert(want.take(i as int) =~= want);
    (facts, users)
}

fn take_gaps(facts: &mut Vec<Evidence>, list: &Vec<GapAnswer>)
    ensures
        evidence_view(final(facts)@) == evidence_view(old(facts)@) + gap_facts(gap_answers_view(list@)),
{
    let ghost start = evidence_view(facts@);
    let ghost all = gap_facts(gap_answers_view(list@));
    let mut i: usize = 0;
    assert(start + all.take(0) =~= start);
    while i < list.len()
        invariant
            i <= list@.len(),
            all == gap_facts(gap_answers_view(list@)),
            evidence_view(facts@) == start + all.take(i as int),
        decreases list@.len() - i,
    {
        let g = &list[i];
        assert(gap_answers_view(list@)[i as int] == g@);
        let e = if ends(g.gap.ecosystem.as_str(), "-unresolved") {
            g.unresolved.copy()
        } else {
            g.invalid.copy()
        };
        push_fact(facts, e);
        i += 1;
        assert(start + all.take(i as int) =~= (start + all.take(i - 1)).push(all[i - 1]));
    }
    assert(all.take(i as int) =~= all);
}

fn take_identities(x: &Readings, units: &Vec<Located>, list: &Vec<CachedIdentity>) -> (r: Vec<usize>)
    ensures
        r@ == identity_users(
            x.wiring(located_view(units@)),
            super::caches::identities_view(list@),
            list@.len() as int,
        ),
{
    let ghost w = x.wiring(located_view(units@));
    let ghost all = super::caches::identities_view(list@);
    let mut out: Vec<usize> = Vec::new();
    let mut i: usize = 0;
    while i < list.len()
        invariant
            i <= list@.len(),
            w == x.wiring(located_view(units@)),
            all == super::caches::identities_view(list@),
            out@ == identity_users(w, all, i as int),
        decreases list@.len() - i,
    {
        assert(all[i as int] == list@[i as int]@);
        let mut mine = match_identity(&list[i], units, x.registry, x.entries);
        out.append(&mut mine);
        i += 1;
    }
    out
}

fn does_use_whole(x: &Readings, units: &Vec<Located>, list: &Vec<CachedIdentity>, place: usize) -> (r: bool)
    ensures
        r == uses_whole(x.wiring(located_view(units@)), super::caches::identities_view(list@), place),
{
    let ghost w = x.wiring(located_view(units@));
    let ghost all = super::caches::identities_view(list@);
    let mut i: usize = 0;
    while i < list.len()
        invariant
            i <= list@.len(),
            w == x.wiring(located_view(units@)),
            all == super::caches::identities_view(list@),
            forall|k: int|
                0 <= k < i ==> whole_store(w.units, w.detectors, (#[trigger] all[k]).ecosystem, 0) != Some(place),
        decreases list@.len() - i,
    {
        assert(all[i as int] == list@[i as int]@);
        match whole_store_unit(list[i].ecosystem.as_str(), units, x.registry) {
            Some(p) => {
                if p == place {
                    return true;
                }
            },
            None => {},
        }
        i += 1;
    }
    false
}

fn take_wholes(x: &Readings, units: &Vec<Located>, list: &Vec<CachedIdentity>) -> (r: Vec<usize>)
    ensures
        r@ == whole_users(
            x.wiring(located_view(units@)),
            super::caches::identities_view(list@),
            units@.len() as int,
        ),
{
    let ghost w = x.wiring(located_view(units@));
    let ghost all = super::caches::identities_view(list@);
    let mut out: Vec<usize> = Vec::new();
    let mut i: usize = 0;
    while i < units.len()
        invariant
            i <= units@.len(),
            w == x.wiring(located_view(units@)),
            all == super::caches::identities_view(list@),
            out@ == whole_users(w, all, i as int),
        decreases units@.len() - i,
    {
        if does_use_whole(x, units, list, i) {
            out.push(i);
        }
        i += 1;
    }
    out
}

pub open spec fn uses_view(s: Seq<(usize, String)>) -> Seq<(usize, Seq<char>)> {
    Seq::new(s.len(), |i: int| (s[i].0, s[i].1@))
}

fn push_users(log: &mut Vec<(usize, String)>, users: &Vec<usize>, label: &str)
    ensures
        uses_view(final(log)@) == uses_view(old(log)@) + labelled(users@, label@),
{
    let ghost start = uses_view(log@);
    let ghost all = labelled(users@, label@);
    let mut i: usize = 0;
    assert(start + all.take(0) =~= start);
    while i < users.len()
        invariant
            i <= users@.len(),
            all == labelled(users@, label@),
            uses_view(log@) == start + all.take(i as int),
        decreases users@.len() - i,
    {
        let ghost prior = log@;
        log.push((users[i], label.to_owned()));
        assert(uses_view(log@) =~= uses_view(prior).push((users@[i as int], label@)));
        i += 1;
        assert(start + all.take(i as int) =~= (start + all.take(i - 1)).push(all[i - 1]));
    }
    assert(all.take(i as int) =~= all);
}

fn add_facts(rows: &Vec<ArtifactRow>, facts: &Vec<Evidence>) -> (r: Vec<ArtifactRow>)
    ensures
        artifacts_view(r@) == with_facts_from(artifacts_view(rows@), evidence_view(facts@), 0),
{
    let ghost all = artifacts_view(rows@);
    let mut out = copy_artifacts(rows);
    let mut i: usize = 0;
    assert(all.len() == rows@.len());
    assert(artifacts_view(out@).len() == out@.len());
    while i < rows.len()
        invariant
            i <= rows@.len(),
            all == artifacts_view(rows@),
            all.len() == rows@.len(),
            out@.len() == rows@.len(),
            artifacts_view(out@) == all,
            with_facts_from(all, evidence_view(facts@), 0) == with_facts_from(all, evidence_view(facts@), i as int),
        decreases rows@.len() - i,
    {
        assert(all[i as int] == rows@[i as int]@);
        if rows[i].kind == ArtifactKind::Source {
            let mut evidence = crate::evidence::copy_facts(&rows[i].evidence);
            extend_facts(&mut evidence, facts);
            let row = ArtifactRow { kind: rows[i].kind, path: rows[i].path.copy(), evidence };
            let ghost rm = row@;
            out.set(i, row);
            assert(artifacts_view(out@) =~= all.update(i as int, rm));
            return out;
        }
        i += 1;
    }
    out
}

fn wire_worktree(x: &Readings, units: &Vec<Located>, t: &WorktreeRow, label: &str, log: &mut Vec<(usize, String)>) -> (r:
    WorktreeRow)
    ensures
        r@ == wired_worktree(x.wiring(located_view(units@)), t@),
        uses_view(final(log)@) == uses_view(old(log)@) + (match reading_from(
            readings_view(x.worktrees@),
            t@.path,
            0,
        ) {
            Some(rd) => labelled(worktree_users(x.wiring(located_view(units@)), rd), label@),
            None => Seq::empty(),
        }),
{
    let ghost w = x.wiring(located_view(units@));
    let ghost start = uses_view(log@);
    assert(start + Seq::<(usize, Seq<char>)>::empty() =~= start);
    assert(w.units.len() == units@.len());
    match find_reading(x.worktrees, &t.path) {
        Some(rd) => {
            let (mut facts, users) = take_declarations(x, units, &rd.declarations);
            take_gaps(&mut facts, &rd.gaps);
            let by_identity = take_identities(x, units, &rd.identities);
            let wholes = take_wholes(x, units, &rd.identities);
            assert(answers_view(rd.declarations@).len() == rd.declarations@.len());
            assert(super::caches::identities_view(rd.identities@).len() == rd.identities@.len());
            push_users(log, &users, label);
            push_users(log, &by_identity, label);
            push_users(log, &wholes, label);
            assert(uses_view(log@) =~= start + labelled(users@ + by_identity@ + wholes@, label@));
            WorktreeRow {
                worktree_id: t.worktree_id.as_str().to_owned(),
                path: t.path.copy(),
                kind: t.kind,
                artifacts: add_facts(&t.artifacts, &facts),
            }
        },
        None => WorktreeRow {
            worktree_id: t.worktree_id.as_str().to_owned(),
            path: t.path.copy(),
            kind: t.kind,
            artifacts: copy_artifacts(&t.artifacts),
        },
    }
}

fn wire_project(x: &Readings, units: &Vec<Located>, p: &ProjectRow, log: &mut Vec<(usize, String)>) -> (r: ProjectRow)
    ensures
        r@ == wired_project(x.wiring(located_view(units@)), p@),
        uses_view(final(log)@) == uses_view(old(log)@) + project_uses(
            x.wiring(located_view(units@)),
            p@,
            p@.worktrees.len() as int,
        ),
{
    let ghost w = x.wiring(located_view(units@));
    let ghost start = uses_view(log@);
    let ghost want = wired_worktrees(w, p@.worktrees);
    let mut rows: Vec<WorktreeRow> = Vec::new();
    let mut i: usize = 0;
    assert(worktrees_view(rows@) =~= want.take(0));
    assert(start + project_uses(w, p@, 0) =~= start);
    while i < p.worktrees.len()
        invariant
            i <= p.worktrees@.len(),
            w == x.wiring(located_view(units@)),
            want == wired_worktrees(w, p@.worktrees),
            worktrees_view(rows@) == want.take(i as int),
            uses_view(log@) == start + project_uses(w, p@, i as int),
        decreases p.worktrees@.len() - i,
    {
        assert(p@.worktrees[i as int] == p.worktrees@[i as int]@);
        let t = wire_worktree(x, units, &p.worktrees[i], p.name.as_str(), log);
        let ghost tm = t@;
        let ghost prior = rows@;
        rows.push(t);
        i += 1;
        assert(worktrees_view(rows@) =~= worktrees_view(prior).push(tm));
        assert(worktrees_view(rows@) =~= want.take(i as int));
        assert(uses_view(log@) =~= start + project_uses(w, p@, i as int));
    }
    assert(want.take(i as int) =~= want);
    let mut out = copy_project(p);
    out.worktrees = rows;
    out
}

/// Attaches what is said of worktrees to their source rows, and gives the uses
/// of units that follow.
pub fn attach_project_side(x: &Readings, units: &Vec<Located>, report: &mut Report) -> (r: Vec<(usize, String)>)
    ensures
        projects_view(final(report).projects@) == wired_projects(
            x.wiring(located_view(units@)),
            projects_view(old(report).projects@),
        ),
        uses_view(r@) == uses(
            x.wiring(located_view(units@)),
            projects_view(old(report).projects@),
            old(report).projects@.len() as int,
        ),
{
    let ghost w = x.wiring(located_view(units@));
    let ghost all = projects_view(report.projects@);
    let ghost want = wired_projects(w, all);
    let mut log: Vec<(usize, String)> = Vec::new();
    let mut out: Vec<ProjectRow> = Vec::new();
    let mut i: usize = 0;
    assert(uses_view(log@) =~= uses(w, all, 0));
    assert(projects_view(out@) =~= want.take(0));
    while i < report.projects.len()
        invariant
            i <= report.projects@.len(),
            w == x.wiring(located_view(units@)),
            all == projects_view(report.projects@),
            want == wired_projects(w, all),
            projects_view(out@) == want.take(i as int),
            uses_view(log@) == uses(w, all, i as int),
        decreases report.projects@.len() - i,
    {
        assert(all[i as int] == report.projects@[i as int]@);
        let p = wire_project(x, units, &report.projects[i], &mut log);
        let ghost pm = p@;
        let ghost prior = out@;
        out.push(p);
        i += 1;
        assert(projects_view(out@) =~= projects_view(prior).push(pm));
        assert(projects_view(out@) =~= want.take(i as int));
    }
    assert(want.take(i as int) =~= want);
    report.projects = out;
    log
}

/// The project side alone, with no external units to join.
pub fn attach_project_associations(report: &mut Report, x: &Readings)
    ensures
        projects_view(final(report).projects@) == wired_projects(
            x.wiring(Seq::empty()),
            projects_view(old(report).projects@),
        ),
{
    let none: Vec<Located> = Vec::new();
    assert(located_view(none@) =~= Seq::<LocatedModel>::empty());
    let uses = attach_project_side(x, &none, report);
}

// ---------------------------------------------------------------------
// The unit side: global defaults
// ---------------------------------------------------------------------

/// The first unit of a detector in a category, from place `i` on.
pub open spec fn first_place(units: Seq<LocatedModel>, id: Seq<char>, category: StorageCategory, i: int) -> Option<usize>
    decreases units.len() - i,
{
    if i < 0 || i >= units.len() {
        None
    } else if units[i].detector_id == id && units[i].category == category {
        Some(i as usize)
    } else {
        first_place(units, id, category, i + 1)
    }
}

pub open spec fn default_from(list: Seq<DefaultModel>, path: PathModel, i: int) -> Option<DefaultModel>
    decreases list.len() - i,
{
    if i < 0 || i >= list.len() {
        None
    } else if same_path(list[i].path, path) {
        Some(list[i])
    } else {
        default_from(list, path, i + 1)
    }
}

/// The installed version a machine-wide default comes to.
pub open spec fn default_match(
    declared: Seq<char>,
    channel_dir: Option<Seq<char>>,
    installed: Seq<Seq<char>>,
    naming: InstalledVersionNaming,
) -> Option<Seq<char>> {
    if installed.contains(declared) {
        Some(declared)
    } else if naming == InstalledVersionNaming::ChannelWithHostTriple {
        channel_dir
    } else {
        None
    }
}

pub open spec fn default_fact(
    manager: Seq<char>,
    file: Seq<char>,
    field: Seq<char>,
    settings: PathModel,
    declared: Seq<char>,
    matched: Option<Seq<char>>,
    now: u64,
) -> FactModelled {
    let source = SourceModel::ConfigDeclaration { path: path_text(settings) };
    let status = match matched {
        Some(name) => StatusModel::Known(ValueModel::Text(name)),
        None => StatusModel::Unknown {
            reason: manager + " "@ + field + " '"@ + declared + "' matches no installed toolchain directory"@,
        },
    };
    consumer_fact(status, source, now).noted(
        "global default ("@ + manager + " "@ + file + " "@ + field + "), not a per-project declaration"@,
    )
}

/// What a convention says of unit `i`: the machine-wide default that is
/// installed in it.
pub open spec fn default_facts_of(w: WiringModel, d: DetectorModel, c: ConventionModel, i: usize) -> Seq<FactModelled> {
    match c.role {
        RoleModel::DeclaredVersions { naming, global_default: Some((file, field)), .. } => {
            let local = first_place(w.units, d.id, StorageCategory::LocalState, 0);
            let installs = first_place(w.units, d.id, StorageCategory::Installation, 0);
            if local is Some && installs == Some(i) {
                let settings = joined_path(w.units[local->0 as int].path, file);
                match default_from(w.defaults, settings, 0) {
                    Some(r) => match r.declared {
                        Some(declared) => seq![
                            default_fact(
                                d.name,
                                file,
                                field,
                                settings,
                                declared,
                                default_match(
                                    declared,
                                    r.channel_dir,
                                    names_in(w.listings, w.units[i as int].path),
                                    naming,
                                ),
                                w.now,
                            ),
                        ],
                        None => Seq::empty(),
                    },
                    None => Seq::empty(),
                }
            } else {
                Seq::empty()
            }
        },
        _ => Seq::empty(),
    }
}

/// What a convention says of unit `i`: that it cannot be mapped to packages.
pub open spec fn content_facts_of(w: WiringModel, d: DetectorModel, c: ConventionModel, i: usize) -> Seq<FactModelled> {
    match c.role {
        RoleModel::DependencyStore { anchor, lookup: LookupModel::ContentAddressed { basis, reason } } => if anchored(
            w.units,
            d.id,
            anchor,
        ).contains(i) {
            seq![consumer_fact(StatusModel::Unknown { reason }, SourceModel::Inferred { basis }, w.now)]
        } else {
            Seq::empty()
        },
        _ => Seq::empty(),
    }
}

/// What the record of a folder says.
pub open spec fn folder_fact(f: FolderModel, now: u64) -> FactModelled {
    let e = if f.outcome == "error"@ {
        consumer_fact(
            StatusModel::Unavailable { reason: f.detail },
            SourceModel::BuildMetadata { path: path_text(f.record) },
            now,
        )
    } else if f.outcome == "workspace"@ {
        f.with_workspace
    } else {
        f.without_workspace
    };
    e.noted("DerivedData/"@ + f.name)
}

/// What the folders of a store say, of the first `n` folders.
pub open spec fn folder_facts(list: Seq<FolderModel>, store: PathModel, now: u64, n: int) -> Seq<FactModelled>
    decreases n,
{
    if n <= 0 {
        Seq::empty()
    } else if same_path(list[n - 1].store, store) {
        folder_facts(list, store, now, n - 1).push(folder_fact(list[n - 1], now))
    } else {
        folder_facts(list, store, now, n - 1)
    }
}

/// What a convention says of unit `i`: which projects its folders belong to.
pub open spec fn index_facts_of(w: WiringModel, d: DetectorModel, c: ConventionModel, i: usize) -> Seq<FactModelled> {
    match c.role {
        RoleModel::BuildOutputWorkspaceIndex { anchor } => if anchored(w.units, d.id, anchor).contains(i) {
            folder_facts(w.folders, w.units[i as int].path, w.now, w.folders.len() as int)
        } else {
            Seq::empty()
        },
        _ => Seq::empty(),
    }
}

/// The questions asked of every convention.
#[derive(Debug, Clone, Copy, PartialEq, Eq, Structural)]
pub enum Question {
    Default,
    Content,
    Index,
}

pub open spec fn facts_of(q: Question, w: WiringModel, d: DetectorModel, c: ConventionModel, i: usize) -> Seq<FactModelled> {
    match q {
        Question::Default => default_facts_of(w, d, c, i),
        Question::Content => content_facts_of(w, d, c, i),
        Question::Index => index_facts_of(w, d, c, i),
    }
}

pub open spec fn facts_in(q: Question, w: WiringModel, d: DetectorModel, i: usize, n: int) -> Seq<FactModelled>
    decreases n,
{
    if n <= 0 {
        Seq::empty()
    } else {
        facts_in(q, w, d, i, n - 1) + facts_of(q, w, d, d.manager_conventions[n - 1], i)
    }
}

/// What the catalog says of unit `i`, of the first `n` detectors.
pub open spec fn catalog_facts(q: Question, w: WiringModel, i: usize, n: int) -> Seq<FactModelled>
    decreases n,
{
    if n <= 0 {
        Seq::empty()
    } else {
        let d = w.detectors[n - 1];
        catalog_facts(q, w, i, n - 1) + facts_in(q, w, d, i, d.manager_conventions.len() as int)
    }
}

// ---------------------------------------------------------------------
// The unit side: consumers
// ---------------------------------------------------------------------

/// Who uses unit `i`, of the first `n` uses.
pub open spec fn users_of(log: Seq<(usize, Seq<char>)>, i: usize, n: int) -> Seq<Seq<char>>
    decreases n,
{
    if n <= 0 {
        Seq::empty()
    } else if log[n - 1].0 == i {
        users_of(log, i, n - 1).push(log[n - 1].1)
    } else {
        users_of(log, i, n - 1)
    }
}

/// Who uses a unit, in order, each once.
pub open spec fn labels_of(log: Seq<(usize, Seq<char>)>, i: usize) -> Seq<Seq<char>> {
    without_repeats(sorted_texts(users_of(log, i, log.len() as int)))
}

/// The fact that projects use a unit: one is named, several are listed.
pub open spec fn user_facts(labels: Seq<Seq<char>>, now: u64) -> Seq<FactModelled> {
    if labels.len() == 0 {
        Seq::empty()
    } else {
        let source = SourceModel::Inferred { basis: "toolchain declaration or dependency lockfile match"@ };
        if labels.len() == 1 {
            seq![consumer_fact(StatusModel::Known(ValueModel::Text(labels[0])), source, now)]
        } else {
            seq![
                consumer_fact(StatusModel::Known(ValueModel::List(labels)), source, now).noted(
                    "declared by more than one project; a shared reference, not an error"@,
                ),
            ]
        }
    }
}

/// Everything that is said of unit `i`.
pub open spec fn unit_facts(w: WiringModel, log: Seq<(usize, Seq<char>)>, i: usize) -> Seq<FactModelled> {
    let n = w.detectors.len() as int;
    catalog_facts(Question::Default, w, i, n) + catalog_facts(Question::Content, w, i, n) + catalog_facts(
        Question::Index,
        w,
        i,
        n,
    ) + user_facts(labels_of(log, i), w.now)
}

/// Units with everything that is said of them.
pub open spec fn wired_units(w: WiringModel, log: Seq<(usize, Seq<char>)>, units: Seq<ExternalModel>) -> Seq<ExternalModel> {
    Seq::new(
        units.len(),
        |i: int| ExternalModel { evidence: units[i].evidence + unit_facts(w, log, i as usize), ..units[i] },
    )
}

fn find_first(units: &Vec<Located>, id: &str, category: StorageCategory) -> (r: Option<usize>)
    ensures
        r == first_place(located_view(units@), id@, category, 0),
        r matches Some(p) ==> p < units@.len(),
{
    let ghost all = located_view(units@);
    let mut i: usize = 0;
    while i < units.len()
        invariant
            i <= units@.len(),
            all == located_view(units@),
            first_place(all, id@, category, 0) == first_place(all, id@, category, i as int),
        decreases units@.len() - i,
    {
        assert(all[i as int] == units@[i as int]@);
        if same(units[i].detector_id.as_str(), id) && units[i].category == category {
            return Some(i);
        }
        i += 1;
    }
    None
}

fn find_default<'a>(list: &'a Vec<DefaultReading>, path: &FsPath) -> (r: Option<&'a DefaultReading>)
    ensures
        match r {
            Some(x) => default_from(defaults_view(list@), path@, 0) == Some(x@),
            None => default_from(defaults_view(list@), path@, 0) is None,
        },
{
    let ghost all = defaults_view(list@);
    let mut i: usize = 0;
    while i < list.len()
        invariant
            i <= list@.len(),
            all == defaults_view(list@),
            default_from(all, path@, 0) == default_from(all, path@, i as int),
        decreases list@.len() - i,
    {
        assert(all[i as int] == list@[i as int]@);
        if list[i].path.same(path) {
            return Some(&list[i]);
        }
        i += 1;
    }
    None
}

fn match_default(declared: &String, channel_dir: &Option<String>, installed: &Vec<String>, naming: InstalledVersionNaming) -> (r:
    Option<String>)
    ensures
        opt_text(r) == default_match(declared@, opt_text(*channel_dir), texts(installed@), naming),
{
    if holds_text(installed, declared.as_str()) {
        Some(declared.as_str().to_owned())
    } else if naming == InstalledVersionNaming::ChannelWithHostTriple {
        crate::text::copy_opt(channel_dir)
    } else {
        None
    }
}

fn make_default_fact(
    manager: &str,
    file: &str,
    field: &str,
    settings: &FsPath,
    declared: &str,
    matched: Option<String>,
    now: u64,
) -> (r: Evidence)
    ensures
        r@ == default_fact(manager@, file@, field@, settings@, declared@, opt_text(matched), now),
{
    let source = EvidenceSource::ConfigDeclaration { path: settings.text() };
    let e = match matched {
        Some(name) => Evidence::known(
            FactKind::Consumer,
            FactSubtype::DeclaredConsumer,
            FactValue::Text(name),
            source,
            now,
        ),
        None => {
            let head = cat3(manager, " ", field);
            let reason = cat3(head.as_str(), " '", declared);
            let reason = cat2(reason.as_str(), "' matches no installed toolchain directory");
            Evidence::unknown(
                FactKind::Consumer,
                FactSubtype::DeclaredConsumer,
                source,
                now,
                reason.as_str(),
            )
        },
    };
    let note = cat7(
        "global default (",
        manager,
        " ",
        file,
        " ",
        field,
        "), not a per-project declaration",
    );
    e.with_note(note.as_str())
}

fn names_at(listings: &Vec<Listing>, path: &FsPath) -> (r: Vec<String>)
    ensures
        texts(r@) == names_in(listings_view(listings@), path@),
{
    match find_listing(listings, path) {
        Some(l) => copy_all(&l.names),
        None => {
            let none: Vec<String> = Vec::new();
            assert(texts(none@) =~= Seq::<Seq<char>>::empty());
            none
        },
    }
}

fn push_default_facts(out: &mut Vec<Evidence>, x: &Readings, units: &Vec<Located>, d: &Detector, c: &ManagerConvention, i: usize)
    requires
        i < units@.len(),
    ensures
        evidence_view(final(out)@) == evidence_view(old(out)@) + default_facts_of(
            x.wiring(located_view(units@)),
            d@,
            c@,
            i,
        ),
{
    let ghost w = x.wiring(located_view(units@));
    let ghost start = evidence_view(out@);
    assert(start + Seq::<FactModelled>::empty() =~= start);
    match &c.role {
        ConventionRole::DeclaredVersions { declaration_files, layout, naming, global_default } => {
            match global_default {
                Some(g) => {
                    let local = find_first(units, d.id, StorageCategory::LocalState);
                    let installs = find_first(units, d.id, StorageCategory::Installation);
                    match (local, installs) {
                        (Some(l), Some(p)) => {
                            if p == i {
                                assert(w.units[l as int] == units@[l as int]@);
                                assert(w.units[i as int] == units@[i as int]@);
                                let settings = units[l].path.join(g.file_name);
                                match find_default(x.defaults, &settings) {
                                    Some(r) => match &r.declared {
                                        Some(declared) => {
                                            let installed = names_at(x.listings, &units[i].path);
                                            let matched = match_default(declared, &r.channel_dir, &installed, *naming);
                                            let e = make_default_fact(
                                                d.name,
                                                g.file_name,
                                                g.field,
                                                &settings,
                                                declared.as_str(),
                                                matched,
                                                x.now,
                                            );
                                            let ghost em = e@;
                                            push_fact(out, e);
                                            assert(evidence_view(out@) =~= start + seq![em]);
                                        },
                                        None => {},
                                    },
                                    None => {},
                                }
                            }
                        },
                        _ => {},
                    }
                },
                None => {},
            }
        },
        _ => {},
    }
}

fn holds_place(list: &Vec<usize>, i: usize) -> (r: bool)
    ensures
        r == list@.contains(i),
{
    let mut k: usize = 0;
    while k < list.len()
        invariant
            k <= list@.len(),
            forall|j: int| 0 <= j < k ==> list@[j] != i,
        decreases list@.len() - k,
    {
        if list[k] == i {
            assert(list@[k as int] == i);
            return true;
        }
        k += 1;
    }
    false
}

fn push_content_facts(out: &mut Vec<Evidence>, x: &Readings, units: &Vec<Located>, d: &Detector, c: &ManagerConvention, i: usize)
    ensures
        evidence_view(final(out)@) == evidence_view(old(out)@) + content_facts_of(
            x.wiring(located_view(units@)),
            d@,
            c@,
            i,
        ),
{
    let ghost start = evidence_view(out@);
    assert(start + Seq::<FactModelled>::empty() =~= start);
    match &c.role {
        ConventionRole::DependencyStore { anchor, lookup } => match lookup {
            StoreEntryLookup::ContentAddressed { basis, reason } => {
                let places = anchored_places(units, d.id, anchor);
                if holds_place(&places, i) {
                    let e = Evidence::unknown(
                        FactKind::Consumer,
                        FactSubtype::DeclaredConsumer,
                        EvidenceSource::Inferred { basis: (*basis).to_owned() },
                        x.now,
                        reason,
                    );
                    let ghost em = e@;
                    push_fact(out, e);
                    assert(evidence_view(out@) =~= start + seq![em]);
                }
            },
            _ => {},
        },
        _ => {},
    }
}

fn make_folder_fact(f: &FolderReading, now: u64) -> (r: Evidence)
    ensures
        r@ == folder_fact(f@, now),
{
    let e = if same(f.outcome.as_str(), "error") {
        Evidence::unavailable(
            FactKind::Consumer,
            FactSubtype::DeclaredConsumer,
            EvidenceSource::BuildMetadata { path: f.record.text() },
            now,
            f.detail.as_str(),
        )
    } else if same(f.outcome.as_str(), "workspace") {
        f.with_workspace.copy()
    } else {
        f.without_workspace.copy()
    };
    let note = cat2("DerivedData/", f.name.as_str());
    e.with_note(note.as_str())
}

fn push_folder_facts(out: &mut Vec<Evidence>, list: &Vec<FolderReading>, store: &FsPath, now: u64)
    ensures
        evidence_view(final(out)@) == evidence_view(old(out)@) + folder_facts(
            folders_view(list@),
            store@,
            now,
            list@.len() as int,
        ),
{
    let ghost start = evidence_view(out@);
    let ghost all = folders_view(list@);
    let mut i: usize = 0;
    assert(start + folder_facts(all, store@, now, 0) =~= start);
    while i < list.len()
        invariant
            i <= list@.len(),
            all == folders_view(list@),
            evidence_view(out@) == start + folder_facts(all, store@, now, i as int),
        decreases list@.len() - i,
    {
        assert(all[i as int] == list@[i as int]@);
        if list[i].store.same(store) {
            push_fact(out, make_folder_fact(&list[i], now));
        }
        i += 1;
        assert(evidence_view(out@) =~= start + folder_facts(all, store@, now, i as int));
    }
}

fn push_index_facts(out: &mut Vec<Evidence>, x: &Readings, units: &Vec<Located>, d: &Detector, c: &ManagerConvention, i: usize)
    requires
        i < units@.len(),
    ensures
        evidence_view(final(out)@) == evidence_view(old(out)@) + index_facts_of(
            x.wiring(located_view(units@)),
            d@,
            c@,
            i,
        ),
{
    let ghost w = x.wiring(located_view(units@));
    let ghost start = evidence_view(out@);
    assert(start + Seq::<FactModelled>::empty() =~= start);
    assert(w.folders.len() == x.folders@.len());
    match &c.role {
        ConventionRole::BuildOutputWorkspaceIndex { anchor } => {
            let places = anchored_places(units, d.id, anchor);
            if holds_place(&places, i) {
                assert(w.units[i as int] == units@[i as int]@);
                push_folder_facts(out, x.folders, &units[i].path, x.now);
            }
        },
        _ => {},
    }
}

fn push_catalog_facts(out: &mut Vec<Evidence>, q: Question, x: &Readings, units: &Vec<Located>, i: usize)
    requires
        i < units@.len(),
    ensures
        evidence_view(final(out)@) == evidence_view(old(out)@) + catalog_facts(
            q,
            x.wiring(located_view(units@)),
            i,
            x.registry@.len() as int,
        ),
{
    let ghost w = x.wiring(located_view(units@));
    let ghost start = evidence_view(out@);
    let list = x.registry.detectors();
    assert(w.detectors.len() == list@.len());
    let mut n: usize = 0;
    assert(start + catalog_facts(q, w, i, 0) =~= start);
    while n < list.len()
        invariant
            n <= list@.len(),
            i < units@.len(),
            w == x.wiring(located_view(units@)),
            w.detectors == detectors_view(list@),
            evidence_view(out@) == start + catalog_facts(q, w, i, n as int),
        decreases list@.len() - n,
    {
        let d = &list[n];
        assert(w.detectors[n as int] == d@);
        let ghost here = evidence_view(out@);
        let mut k: usize = 0;
        assert(here + facts_in(q, w, d@, i, 0) =~= here);
        while k < d.manager_conventions.len()
            invariant
                k <= d.manager_conventions@.len(),
                i < units@.len(),
                w == x.wiring(located_view(units@)),
                evidence_view(out@) == here + facts_in(q, w, d@, i, k as int),
            decreases d.manager_conventions@.len() - k,
        {
            let c = &d.manager_conventions[k];
            assert(d@.manager_conventions[k as int] == c@);
            match q {
                Question::Default => push_default_facts(out, x, units, d, c, i),
                Question::Content => push_content_facts(out, x, units, d, c, i),
                Question::Index => push_index_facts(out, x, units, d, c, i),
            }
            k += 1;
            assert(evidence_view(out@) =~= here + facts_in(q, w, d@, i, k as int));
        }
        assert(d@.manager_conventions.len() == d.manager_conventions@.len());
        n += 1;
        assert(evidence_view(out@) =~= start + catalog_facts(q, w, i, n as int));
    }
}

fn find_users(log: &Vec<(usize, String)>, i: usize) -> (r: Vec<String>)
    ensures
        texts(r@) == users_of(uses_view(log@), i, log@.len() as int),
{
    let ghost all = uses_view(log@);
    let mut out: Vec<String> = Vec::new();
    let mut n: usize = 0;
    assert(texts(out@) =~= users_of(all, i, 0));
    while n < log.len()
        invariant
            n <= log@.len(),
            all == uses_view(log@),
            texts(out@) == users_of(all, i, n as int),
        decreases log@.len() - n,
    {
        assert(all[n as int] == (log@[n as int].0, log@[n as int].1@));
        if log[n].0 == i {
            push_text(&mut out, log[n].1.as_str());
        }
        n += 1;
    }
    out
}

fn push_user_facts(out: &mut Vec<Evidence>, log: &Vec<(usize, String)>, i: usize, now: u64)
    ensures
        evidence_view(final(out)@) == evidence_view(old(out)@) + user_facts(labels_of(uses_view(log@), i), now),
{
    let ghost start = evidence_view(out@);
    assert(start + Seq::<FactModelled>::empty() =~= start);
    assert(uses_view(log@).len() == log@.len());
    let users = find_users(log, i);
    let sorted = sort_texts(&users);
    let labels = drop_repeats(&sorted);
    assert(texts(labels@).len() == labels@.len());
    if labels.len() == 0 {
        return;
    }
    let source = EvidenceSource::Inferred { basis: "toolchain declaration or dependency lockfile match".to_owned() };
    let e = if labels.len() == 1 {
        assert(texts(labels@)[0] == labels@[0]@);
        Evidence::known(
            FactKind::Consumer,
            FactSubtype::DeclaredConsumer,
            FactValue::Text(labels[0].as_str().to_owned()),
            source,
            now,
        )
    } else {
        Evidence::known(
            FactKind::Consumer,
            FactSubtype::DeclaredConsumer,
            FactValue::List(labels),
            source,
            now,
        ).with_note("declared by more than one project; a shared reference, not an error")
    };
    let ghost em = e@;
    push_fact(out, e);
    assert(evidence_view(out@) =~= start + seq![em]);
}

/// Attaches who uses what, both ways.
pub fn attach_associations(report: &mut Report, external_units: &mut Vec<ExternalUnit>, x: &Readings)
    ensures
        projects_view(final(report).projects@) == wired_projects(
            x.wiring(as_located(externals_view(old(external_units)@))),
            projects_view(old(report).projects@),
        ),
        externals_view(final(external_units)@) == wired_units(
            x.wiring(as_located(externals_view(old(external_units)@))),
            uses(
                x.wiring(as_located(externals_view(old(external_units)@))),
                projects_view(old(report).projects@),
                old(report).projects@.len() as int,
            ),
            externals_view(old(external_units)@),
        ),
{
    let ghost all = externals_view(external_units@);
    let units = locate_units(external_units);
    let ghost w = x.wiring(as_located(all));
    let log = attach_project_side(x, &units, report);
    let ghost used = uses_view(log@);
    let ghost want = wired_units(w, used, all);
    assert(w.detectors.len() == x.registry@.len());
    let mut out: Vec<ExternalUnit> = Vec::new();
    let mut i: usize = 0;
    assert(externals_view(out@) =~= want.take(0));
    while i < external_units.len()
        invariant
            i <= external_units@.len(),
            all == externals_view(external_units@),
            units@.len() == external_units@.len(),
            w == x.wiring(located_view(units@)),
            w.detectors.len() == x.registry@.len(),
            used == uses_view(log@),
            want == wired_units(w, used, all),
            externals_view(out@) == want.take(i as int),
        decreases external_units@.len() - i,
    {
        assert(all[i as int] == external_units@[i as int]@);
        let mut u = external_units[i].copy();
        let ghost before = evidence_view(u.evidence@);
        push_catalog_facts(&mut u.evidence, Question::Default, x, &units, i);
        push_catalog_facts(&mut u.evidence, Question::Content, x, &units, i);
        push_catalog_facts(&mut u.evidence, Question::Index, x, &units, i);
        push_user_facts(&mut u.evidence, &log, i, x.now);
        assert(evidence_view(u.evidence@) =~= before + unit_facts(w, used, i));
        push_external(&mut out, u);
        i += 1;
        assert(externals_view(out@) =~= want.take(i as int));
    }
    assert(want.take(i as int) =~= want);
    *external_units = out;
}

// ---------------------------------------------------------------------
// The records of folders
// ---------------------------------------------------------------------

/// How a folder's record was read.
#[derive(Debug)]
pub enum RecordReading {
    Workspace(String),
    NoWorkspace,
    Failed(String),
}

pub open spec fn record_outcome(r: RecordReading) -> (Seq<char>, Seq<char>) {
    match r {
        RecordReading::Workspace(path) => ("workspace"@, path@),
        RecordReading::NoWorkspace => ("no-workspace"@, Seq::empty()),
        RecordReading::Failed(e) => ("error"@, e@),
    }
}

/// What a folder's record is known by: its size and its time.
pub open spec fn record_mark(len: u64, mtime: i64) -> Seq<char> {
    fingerprint_text(seq![("info.plist:"@ + decimal(len as nat), in_seconds(mtime))])
}

/// What is kept of a folder's record, while the record is as it was.
pub open spec fn kept_outcome(cache: Seq<CachedModel>, folder: PathModel, len: u64, mtime: i64) -> Option<(Seq<char>, Seq<char>)> {
    match hit(cache, path_text(folder), record_mark(len, mtime)) {
        Some(rows) => if rows.len() > 0 {
            Some((super::caches::cell(rows[0], 0), super::caches::cell(rows[0], 1)))
        } else {
            None
        },
        None => None,
    }
}

fn make_record_mark(len: u64, mtime: i64) -> (r: String)
    ensures
        r@ == record_mark(len, mtime),
{
    let n = write_u64(len);
    let name = cat2("info.plist:", n.as_str());
    let t: u64 = if mtime > 0 {
        mtime as u64
    } else {
        0
    };
    let mut list: Vec<(String, u64)> = Vec::new();
    let ghost nm = name@;
    list.push((name, t));
    assert(super::caches::stamps_view(list@) =~= seq![(nm, t)]);
    fingerprint_string(&list)
}

fn first_cells(rows: &Vec<Vec<String>>) -> (r: Option<(String, String)>)
    ensures
        match r {
            Some(p) => rows@.len() > 0 && p.0@ == super::caches::cell(rows_view(rows@)[0], 0) && p.1@
                == super::caches::cell(rows_view(rows@)[0], 1),
            None => rows@.len() == 0,
        },
{
    if rows.len() == 0 {
        return None;
    }
    let row = &rows[0];
    assert(rows_view(rows@)[0] == texts(row@));
    let a = if row.len() > 0 {
        row[0].as_str().to_owned()
    } else {
        let none = String::new();
        assert(none@ =~= Seq::<char>::empty());
        none
    };
    let b = if row.len() > 1 {
        row[1].as_str().to_owned()
    } else {
        let none = String::new();
        assert(none@ =~= Seq::<char>::empty());
        none
    };
    Some((a, b))
}

/// Whether what is kept of a folder's record still stands: nothing has to be
/// read.
pub fn record_kept(cache: &Vec<CachedRows>, folder: &FsPath, len: u64, mtime: i64) -> (r: Option<(String, String)>)
    ensures
        crate::text::pair_text(r) == kept_outcome(cached_view(cache@), folder@, len, mtime),
{
    let key = folder.text();
    let fp = make_record_mark(len, mtime);
    match find_hit(cache, key.as_str(), fp.as_str()) {
        Some(rows) => {
            assert(rows_view(rows@).len() == rows@.len());
            first_cells(rows)
        },
        None => None,
    }
}

/// What a folder's record says: what is kept, while the record is as it was, and
/// otherwise `fresh`, which is kept from now on.
pub fn workspace_outcome(
    cache: &mut Vec<CachedRows>,
    folder: &FsPath,
    len: u64,
    mtime: i64,
    fresh: &RecordReading,
) -> (r: (String, String))
    ensures
        match kept_outcome(cached_view(old(cache)@), folder@, len, mtime) {
            Some(k) => (r.0@, r.1@) == k && cached_view(final(cache)@) == cached_view(old(cache)@),
            None => (r.0@, r.1@) == record_outcome(*fresh) && cached_view(final(cache)@) == put(
                cached_view(old(cache)@),
                (CachedModel {
                    key: path_text(folder@),
                    fingerprint: record_mark(len, mtime),
                    observed_at: 0,
                    rows: seq![seq![record_outcome(*fresh).0, record_outcome(*fresh).1]],
                }),
            ),
        },
{
    match record_kept(cache, folder, len, mtime) {
        Some(pair) => {
            return pair;
        },
        None => {},
    }
    let none = String::new();
    assert(none@ =~= Seq::<char>::empty());
    let (outcome, detail): (&str, &str) = match fresh {
        RecordReading::Workspace(path) => ("workspace", path.as_str()),
        RecordReading::NoWorkspace => ("no-workspace", none.as_str()),
        RecordReading::Failed(e) => ("error", e.as_str()),
    };
    let mut row: Vec<String> = Vec::new();
    push_text(&mut row, outcome);
    push_text(&mut row, detail);
    assert(texts(row@) =~= seq![outcome@, detail@]);
    let ghost cells = texts(row@);
    let mut rows: Vec<Vec<String>> = Vec::new();
    rows.push(row);
    assert(rows_view(rows@) =~= seq![cells]);
    put_entry(
        cache,
        CachedRows { key: folder.text(), fingerprint: make_record_mark(len, mtime), observed_at: 0, rows },
    );
    (outcome.to_owned(), detail.to_owned())
}

// ---------------------------------------------------------------------
// Laws
// ---------------------------------------------------------------------

/// Associations only add evidence: which units there are, what they hold and
/// their history stay as they are.
pub proof fn law_associations_only_add_evidence(
    w: WiringModel,
    log: Seq<(usize, Seq<char>)>,
    units: Seq<ExternalModel>,
    i: int,
)
    requires
        0 <= i < units.len(),
    ensures
        wired_units(w, log, units).len() == units.len(),
        wired_units(w, log, units)[i] == (ExternalModel {
            evidence: wired_units(w, log, units)[i].evidence,
            ..units[i]
        }),
        units[i].evidence.is_prefix_of(wired_units(w, log, units)[i].evidence),
{
    let next = wired_units(w, log, units)[i].evidence;
    assert(next.take(units[i].evidence.len() as int) =~= units[i].evidence);
}

proof fn lemma_with_facts(rows: Seq<ArtifactRowModel>, facts: Seq<FactModelled>, i: int, k: int)
    requires
        0 <= i,
        0 <= k < rows.len(),
    ensures
        with_facts_from(rows, facts, i).len() == rows.len(),
        rows[k].kind != ArtifactKind::Source ==> with_facts_from(rows, facts, i)[k] == rows[k],
        with_facts_from(rows, facts, i)[k].kind == rows[k].kind,
        with_facts_from(rows, facts, i)[k].path == rows[k].path,
    decreases rows.len() - i,
{
    if i < rows.len() && rows[i].kind != ArtifactKind::Source {
        lemma_with_facts(rows, facts, i + 1, k);
    }
}

/// What is said of a worktree is attached to its source row and to no other.
pub proof fn law_only_source_rows_are_told(w: WiringModel, t: WorktreeModel, k: int)
    requires
        0 <= k < t.artifacts.len(),
        t.artifacts[k].kind != ArtifactKind::Source,
    ensures
        wired_worktree(w, t).artifacts.len() == t.artifacts.len(),
        wired_worktree(w, t).artifacts[k] == t.artifacts[k],
{
    match reading_from(w.worktrees, t.path, 0) {
        Some(r) => {
            lemma_with_facts(t.artifacts, worktree_facts(w, r), 0, k);
        },
        None => {},
    }
}

} // verus!
