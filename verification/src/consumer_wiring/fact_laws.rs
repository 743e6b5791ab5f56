//! What units and worktrees are told: who uses them, by what, and what could not
//! be told.

use super::attach::{
    default_fact, default_match, first_place, folder_fact, folder_facts, gap_fact, kept_outcome, reading_from, record_mark,
    user_facts, wired_worktree, with_facts_from, worktree_facts, FolderModel, GapAnswerModel, ReadingModel, WiringModel,
};
use super::caches::put;
use crate::build_stores::tables::CachedModel;
use crate::detectors::{InstalledVersionNaming, LocatedModel};
use crate::evidence::{FactModelled, SourceModel, StatusModel, ValueModel};
use crate::locations::StorageCategory;
use crate::path::{path_text, same_path, PathModel};
use crate::report::{ArtifactKind, ArtifactRowModel, WorktreeModel};
use crate::text::finishes;
use vstd::prelude::*;

verus! {

/// The names a fact tells.
pub open spec fn names_told(f: FactModelled) -> Seq<Seq<char>> {
    match f.status {
        StatusModel::Known(ValueModel::Text(t)) => seq![t],
        StatusModel::Known(ValueModel::List(list)) => list,
        _ => Seq::empty(),
    }
}

/// The users of a unit are told in one fact that names all of them; that there are
/// several is noted. Of a unit without users nothing is told.
pub proof fn law_all_users_are_told_in_one_fact(labels: Seq<Seq<char>>, now: u64)
    ensures
        labels.len() == 0 <==> user_facts(labels, now).len() == 0,
        labels.len() > 0 ==> {
            let f = user_facts(labels, now)[0];
            &&& user_facts(labels, now).len() == 1
            &&& names_told(f) == labels
            &&& f.observed_at == now
            &&& f.source is Inferred
            &&& f.note is Some <==> labels.len() > 1
        },
{
    if labels.len() == 1 {
        assert(seq![labels[0]] =~= labels);
    }
}

proof fn lemma_reading(list: Seq<ReadingModel>, path: PathModel, i: int, k: int)
    requires
        0 <= i <= k < list.len(),
        same_path(list[k].path, path),
        forall|j: int| i <= j < k ==> !same_path((#[trigger] list[j]).path, path),
    ensures
        reading_from(list, path, i) == Some(list[k]),
    decreases k - i,
{
    if i < k {
        assert(!same_path(list[i].path, path));
        lemma_reading(list, path, i + 1, k);
    }
}

proof fn lemma_source(rows: Seq<ArtifactRowModel>, facts: Seq<FactModelled>, i: int, k: int)
    requires
        0 <= i <= k < rows.len(),
        rows[k].kind == ArtifactKind::Source,
        forall|j: int| i <= j < k ==> (#[trigger] rows[j]).kind != ArtifactKind::Source,
    ensures
        with_facts_from(rows, facts, i).len() == rows.len(),
        with_facts_from(rows, facts, i)[k].evidence == rows[k].evidence + facts,
        forall|j: int| 0 <= j < rows.len() && j != k ==> #[trigger] with_facts_from(rows, facts, i)[j] == rows[j],
    decreases k - i,
{
    if i < k {
        assert(rows[i].kind != ArtifactKind::Source);
        lemma_source(rows, facts, i + 1, k);
    }
}

/// The first source row of a worktree is told what was read of the worktree: one
/// fact for each declaration and one for each gap, after what it was told before.
pub proof fn law_the_source_is_told_what_was_read(w: WiringModel, t: WorktreeModel, r: int, k: int)
    requires
        0 <= r < w.worktrees.len(),
        same_path(w.worktrees[r].path, t.path),
        forall|j: int| 0 <= j < r ==> !same_path((#[trigger] w.worktrees[j]).path, t.path),
        0 <= k < t.artifacts.len(),
        t.artifacts[k].kind == ArtifactKind::Source,
        forall|j: int| 0 <= j < k ==> (#[trigger] t.artifacts[j]).kind != ArtifactKind::Source,
    ensures
        ({
            let told = wired_worktree(w, t);
            let read = w.worktrees[r];
            let n = t.artifacts[k].evidence.len();
            &&& told.path == t.path
            &&& told.artifacts[k].evidence.len() == n + read.declarations.len() + read.gaps.len()
            &&& told.artifacts[k].evidence.take(n as int) == t.artifacts[k].evidence
            &&& forall|i: int|
                0 <= i < read.gaps.len() ==> #[trigger] told.artifacts[k].evidence[n + read.declarations.len() + i]
                    == told_of_gap(read.gaps[i])
            &&& forall|j: int| 0 <= j < t.artifacts.len() && j != k ==> #[trigger] told.artifacts[j] == t.artifacts[j]
        }),
{
    let read = w.worktrees[r];
    lemma_reading(w.worktrees, t.path, 0, r);
    lemma_source(t.artifacts, worktree_facts(w, read), 0, k);
    let told = wired_worktree(w, t).artifacts[k].evidence;
    let n = t.artifacts[k].evidence.len() + read.declarations.len();
    assert forall|i: int| 0 <= i < read.gaps.len() implies #[trigger] told[n + i] == told_of_gap(read.gaps[i]) by {
        lemma_gap(read.gaps[i]);
    }
    assert(told.take(t.artifacts[k].evidence.len() as int) =~= t.artifacts[k].evidence);
}

/// What is told of a gap: a dependency without a version is one that could not be
/// resolved, anything else one that could not be read.
pub open spec fn told_of_gap(g: GapAnswerModel) -> FactModelled {
    if exists|before: Seq<char>| g.gap.ecosystem == #[trigger] (before + "-unresolved"@) {
        g.unresolved
    } else {
        g.invalid
    }
}

proof fn lemma_gap(g: GapAnswerModel)
    ensures
        gap_fact(g) == told_of_gap(g),
{
    let s = g.gap.ecosystem;
    let p = "-unresolved"@;
    if finishes(s, p) {
        let before = s.take(s.len() - p.len());
        assert(s =~= before + p);
    }
    if exists|before: Seq<char>| s == #[trigger] (before + p) {
        let before = choose|before: Seq<char>| s == #[trigger] (before + p);
        assert(s.skip(s.len() - p.len()) =~= p);
    }
}

/// A global default that is installed is told by its own name; one that names a
/// channel by the directory of that channel, where directories are named so; any
/// other is told as matching nothing.
pub proof fn law_a_default_is_told_by_what_is_installed(
    manager: Seq<char>,
    file: Seq<char>,
    field: Seq<char>,
    settings: PathModel,
    declared: Seq<char>,
    channel_dir: Option<Seq<char>>,
    installed: Seq<Seq<char>>,
    naming: InstalledVersionNaming,
    now: u64,
)
    ensures
        ({
            let f = default_fact(
                manager,
                file,
                field,
                settings,
                declared,
                default_match(declared, channel_dir, installed, naming),
                now,
            );
            let by_channel = naming == InstalledVersionNaming::ChannelWithHostTriple;
            &&& installed.contains(declared) ==> names_told(f) == seq![declared]
            &&& !installed.contains(declared) && by_channel && channel_dir is Some ==> names_told(f) == seq![
                channel_dir->0,
            ]
            &&& !installed.contains(declared) && (!by_channel || channel_dir is None) ==> f.status is Unknown
            &&& f.source == SourceModel::ConfigDeclaration { path: path_text(settings) }
            &&& f.note is Some
        }),
{
}

/// A detector's first location of a category is the first, and there is none where
/// no location is of it.
pub proof fn law_the_first_location_is_the_first(units: Seq<LocatedModel>, id: Seq<char>, category: StorageCategory, i: int)
    requires
        0 <= i <= units.len() <= usize::MAX,
    ensures
        first_place(units, id, category, i) matches Some(k) ==> {
            &&& i <= k < units.len()
            &&& units[k as int].detector_id == id
            &&& units[k as int].category == category
            &&& forall|j: int| i <= j < k ==> (#[trigger] units[j]).detector_id != id || units[j].category != category
        },
        first_place(units, id, category, i) is None ==> forall|j: int|
            i <= j < units.len() ==> (#[trigger] units[j]).detector_id != id || units[j].category != category,
    decreases units.len() - i,
{
    if i < units.len() && !(units[i].detector_id == id && units[i].category == category) {
        law_the_first_location_is_the_first(units, id, category, i + 1);
    }
}

/// Whether a fact tells of a folder: that its record could not be read where it
/// could not, and with its name noted.
pub open spec fn tells_of_folder(e: FactModelled, f: FolderModel) -> bool {
    &&& e.note == Some("DerivedData/"@ + f.name)
    &&& f.outcome == "error"@ ==> e.status == (StatusModel::Unavailable { reason: f.detail })
    &&& f.outcome == "workspace"@ ==> e.status == f.with_workspace.status && e.source == f.with_workspace.source
    &&& f.outcome != "error"@ && f.outcome != "workspace"@ ==> e.status == f.without_workspace.status && e.source
        == f.without_workspace.source
}

pub open spec fn tells_of_any(e: FactModelled, list: Seq<FolderModel>, store: PathModel, n: int) -> bool {
    exists|i: int| 0 <= i < n && same_path((#[trigger] list[i]).store, store) && tells_of_folder(e, list[i])
}

/// Each folder of a store is told of in that store, and no folder of another is.
pub proof fn law_each_folder_is_told_of_in_its_store(list: Seq<FolderModel>, store: PathModel, now: u64, n: int)
    requires
        0 <= n <= list.len(),
    ensures
        forall|i: int|
            0 <= i < n && same_path((#[trigger] list[i]).store, store) ==> exists|k: int|
                0 <= k < folder_facts(list, store, now, n).len() && tells_of_folder(
                    #[trigger] folder_facts(list, store, now, n)[k],
                    list[i],
                ),
        forall|k: int|
            0 <= k < folder_facts(list, store, now, n).len() ==> tells_of_any(
                #[trigger] folder_facts(list, store, now, n)[k],
                list,
                store,
                n,
            ),
    decreases n,
{
    reveal_strlit("error");
    reveal_strlit("workspace");
    assert("error"@.len() != "workspace"@.len());
    if n > 0 {
        law_each_folder_is_told_of_in_its_store(list, store, now, n - 1);
        let before = folder_facts(list, store, now, n - 1);
        let facts = folder_facts(list, store, now, n);
        assert(tells_of_folder(folder_fact(list[n - 1], now), list[n - 1]));
        assert forall|i: int| 0 <= i < n && same_path((#[trigger] list[i]).store, store) implies exists|k: int|
            0 <= k < facts.len() && tells_of_folder(#[trigger] facts[k], list[i]) by {
            if i < n - 1 {
                let k = choose|k: int| 0 <= k < before.len() && tells_of_folder(#[trigger] before[k], list[i]);
                assert(facts[k] == before[k]);
            } else {
                assert(tells_of_folder(facts[before.len() as int], list[i]));
            }
        }
        assert forall|k: int| 0 <= k < facts.len() implies tells_of_any(#[trigger] facts[k], list, store, n) by {
            if k < before.len() {
                assert(facts[k] == before[k]);
                let i = choose|i: int|
                    0 <= i < n - 1 && same_path((#[trigger] list[i]).store, store) && tells_of_folder(before[k], list[i]);
                assert(tells_of_folder(facts[k], list[i]));
            } else {
                assert(tells_of_folder(facts[k], list[n - 1]));
            }
        }
    }
}

/// What was read of a record is kept while the record is the same, and read anew
/// where it is not.
pub proof fn law_a_record_is_kept_while_it_is_the_same(
    cache: Seq<CachedModel>,
    e: CachedModel,
    folder: PathModel,
    len: u64,
    mtime: i64,
    outcome: Seq<char>,
    detail: Seq<char>,
)
    requires
        e.key == path_text(folder),
        e.rows == seq![seq![outcome, detail]],
    ensures
        e.fingerprint == record_mark(len, mtime) ==> kept_outcome(put(cache, e), folder, len, mtime) == Some(
            (outcome, detail),
        ),
        e.fingerprint != record_mark(len, mtime) ==> kept_outcome(put(cache, e), folder, len, mtime) is None,
{
    super::caches::law_what_is_put_is_found(cache, e, e.key, e.fingerprint);
}

} // verus!
