//! Build containers, the measured directories under them, and the reuse of
//! what was identified in them before.

use crate::artifact::{copy_units, push_unit, storage_id, units_view, NestedArtifact, UnitModel};
use crate::locations::BuildStoreKind;
use crate::order::{before, keys_of, sort_places, stable_order};
use crate::path::{
    copy_opt_path, lemma_path_key_injective, opt_path, parent, path_key, path_less, path_of, same_opt, same_path,
    within, FsPath, PathModel,
};
use crate::text::{cat2, same};
use vstd::prelude::*;

verus! {

/// One build container an adapter has been asked to explain.
#[derive(Debug, Clone, PartialEq, Eq)]
pub struct BuildContainer {
    pub adapter_id: &'static str,
    pub path: FsPath,
    /// The checkout this container belongs to. `None` for a shared store that
    /// belongs to no single project.
    pub project_root: Option<FsPath>,
    /// Whether this container is shared across projects.
    pub shared: bool,
    /// Which kind of machine-wide store this is, when a detector declared one.
    pub store_kind: Option<BuildStoreKind>,
}

pub struct ContainerModel {
    pub adapter_id: Seq<char>,
    pub path: PathModel,
    pub project_root: Option<PathModel>,
    pub shared: bool,
    pub store_kind: Option<BuildStoreKind>,
}

impl View for BuildContainer {
    type V = ContainerModel;

    open spec fn view(&self) -> ContainerModel {
        ContainerModel {
            adapter_id: self.adapter_id@,
            path: self.path@,
            project_root: opt_path(self.project_root),
            shared: self.shared,
            store_kind: self.store_kind,
        }
    }
}

/// The name under which a manager's own last-use time is recorded.
pub const LAST_USED_EVIDENCE: &'static str = "manager-last-used";

/// What the path of a daemon's store begins with. Not a path on any platform.
pub const DAEMON_STORE_SCHEME: &'static str = "daemon-store://";

impl ContainerModel {
    pub open spec fn of_project(adapter_id: Seq<char>, path: PathModel, project_root: PathModel) -> Self {
        ContainerModel {
            adapter_id,
            path,
            project_root: Some(project_root),
            shared: false,
            store_kind: None,
        }
    }

    pub open spec fn of_store(adapter_id: Seq<char>, path: PathModel, kind: Option<BuildStoreKind>) -> Self {
        ContainerModel { adapter_id, path, project_root: None, shared: true, store_kind: kind }
    }

    pub open spec fn scope(self) -> Seq<char> {
        storage_id(self.path, Seq::empty())
    }
}

impl BuildContainer {
    pub fn project(adapter_id: &'static str, path: FsPath, project_root: FsPath) -> (r: Self)
        ensures
            r@ == ContainerModel::of_project(adapter_id@, path@, project_root@),
    {
        BuildContainer {
            adapter_id,
            path,
            project_root: Some(project_root),
            shared: false,
            store_kind: None,
        }
    }

    pub fn shared_store(adapter_id: &'static str, path: FsPath) -> (r: Self)
        ensures
            r@ == ContainerModel::of_store(adapter_id@, path@, None),
    {
        BuildContainer { adapter_id, path, project_root: None, shared: true, store_kind: None }
    }

    /// A machine-wide store a detector declared as `kind`.
    pub fn shared_store_of(adapter_id: &'static str, path: FsPath, kind: BuildStoreKind) -> (r: Self)
        ensures
            r@ == ContainerModel::of_store(adapter_id@, path@, Some(kind)),
    {
        BuildContainer { adapter_id, path, project_root: None, shared: true, store_kind: Some(kind) }
    }

    /// A store a daemon answers for. Its path is a stable name, never a place
    /// in a file system.
    pub fn daemon_store(adapter_id: &'static str, name: &str, kind: BuildStoreKind) -> (r: Self)
        ensures
            r@ == ContainerModel::of_store(
                adapter_id@,
                path_of(DAEMON_STORE_SCHEME@ + name@),
                Some(kind),
            ),
    {
        let text = cat2(DAEMON_STORE_SCHEME, name);
        BuildContainer {
            adapter_id,
            path: FsPath::parse(text.as_str()),
            project_root: None,
            shared: true,
            store_kind: Some(kind),
        }
    }

    /// The container's own storage id, which every unit inside it hangs off.
    pub fn scope(&self) -> (r: String)
        ensures
            r@ == self@.scope(),
    {
        let none = String::new();
        assert(none@ =~= Seq::<char>::empty());
        NestedArtifact::storage_id(&self.path, none.as_str())
    }

    pub fn copy(&self) -> (r: Self)
        ensures
            r@ == self@,
    {
        BuildContainer {
            adapter_id: self.adapter_id,
            path: self.path.copy(),
            project_root: copy_opt_path(&self.project_root),
            shared: self.shared,
            store_kind: self.store_kind,
        }
    }
}

pub open spec fn containers_view(s: Seq<BuildContainer>) -> Seq<ContainerModel> {
    Seq::new(s.len(), |i: int| s[i]@)
}

pub fn push_container(v: &mut Vec<BuildContainer>, c: BuildContainer)
    ensures
        containers_view(final(v)@) == containers_view(old(v)@).push(c@),
{
    let ghost m = c@;
    v.push(c);
    assert(containers_view(v@) =~= containers_view(old(v)@).push(m));
}

// ---------------------------------------------------------------------
// Measured directories
// ---------------------------------------------------------------------

/// One measured directory.
#[derive(Debug, Clone, PartialEq, Eq)]
pub struct FoldedDir {
    pub path: FsPath,
    /// This directory's own files plus every descendant's, in allocated bytes.
    pub allocated_total: u64,
    /// Newest modification among its measured entries, in seconds.
    pub mtime_max: u64,
    /// Whether all of it was read.
    pub complete: bool,
}

pub struct DirModel {
    pub path: PathModel,
    pub allocated_total: u64,
    pub mtime_max: u64,
    pub complete: bool,
}

impl View for FoldedDir {
    type V = DirModel;

    open spec fn view(&self) -> DirModel {
        DirModel {
            path: self.path@,
            allocated_total: self.allocated_total,
            mtime_max: self.mtime_max,
            complete: self.complete,
        }
    }
}

pub open spec fn dirs_view(s: Seq<FoldedDir>) -> Seq<DirModel> {
    Seq::new(s.len(), |i: int| s[i]@)
}

/// The directories a list of references stands for.
pub open spec fn dir_refs(s: Seq<&FoldedDir>) -> Seq<DirModel> {
    Seq::new(s.len(), |i: int| s[i]@)
}

impl FoldedDir {
    pub fn copy(&self) -> (r: Self)
        ensures
            r@ == self@,
    {
        FoldedDir {
            path: self.path.copy(),
            allocated_total: self.allocated_total,
            mtime_max: self.mtime_max,
            complete: self.complete,
        }
    }
}

/// The measured directories of a pass, one per path, in path order.
#[derive(Debug, Clone)]
pub struct FoldedIndex {
    dirs: Vec<FoldedDir>,
}

impl View for FoldedIndex {
    type V = Seq<DirModel>;

    closed spec fn view(&self) -> Seq<DirModel> {
        dirs_view(self.dirs@)
    }
}

/// Whether the rows are in path order without repetition.
pub open spec fn rows_ordered(rows: Seq<DirModel>) -> bool {
    forall|i: int, j: int|
        0 <= i < j < rows.len() ==> path_less(#[trigger] rows[i].path, #[trigger] rows[j].path)
}

/// The row of a path, from place `i` on.
pub open spec fn row_from(rows: Seq<DirModel>, path: PathModel, i: int) -> Option<DirModel>
    decreases rows.len() - i,
{
    if i < 0 || i >= rows.len() {
        None
    } else if same_path(rows[i].path, path) {
        Some(rows[i])
    } else {
        row_from(rows, path, i + 1)
    }
}

/// The row of a path.
pub open spec fn row_of(rows: Seq<DirModel>, path: PathModel) -> Option<DirModel> {
    row_from(rows, path, 0)
}

pub open spec fn opt_dir(o: Option<&FoldedDir>) -> Option<DirModel> {
    match o {
        Some(d) => Some(d@),
        None => None,
    }
}

/// The rows directly inside `path`, in order.
pub open spec fn child_rows(rows: Seq<DirModel>, path: PathModel) -> Seq<DirModel> {
    rows.filter(|d: DirModel| same_opt(parent(d.path), path))
}

/// The rows at or under `path`, in order.
pub open spec fn rows_under(rows: Seq<DirModel>, path: PathModel) -> Seq<DirModel> {
    rows.filter(|d: DirModel| within(d.path, path))
}

/// The last of `given` with this path.
pub open spec fn last_given(given: Seq<DirModel>, path: PathModel, n: int) -> Option<DirModel>
    decreases n,
{
    if n <= 0 {
        None
    } else if same_path(given[n - 1].path, path) {
        Some(given[n - 1])
    } else {
        last_given(given, path, n - 1)
    }
}

/// Whether `rows` are `given` in path order, the last row of a path standing
/// for it.
pub open spec fn indexes(rows: Seq<DirModel>, given: Seq<DirModel>) -> bool {
    &&& rows_ordered(rows)
    &&& forall|i: int| 0 <= i < rows.len() ==> #[trigger] row_is_last(rows, given, i)
    &&& forall|k: int| 0 <= k < given.len() ==> #[trigger] row_present(rows, given[k].path)
}

pub open spec fn row_is_last(rows: Seq<DirModel>, given: Seq<DirModel>, i: int) -> bool {
    last_given(given, rows[i].path, given.len() as int) == Some(rows[i])
}

pub open spec fn row_present(rows: Seq<DirModel>, path: PathModel) -> bool {
    exists|i: int| 0 <= i < rows.len() && same_path(#[trigger] rows[i].path, path)
}

proof fn lemma_last_given(given: Seq<DirModel>, path: PathModel, n: int, k: int)
    requires
        0 <= k < n <= given.len(),
        same_path(given[k].path, path),
        forall|j: int| k < j < n ==> !same_path(#[trigger] given[j].path, path),
    ensures
        last_given(given, path, n) == Some(given[k]),
    decreases n,
{
    if k < n - 1 {
        assert(!same_path(given[n - 1].path, path));
        lemma_last_given(given, path, n - 1, k);
    }
}

/// The rows that `given` makes in path order.
pub open spec fn indexed(given: Seq<DirModel>) -> Seq<DirModel> {
    choose|rows: Seq<DirModel>| indexes(rows, given)
}

proof fn lemma_given_path(given: Seq<DirModel>, path: PathModel, n: int)
    requires
        last_given(given, path, n) is Some,
        n <= given.len(),
    ensures
        exists|k: int| 0 <= k < given.len() && same_path(#[trigger] given[k].path, path),
    decreases n,
{
    if !same_path(given[n - 1].path, path) {
        lemma_given_path(given, path, n - 1);
    } else {
        assert(same_path(given[n - 1].path, path));
    }
}

proof fn lemma_same_last(given: Seq<DirModel>, p: PathModel, q: PathModel, n: int)
    requires
        same_path(p, q),
    ensures
        last_given(given, p, n) == last_given(given, q, n),
    decreases n,
{
    if n > 0 {
        lemma_same_last(given, p, q, n - 1);
    }
}

proof fn lemma_same_row(rows: Seq<DirModel>, p: PathModel, q: PathModel, i: int)
    requires
        same_path(p, q),
    ensures
        row_from(rows, p, i) == row_from(rows, q, i),
    decreases rows.len() - i,
{
    if 0 <= i < rows.len() {
        lemma_same_row(rows, p, q, i + 1);
    }
}

/// Where a row of one index of `given` stands in another.
proof fn lemma_row_elsewhere(a: Seq<DirModel>, b: Seq<DirModel>, given: Seq<DirModel>, i: int) -> (j: int)
    requires
        indexes(a, given),
        indexes(b, given),
        0 <= i < a.len(),
    ensures
        0 <= j < b.len(),
        b[j] == a[i],
{
    assert(row_is_last(a, given, i));
    lemma_given_path(given, a[i].path, given.len() as int);
    let k = choose|k: int| 0 <= k < given.len() && same_path(#[trigger] given[k].path, a[i].path);
    assert(row_present(b, given[k].path));
    let j = choose|j: int| 0 <= j < b.len() && same_path(#[trigger] b[j].path, given[k].path);
    assert(row_is_last(b, given, j));
    lemma_same_last(given, a[i].path, b[j].path, given.len() as int);
    j
}

proof fn lemma_same_rows(a: Seq<DirModel>, b: Seq<DirModel>, given: Seq<DirModel>, n: int)
    requires
        indexes(a, given),
        indexes(b, given),
        0 <= n <= a.len(),
    ensures
        n <= b.len(),
        forall|i: int| 0 <= i < n ==> a[i] == b[i],
    decreases n,
{
    if n > 0 {
        lemma_same_rows(a, b, given, n - 1);
        let i = n - 1;
        let j = lemma_row_elsewhere(a, b, given, i);
        if j < i {
            assert(path_less(a[j].path, a[i].path));
            crate::path::law_path_order_is_total(a[j].path, a[i].path);
        }
        if j > i {
            let k = lemma_row_elsewhere(b, a, given, i);
            assert(path_less(b[i].path, b[j].path));
            if k < i {
                assert(path_less(b[k].path, b[i].path));
                crate::path::law_path_order_is_total(b[k].path, b[i].path);
            } else if k > i {
                assert(path_less(a[i].path, a[k].path));
                crate::path::law_path_order_is_total(a[i].path, a[k].path);
            } else {
                crate::path::law_path_order_is_total(b[i].path, b[j].path);
            }
        }
    }
}

/// Given rows make one index only.
pub proof fn law_an_index_is_unique(a: Seq<DirModel>, b: Seq<DirModel>, given: Seq<DirModel>)
    requires
        indexes(a, given),
        indexes(b, given),
    ensures
        a == b,
{
    lemma_same_rows(a, b, given, a.len() as int);
    lemma_same_rows(b, a, given, b.len() as int);
    assert(a =~= b);
}

/// Every row of an index is found under its own path.
pub proof fn lemma_row_of(rows: Seq<DirModel>, k: int)
    requires
        rows_ordered(rows),
        0 <= k < rows.len(),
    ensures
        row_of(rows, rows[k].path) == Some(rows[k]),
{
    lemma_row_from(rows, k, 0);
}

proof fn lemma_row_from(rows: Seq<DirModel>, k: int, i: int)
    requires
        rows_ordered(rows),
        0 <= i <= k < rows.len(),
    ensures
        row_from(rows, rows[k].path, i) == Some(rows[k]),
    decreases k - i,
{
    if i < k {
        assert(path_less(rows[i].path, rows[k].path));
        crate::path::law_path_order_is_total(rows[i].path, rows[k].path);
        lemma_row_from(rows, k, i + 1);
    }
}

/// A row found for a path has that path.
pub proof fn lemma_row_path(rows: Seq<DirModel>, path: PathModel, i: int)
    ensures
        row_from(rows, path, i) is Some ==> same_path(row_from(rows, path, i)->0.path, path),
    decreases rows.len() - i,
{
    if 0 <= i < rows.len() && !same_path(rows[i].path, path) {
        lemma_row_path(rows, path, i + 1);
    }
}

impl FoldedIndex {
    /// An index of nothing.
    pub fn empty() -> (r: Self)
        ensures
            r@ == Seq::<DirModel>::empty(),
    {
        let r = FoldedIndex { dirs: Vec::new() };
        assert(r@ =~= Seq::<DirModel>::empty());
        r
    }

    /// Indexes the measured directories. Of two rows for one path the later
    /// stands.
    pub fn from_dirs(dirs: Vec<FoldedDir>) -> (r: Self)
        ensures
            indexes(r@, dirs_view(dirs@)),
            r@ == indexed(dirs_view(dirs@)),
    {
        let ghost given = dirs_view(dirs@);
        let mut keys: Vec<Vec<u32>> = Vec::new();
        let mut i: usize = 0;
        while i < dirs.len()
            invariant
                i <= dirs@.len(),
                keys@.len() == i,
                forall|k: int| 0 <= k < i ==> #[trigger] keys@[k]@ == path_key(dirs@[k].path@),
            decreases dirs@.len() - i,
        {
            keys.push(dirs[i].path.key());
            i += 1;
        }
        let order = sort_places(&keys);
        let ghost ks = keys_of(keys@);
        let mut out: Vec<FoldedDir> = Vec::new();
        let ghost mut from: Seq<int> = Seq::empty();
        let mut n: usize = 0;
        while n < order.len()
            invariant
                n <= order@.len(),
                order@.len() == dirs@.len(),
                dirs@.len() == keys@.len(),
                given == dirs_view(dirs@),
                ks == keys_of(keys@),
                stable_order(ks, order@),
                forall|k: int| 0 <= k < dirs@.len() ==> #[trigger] ks[k] == path_key(given[k].path),
                from.len() == out@.len(),
                picked(given, ks, order@, n as int, dirs_view(out@), from),
            decreases order@.len() - n,
        {
            let at: usize = order[n];
            let skip = n + 1 < order.len() && dirs[order[n + 1]].path.same(&dirs[at].path);
            let ghost prior = out@;
            let ghost prior_from = from;
            if !skip {
                out.push(dirs[at].copy());
                proof {
                    from = from.push(n as int);
                }
            }
            proof {
                if skip {
                    lemma_pick_skips(given, ks, order@, n as int, dirs_view(prior), prior_from);
                } else {
                    assert(dirs_view(out@) =~= dirs_view(prior).push(given[at as int]));
                    lemma_pick_takes(given, ks, order@, n as int, dirs_view(prior), prior_from);
                }
            }
            n += 1;
        }
        proof {
            lemma_picked_indexes(given, ks, order@, dirs_view(out@), from);
            law_an_index_is_unique(dirs_view(out@), indexed(given), given);
        }
        FoldedIndex { dirs: out }
    }

    pub fn get(&self, path: &FsPath) -> (r: Option<&FoldedDir>)
        ensures
            opt_dir(r) == row_of(self@, path@),
    {
        let mut i: usize = 0;
        while i < self.dirs.len()
            invariant
                i <= self.dirs@.len(),
                self@ == dirs_view(self.dirs@),
                row_of(self@, path@) == row_from(self@, path@, i as int),
            decreases self.dirs@.len() - i,
        {
            assert(self@[i as int] == self.dirs@[i as int]@);
            if self.dirs[i].path.same(path) {
                return Some(&self.dirs[i]);
            }
            i += 1;
        }
        None
    }

    /// Directories directly inside `path`, in name order.
    pub fn children(&self, path: &FsPath) -> (r: Vec<&FoldedDir>)
        ensures
            dir_refs(r@) == child_rows(self@, path@),
    {
        let ghost keep = |d: DirModel| same_opt(parent(d.path), path@);
        let mut out: Vec<&FoldedDir> = Vec::new();
        let mut i: usize = 0;
        assert(dir_refs(out@) =~= self@.take(0).filter(keep)) by {
            reveal(Seq::filter);
        }
        while i < self.dirs.len()
            invariant
                i <= self.dirs@.len(),
                self@ == dirs_view(self.dirs@),
                keep == (|d: DirModel| same_opt(parent(d.path), path@)),
                dir_refs(out@) == self@.take(i as int).filter(keep),
            decreases self.dirs@.len() - i,
        {
            let d = &self.dirs[i];
            assert(self@[i as int] == d@);
            let ghost prior = out@;
            let inside = match d.path.parent() {
                Some(p) => p.same(path),
                None => false,
            };
            if inside {
                out.push(d);
                assert(dir_refs(out@) =~= dir_refs(prior).push(d@));
            }
            proof {
                lemma_filter_step(self@, keep, i as int);
            }
            i += 1;
        }
        assert(self@.take(i as int) =~= self@);
        out
    }

    /// Every measured directory at or under `path`, in path order.
    pub fn under(&self, path: &FsPath) -> (r: Vec<&FoldedDir>)
        ensures
            dir_refs(r@) == rows_under(self@, path@),
    {
        let ghost keep = |d: DirModel| within(d.path, path@);
        let mut out: Vec<&FoldedDir> = Vec::new();
        let mut i: usize = 0;
        assert(dir_refs(out@) =~= self@.take(0).filter(keep)) by {
            reveal(Seq::filter);
        }
        while i < self.dirs.len()
            invariant
                i <= self.dirs@.len(),
                self@ == dirs_view(self.dirs@),
                keep == (|d: DirModel| within(d.path, path@)),
                dir_refs(out@) == self@.take(i as int).filter(keep),
            decreases self.dirs@.len() - i,
        {
            let d = &self.dirs[i];
            assert(self@[i as int] == d@);
            let ghost prior = out@;
            if d.path.within(path) {
                out.push(d);
                assert(dir_refs(out@) =~= dir_refs(prior).push(d@));
            }
            proof {
                lemma_filter_step(self@, keep, i as int);
            }
            i += 1;
        }
        assert(self@.take(i as int) =~= self@);
        out
    }

    pub fn is_empty(&self) -> (r: bool)
        ensures
            r == (self@.len() == 0),
    {
        self.dirs.len() == 0
    }
}

impl Default for FoldedIndex {
    fn default() -> (r: Self)
        ensures
            r@ == Seq::<DirModel>::empty(),
    {
        FoldedIndex::empty()
    }
}

/// A filter over one more row.
pub proof fn lemma_filter_step<T>(s: Seq<T>, keep: spec_fn(T) -> bool, i: int)
    requires
        0 <= i < s.len(),
    ensures
        s.take(i + 1).filter(keep) == (if keep(s[i]) {
            s.take(i).filter(keep).push(s[i])
        } else {
            s.take(i).filter(keep)
        }),
{
    reveal(Seq::filter);
    assert(s.take(i + 1).drop_last() =~= s.take(i));
}

/// Whether `out` holds, for the first `n` places of `order`, the last row of
/// each path whose run has ended; `from` says where each row came from.
spec fn picked(
    given: Seq<DirModel>,
    ks: Seq<Seq<u32>>,
    order: Seq<usize>,
    n: int,
    out: Seq<DirModel>,
    from: Seq<int>,
) -> bool {
    &&& out.len() == from.len()
    &&& forall|i: int| 0 <= i < from.len() ==> 0 <= #[trigger] from[i] < n && out[i] == given[order[from[i]] as int]
    &&& forall|i: int, j: int| 0 <= i < j < from.len() ==> #[trigger] from[i] < #[trigger] from[j]
    &&& forall|i: int|
        0 <= i < from.len() ==> run_ends(given, order, #[trigger] from[i])
    &&& forall|m: int| 0 <= m < n ==> #[trigger] run_ends(given, order, m) ==> from.contains(m)
}

/// Whether place `m` of the order is the last with its path.
spec fn run_ends(given: Seq<DirModel>, order: Seq<usize>, m: int) -> bool {
    m + 1 >= order.len() || !same_path(given[order[m + 1] as int].path, given[order[m] as int].path)
}

proof fn lemma_pick_skips(
    given: Seq<DirModel>,
    ks: Seq<Seq<u32>>,
    order: Seq<usize>,
    n: int,
    out: Seq<DirModel>,
    from: Seq<int>,
)
    requires
        0 <= n < order.len(),
        picked(given, ks, order, n, out, from),
        !run_ends(given, order, n),
    ensures
        picked(given, ks, order, n + 1, out, from),
{
}

proof fn lemma_pick_takes(
    given: Seq<DirModel>,
    ks: Seq<Seq<u32>>,
    order: Seq<usize>,
    n: int,
    out: Seq<DirModel>,
    from: Seq<int>,
)
    requires
        0 <= n < order.len(),
        picked(given, ks, order, n, out, from),
        run_ends(given, order, n),
    ensures
        picked(given, ks, order, n + 1, out.push(given[order[n] as int]), from.push(n)),
{
    let to = from.push(n);
    assert forall|m: int| 0 <= m < n + 1 && #[trigger] run_ends(given, order, m) implies to.contains(m) by {
        if m < n {
            assert(from.contains(m));
            let i = choose|i: int| 0 <= i < from.len() && from[i] == m;
            assert(to[i] == m);
        } else {
            assert(to[from.len() as int] == n);
        }
    }
}

/// In a stable order the places of one path stand together.
proof fn lemma_runs(given: Seq<DirModel>, ks: Seq<Seq<u32>>, order: Seq<usize>, a: int, m: int, b: int)
    requires
        stable_order(ks, order),
        ks.len() == given.len(),
        forall|k: int| 0 <= k < given.len() ==> #[trigger] ks[k] == path_key(given[k].path),
        0 <= a <= m <= b < order.len(),
        same_path(given[order[a] as int].path, given[order[b] as int].path),
    ensures
        same_path(given[order[m] as int].path, given[order[a] as int].path),
{
    if a < m && m < b {
        let x = order[a] as int;
        let y = order[m] as int;
        let z = order[b] as int;
        assert(before(ks, x, y));
        assert(before(ks, y, z));
        assert(ks[x] == ks[z]);
        if ks[x] != ks[y] {
            crate::order::lemma_lex_asymmetric(ks[x], ks[y]);
        }
        lemma_path_key_injective(given[x].path, given[y].path);
    }
}

/// The last place of the run that place `m` is in.
spec fn run_end(given: Seq<DirModel>, order: Seq<usize>, m: int) -> int
    decreases order.len() - m,
{
    if m < 0 || m + 1 >= order.len() || run_ends(given, order, m) {
        m
    } else {
        run_end(given, order, m + 1)
    }
}

proof fn lemma_run_end(given: Seq<DirModel>, order: Seq<usize>, m: int)
    requires
        0 <= m < order.len(),
    ensures
        m <= run_end(given, order, m) < order.len(),
        run_ends(given, order, run_end(given, order, m)),
        same_path(given[order[run_end(given, order, m)] as int].path, given[order[m] as int].path),
    decreases order.len() - m,
{
    if m + 1 < order.len() && !run_ends(given, order, m) {
        lemma_run_end(given, order, m + 1);
    }
}

proof fn lemma_picked_indexes(
    given: Seq<DirModel>,
    ks: Seq<Seq<u32>>,
    order: Seq<usize>,
    out: Seq<DirModel>,
    from: Seq<int>,
)
    requires
        picked(given, ks, order, order.len() as int, out, from),
        stable_order(ks, order),
        ks.len() == given.len(),
        forall|k: int| 0 <= k < given.len() ==> #[trigger] ks[k] == path_key(given[k].path),
    ensures
        indexes(out, given),
{
    assert forall|i: int, j: int| 0 <= i < j < out.len() implies path_less(
        #[trigger] out[i].path,
        #[trigger] out[j].path,
    ) by {
        let a = from[i];
        let b = from[j];
        assert(a < b);
        let x = order[a] as int;
        let y = order[b] as int;
        assert(before(ks, x, y));
        if ks[x] == ks[y] {
            lemma_path_key_injective(given[x].path, given[y].path);
            lemma_runs(given, ks, order, a, a + 1, b);
            assert(run_ends(given, order, a));
        }
    }
    assert forall|i: int| 0 <= i < out.len() implies #[trigger] row_is_last(out, given, i) by {
        let m = from[i];
        let x = order[m] as int;
        assert(out[i] == given[x]);
        assert(run_ends(given, order, m));
        assert forall|j: int| x < j < given.len() implies !same_path(#[trigger] given[j].path, out[i].path) by {
            if same_path(given[j].path, given[x].path) {
                assert(crate::order::place_in(order, j));
                let p = choose|p: int| 0 <= p < order.len() && order[p] == j;
                if p > m {
                    lemma_runs(given, ks, order, m, m + 1, p);
                } else if p < m {
                    assert(before(ks, j, x));
                    crate::order::lemma_lex_irreflexive(ks[x]);
                    assert(ks[j] == ks[x]);
                }
            }
        }
        lemma_last_given(given, out[i].path, given.len() as int, x);
    }
    assert forall|k: int| 0 <= k < given.len() implies #[trigger] row_present(out, given[k].path) by {
        assert(crate::order::place_in(order, k));
        let p = choose|p: int| 0 <= p < order.len() && order[p] == k;
        lemma_run_end(given, order, p);
        let e = run_end(given, order, p);
        assert(from.contains(e));
        let i = choose|i: int| 0 <= i < from.len() && from[i] == e;
        assert(same_path(out[i].path, given[k].path));
    }
}

/// Two indexes of the same rows are equal: the contents and the order are
/// fixed by what was given.
pub proof fn law_an_index_is_fixed_by_its_rows(a: Seq<DirModel>, b: Seq<DirModel>, given: Seq<DirModel>)
    requires
        indexes(a, given),
        indexes(b, given),
    ensures
        forall|p: PathModel| row_of(a, p) == row_of(b, p),
{
    assert forall|p: PathModel| row_of(a, p) == row_of(b, p) by {
        lemma_row_is_last_given(a, given, p);
        lemma_row_is_last_given(b, given, p);
    }
}

/// What an index finds for a path is the last row given for it.
pub proof fn lemma_row_is_last_given(rows: Seq<DirModel>, given: Seq<DirModel>, p: PathModel)
    requires
        indexes(rows, given),
    ensures
        row_of(rows, p) == last_given(given, p, given.len() as int),
{
    if row_present(rows, p) {
        let i = choose|i: int| 0 <= i < rows.len() && same_path(#[trigger] rows[i].path, p);
        lemma_row_of(rows, i);
        assert(row_is_last(rows, given, i));
        lemma_same_row(rows, rows[i].path, p, 0);
        lemma_same_last(given, rows[i].path, p, given.len() as int);
    } else {
        lemma_no_row(rows, p, 0);
        lemma_not_given(rows, given, p, given.len() as int);
    }
}

proof fn lemma_no_row(rows: Seq<DirModel>, p: PathModel, i: int)
    requires
        !row_present(rows, p),
        0 <= i <= rows.len(),
    ensures
        row_from(rows, p, i) is None,
    decreases rows.len() - i,
{
    if i < rows.len() {
        assert(!same_path(rows[i].path, p));
        lemma_no_row(rows, p, i + 1);
    }
}

proof fn lemma_not_given(rows: Seq<DirModel>, given: Seq<DirModel>, p: PathModel, n: int)
    requires
        indexes(rows, given),
        !row_present(rows, p),
        0 <= n <= given.len(),
    ensures
        last_given(given, p, n) is None,
    decreases n,
{
    if n > 0 {
        assert(row_present(rows, given[n - 1].path));
        lemma_not_given(rows, given, p, n - 1);
    }
}

// ---------------------------------------------------------------------
// Reuse
// ---------------------------------------------------------------------

/// What was identified in one container, and when it was last verified.
#[derive(Debug, Clone)]
pub struct CacheEntry {
    pub scope: String,
    pub stored_at: u64,
    pub units: Vec<NestedArtifact>,
}

pub struct EntryStored {
    pub scope: Seq<char>,
    pub stored_at: u64,
    pub units: Seq<UnitModel>,
}

impl View for CacheEntry {
    type V = EntryStored;

    open spec fn view(&self) -> EntryStored {
        EntryStored { scope: self.scope@, stored_at: self.stored_at, units: units_view(self.units@) }
    }
}

/// Previously identified units, by container.
#[derive(Debug, Clone)]
pub struct ContainerCache {
    entries: Vec<CacheEntry>,
    enabled: bool,
}

pub struct CacheModel {
    pub entries: Seq<EntryStored>,
    pub enabled: bool,
}

impl View for ContainerCache {
    type V = CacheModel;

    closed spec fn view(&self) -> CacheModel {
        CacheModel {
            entries: Seq::new(self.entries@.len(), |i: int| self.entries@[i]@),
            enabled: self.enabled,
        }
    }
}

/// The entry of a container among the first `n`: the last one written.
pub open spec fn entry_of(entries: Seq<EntryStored>, scope: Seq<char>, n: int) -> Option<EntryStored>
    decreases n,
{
    if n <= 0 || n > entries.len() {
        None
    } else if entries[n - 1].scope == scope {
        Some(entries[n - 1])
    } else {
        entry_of(entries, scope, n - 1)
    }
}

/// The entries with a container's own, among the first `n`, verified again at
/// `at`.
pub open spec fn stamped_upto(entries: Seq<EntryStored>, scope: Seq<char>, at: u64, n: int) -> Seq<EntryStored>
    decreases n,
{
    if n <= 0 || n > entries.len() {
        entries
    } else if entries[n - 1].scope == scope {
        entries.update(n - 1, EntryStored { stored_at: at, ..entries[n - 1] })
    } else {
        stamped_upto(entries, scope, at, n - 1)
    }
}

impl CacheModel {
    pub open spec fn entry(self, scope: Seq<char>) -> Option<EntryStored> {
        entry_of(self.entries, scope, self.entries.len() as int)
    }

    /// The cache with a container's entry verified again at `at`.
    pub open spec fn stamped(self, scope: Seq<char>, at: u64) -> CacheModel {
        CacheModel { entries: stamped_upto(self.entries, scope, at, self.entries.len() as int), ..self }
    }
}

/// The container a unit belongs to: the one it names, or itself.
pub open spec fn group_of(u: UnitModel) -> Seq<char> {
    match u.container_id {
        Some(c) => c,
        None => u.id,
    }
}

fn group_key(u: &NestedArtifact) -> (r: String)
    ensures
        r@ == group_of(u@),
{
    match &u.container_id {
        Some(c) => c.clone(),
        None => u.id.clone(),
    }
}

/// The entries that lists of units make: one for each list that has units,
/// under the container of its first unit. A list without units does not say
/// which container it is of.
pub open spec fn container_entries(given: Seq<(u64, Seq<UnitModel>)>, n: int) -> Seq<EntryStored>
    decreases n,
{
    if n <= 0 {
        Seq::empty()
    } else if given[n - 1].1.len() == 0 {
        container_entries(given, n - 1)
    } else {
        container_entries(given, n - 1).push(
            EntryStored {
                scope: group_of(given[n - 1].1[0]),
                stored_at: given[n - 1].0,
                units: given[n - 1].1,
            },
        )
    }
}

pub open spec fn cache_entries(s: Seq<CacheEntry>) -> Seq<EntryStored> {
    Seq::new(s.len(), |i: int| s[i]@)
}

pub open spec fn stored_view(s: Seq<(u64, Vec<NestedArtifact>)>) -> Seq<(u64, Seq<UnitModel>)> {
    Seq::new(s.len(), |i: int| (s[i].0, units_view(s[i].1@)))
}

/// The units of a report that belong to one container, in order.
pub open spec fn grouped(units: Seq<UnitModel>, scope: Seq<char>) -> Seq<UnitModel> {
    units.filter(|u: UnitModel| group_of(u) == scope)
}

/// Whether the entries are exactly the groups of `units`, each verified at
/// `stored_at`.
pub open spec fn groups_stored(cache: CacheModel, units: Seq<UnitModel>, stored_at: u64) -> bool {
    forall|scope: Seq<char>| #[trigger] cache.entry(scope) == group_entry(units, scope, stored_at)
}

pub open spec fn group_entry(units: Seq<UnitModel>, scope: Seq<char>, stored_at: u64) -> Option<EntryStored> {
    if grouped(units, scope).len() == 0 {
        None
    } else {
        Some(EntryStored { scope, stored_at, units: grouped(units, scope) })
    }
}

impl ContainerCache {
    /// A cache nothing can be replayed from.
    pub fn disabled() -> (r: Self)
        ensures
            r@.enabled == false,
            r@.entries.len() == 0,
    {
        ContainerCache { entries: Vec::new(), enabled: false }
    }

    /// Seeds the cache from stored containers, each under its own scope with the
    /// observation that last verified it. A container in which nothing was
    /// identified is an answer to replay like any other.
    pub fn from_stored(entries: Vec<CacheEntry>) -> (r: Self)
        ensures
            r@ == (CacheModel { entries: cache_entries(entries@), enabled: true }),
    {
        let r = ContainerCache { entries, enabled: true };
        assert(r@.entries =~= cache_entries(entries@));
        r
    }

    pub fn copy(&self) -> (r: Self)
        ensures
            r@ == self@,
    {
        let ghost all = self@.entries;
        let mut entries: Vec<CacheEntry> = Vec::new();
        let mut i: usize = 0;
        assert(cache_entries(entries@) =~= all.take(0));
        while i < self.entries.len()
            invariant
                i <= self.entries@.len(),
                all == self@.entries,
                all.len() == self.entries@.len(),
                cache_entries(entries@) == all.take(i as int),
            decreases self.entries@.len() - i,
        {
            let e = &self.entries[i];
            assert(all[i as int] == e@);
            let c = CacheEntry {
                scope: e.scope.as_str().to_owned(),
                stored_at: e.stored_at,
                units: copy_units(&e.units),
            };
            let ghost cm = c@;
            let ghost prior = entries@;
            entries.push(c);
            i += 1;
            assert(cache_entries(entries@) =~= cache_entries(prior).push(cm));
            assert(cache_entries(entries@) =~= all.take(i as int));
        }
        let r = ContainerCache { entries, enabled: self.enabled };
        assert(r@.entries =~= self@.entries);
        r
    }

    /// Seeds the cache from stored containers, each with the observation that
    /// last verified it.
    pub fn from_containers(containers: Vec<(u64, Vec<NestedArtifact>)>) -> (r: Self)
        ensures
            r@.enabled,
            r@.entries == container_entries(stored_view(containers@), containers@.len() as int),
    {
        let ghost given = stored_view(containers@);
        let mut entries: Vec<CacheEntry> = Vec::new();
        let mut i: usize = 0;
        assert(Seq::new(entries@.len(), |k: int| entries@[k]@) =~= container_entries(given, 0));
        while i < containers.len()
            invariant
                i <= containers@.len(),
                given == stored_view(containers@),
                Seq::new(entries@.len(), |k: int| entries@[k]@) == container_entries(given, i as int),
            decreases containers@.len() - i,
        {
            let ghost prior = entries@;
            let units = &containers[i].1;
            assert(given[i as int] == (containers@[i as int].0, units_view(units@)));
            if units.len() > 0 {
                assert(units_view(units@)[0] == units@[0]@);
                let e = CacheEntry {
                    scope: group_key(&units[0]),
                    stored_at: containers[i].0,
                    units: copy_units(units),
                };
                entries.push(e);
                assert(Seq::new(entries@.len(), |k: int| entries@[k]@) =~= Seq::new(
                    prior.len(),
                    |k: int| prior[k]@,
                ).push(e@));
            }
            i += 1;
        }
        ContainerCache { entries, enabled: true }
    }

    /// Seeds the cache from a previous report's units, grouped by the container
    /// each one belongs to.
    pub fn from_previous(units: Vec<NestedArtifact>, stored_at: u64) -> (r: Self)
        ensures
            r@.enabled,
            groups_stored(r@, units_view(units@), stored_at),
    {
        let ghost given = units_view(units@);
        let mut cache = ContainerCache { entries: Vec::new(), enabled: true };
        let mut i: usize = 0;
        assert(groups_stored(cache@, given.take(0), stored_at)) by {
            reveal(Seq::filter);
        }
        while i < units.len()
            invariant
                i <= units@.len(),
                given == units_view(units@),
                cache@.enabled,
                groups_stored(cache@, given.take(i as int), stored_at),
            decreases units@.len() - i,
        {
            assert(given[i as int] == units@[i as int]@);
            cache.add(&units[i], stored_at, Ghost(given.take(i as int)));
            assert(given.take(i + 1) =~= given.take(i as int).push(given[i as int]));
            i += 1;
        }
        assert(given.take(i as int) =~= given);
        cache
    }

    fn add(&mut self, u: &NestedArtifact, stored_at: u64, Ghost(units): Ghost<Seq<UnitModel>>)
        requires
            old(self)@.enabled,
            groups_stored(old(self)@, units, stored_at),
        ensures
            final(self)@.enabled,
            groups_stored(final(self)@, units.push(u@), stored_at),
    {
        let key = group_key(u);
        let ghost prior = self@;
        match self.place(key.as_str()) {
            Some(at) => {
                let mut entry = self.entries.remove(at);
                let ghost was = entry@;
                push_unit(&mut entry.units, u.copy());
                self.entries.insert(at, entry);
                proof {
                    assert(self@.entries =~= prior.entries.update(
                        at as int,
                        EntryStored { units: was.units.push(u@), ..was },
                    ));
                    lemma_group_grows(prior, self@, units, u@, stored_at, at as int);
                }
            },
            None => {
                let mut list: Vec<NestedArtifact> = Vec::new();
                assert(units_view(list@) =~= Seq::<UnitModel>::empty());
                push_unit(&mut list, u.copy());
                let entry = CacheEntry { scope: key, stored_at, units: list };
                let ghost e = entry@;
                self.entries.push(entry);
                proof {
                    assert(self@.entries =~= prior.entries.push(e));
                    assert(e.units =~= seq![u@]);
                    lemma_group_begins(prior, self@, units, u@, stored_at, e);
                }
            },
        }
    }

    /// Where the entry of a container stands.
    fn place(&self, scope: &str) -> (r: Option<usize>)
        ensures
            r is None <==> self@.entry(scope@) is None,
            r is Some ==> r->0 < self@.entries.len() && self@.entry(scope@) == Some(
                self@.entries[r->0 as int],
            ) && self@.entries.len() == self.entries@.len() && self@.entries[r->0 as int].scope == scope@
                && forall|k: int|
                r->0 < k < self@.entries.len() ==> #[trigger] self@.entries[k].scope != scope@,
    {
        let mut n: usize = self.entries.len();
        while n > 0
            invariant
                n <= self.entries@.len(),
                self@.entries.len() == self.entries@.len(),
                self@.entry(scope@) == entry_of(self@.entries, scope@, n as int),
                forall|k: int| n <= k < self@.entries.len() ==> #[trigger] self@.entries[k].scope != scope@,
            decreases n,
        {
            let e = &self.entries[n - 1];
            assert(self@.entries[n - 1] == e@);
            if same(e.scope.as_str(), scope) {
                return Some(n - 1);
            }
            n -= 1;
        }
        None
    }

    /// What is stored for a container, when the cache is one to replay from.
    pub fn stored(&self, scope: &str) -> (r: Option<(u64, &Vec<NestedArtifact>)>)
        ensures
            !self@.enabled ==> r is None,
            self@.enabled ==> (r is None <==> self@.entry(scope@) is None),
            r is Some ==> self@.entry(scope@) == Some(
                EntryStored { scope: scope@, stored_at: (r->0).0, units: units_view((r->0).1@) },
            ),
    {
        if !self.enabled {
            return None;
        }
        match self.place(scope) {
            Some(at) => {
                assert(self@.entries[at as int] == self.entries@[at as int]@);
                Some((self.entries[at].stored_at, &self.entries[at].units))
            },
            None => None,
        }
    }

    /// Records that a container's stored units were verified again at
    /// `observed_at`.
    pub fn restamp(&mut self, scope: &str, observed_at: u64)
        ensures
            final(self)@ == old(self)@.stamped(scope@, observed_at),
    {
        let ghost prior = self@;
        match self.place(scope) {
            Some(at) => {
                let mut entry = self.entries.remove(at);
                let ghost was = entry@;
                entry.stored_at = observed_at;
                self.entries.insert(at, entry);
                proof {
                    let e = EntryStored { stored_at: observed_at, ..was };
                    lemma_stamped_at(prior.entries, scope@, observed_at, at as int, prior.entries.len() as int);
                    assert(self@.entries =~= prior.entries.update(at as int, e));
                }
            },
            None => {
                proof {
                    lemma_stamped_none(prior.entries, scope@, observed_at, prior.entries.len() as int);
                }
            },
        }
    }
}

proof fn lemma_stamped_at(s: Seq<EntryStored>, scope: Seq<char>, at: u64, k: int, n: int)
    requires
        0 <= k < n <= s.len(),
        s[k].scope == scope,
        forall|j: int| k < j < n ==> #[trigger] s[j].scope != scope,
    ensures
        stamped_upto(s, scope, at, n) == s.update(k, EntryStored { stored_at: at, ..s[k] }),
    decreases n,
{
    if k < n - 1 {
        assert(s[n - 1].scope != scope);
        lemma_stamped_at(s, scope, at, k, n - 1);
    }
}

proof fn lemma_stamped_none(s: Seq<EntryStored>, scope: Seq<char>, at: u64, n: int)
    requires
        0 <= n <= s.len(),
        entry_of(s, scope, n) is None,
    ensures
        stamped_upto(s, scope, at, n) == s,
    decreases n,
{
    if n > 0 {
        lemma_stamped_none(s, scope, at, n - 1);
    }
}

proof fn lemma_entry_place(s: Seq<EntryStored>, scope: Seq<char>, n: int) -> (k: int)
    requires
        0 <= n <= s.len(),
        entry_of(s, scope, n) is Some,
    ensures
        0 <= k < n,
        s[k].scope == scope,
        forall|j: int| k < j < n ==> #[trigger] s[j].scope != scope,
    decreases n,
{
    if s[n - 1].scope == scope {
        n - 1
    } else {
        lemma_entry_place(s, scope, n - 1)
    }
}

/// Verifying a container again changes the time of its entry and nothing else.
pub proof fn law_stamping_changes_one_time(cache: CacheModel, scope: Seq<char>, at: u64, other: Seq<char>)
    ensures
        cache.stamped(scope, at).enabled == cache.enabled,
        cache.stamped(scope, at).entry(scope) == (match cache.entry(scope) {
            Some(e) => Some(EntryStored { stored_at: at, ..e }),
            None => None,
        }),
        other != scope ==> cache.stamped(scope, at).entry(other) == cache.entry(other),
{
    let s = cache.entries;
    let n = s.len() as int;
    if cache.entry(scope) is Some {
        let k = lemma_entry_place(s, scope, n);
        lemma_stamped_at(s, scope, at, k, n);
        let e = EntryStored { stored_at: at, ..s[k] };
        lemma_entry_last(s, scope, k, n);
        lemma_entry_last(s.update(k, e), scope, k, n);
        if other != scope {
            lemma_entry_update(s, k, e, other, n);
        }
    } else {
        lemma_stamped_none(s, scope, at, n);
    }
}

proof fn lemma_entry_update(s: Seq<EntryStored>, at: int, e: EntryStored, other: Seq<char>, n: int)
    requires
        0 <= at < s.len(),
        0 <= n <= s.len(),
        e.scope == s[at].scope,
        other != e.scope,
    ensures
        entry_of(s.update(at, e), other, n) == entry_of(s, other, n),
    decreases n,
{
    if n > 0 {
        lemma_entry_update(s, at, e, other, n - 1);
    }
}

proof fn lemma_entry_last(s: Seq<EntryStored>, scope: Seq<char>, at: int, n: int)
    requires
        0 <= at < n <= s.len(),
        s[at].scope == scope,
        forall|k: int| at < k < n ==> #[trigger] s[k].scope != scope,
    ensures
        entry_of(s, scope, n) == Some(s[at]),
    decreases n,
{
    if n - 1 > at {
        assert(s[n - 1].scope != scope);
        lemma_entry_last(s, scope, at, n - 1);
    }
}

proof fn lemma_entry_push(s: Seq<EntryStored>, e: EntryStored, scope: Seq<char>, n: int)
    requires
        0 <= n <= s.len(),
    ensures
        entry_of(s.push(e), scope, n) == entry_of(s, scope, n),
    decreases n,
{
    if n > 0 {
        lemma_entry_push(s, e, scope, n - 1);
    }
}

proof fn lemma_grouped_push(units: Seq<UnitModel>, u: UnitModel, scope: Seq<char>)
    ensures
        grouped(units.push(u), scope) == (if group_of(u) == scope {
            grouped(units, scope).push(u)
        } else {
            grouped(units, scope)
        }),
{
    reveal(Seq::filter);
    assert(units.push(u).drop_last() =~= units);
}

proof fn lemma_group_grows(
    prior: CacheModel,
    now: CacheModel,
    units: Seq<UnitModel>,
    u: UnitModel,
    stored_at: u64,
    at: int,
)
    requires
        groups_stored(prior, units, stored_at),
        0 <= at < prior.entries.len(),
        prior.entries[at].scope == group_of(u),
        prior.entry(group_of(u)) == Some(prior.entries[at]),
        forall|k: int| at < k < prior.entries.len() ==> #[trigger] prior.entries[k].scope != group_of(u),
        now.entries == prior.entries.update(
            at,
            EntryStored { units: prior.entries[at].units.push(u), ..prior.entries[at] },
        ),
    ensures
        groups_stored(now, units.push(u), stored_at),
{
    let e = EntryStored { units: prior.entries[at].units.push(u), ..prior.entries[at] };
    assert forall|scope: Seq<char>| #[trigger] now.entry(scope) == group_entry(units.push(u), scope, stored_at) by {
        lemma_grouped_push(units, u, scope);
        assert(prior.entry(scope) == group_entry(units, scope, stored_at));
        if scope == group_of(u) {
            lemma_entry_last(now.entries, scope, at, now.entries.len() as int);
        } else {
            lemma_entry_update(prior.entries, at, e, scope, prior.entries.len() as int);
        }
    }
}

proof fn lemma_group_begins(
    prior: CacheModel,
    now: CacheModel,
    units: Seq<UnitModel>,
    u: UnitModel,
    stored_at: u64,
    e: EntryStored,
)
    requires
        groups_stored(prior, units, stored_at),
        prior.entry(group_of(u)) is None,
        e.scope == group_of(u),
        e.stored_at == stored_at,
        e.units == seq![u],
        now.entries == prior.entries.push(e),
    ensures
        groups_stored(now, units.push(u), stored_at),
{
    assert forall|scope: Seq<char>| #[trigger] now.entry(scope) == group_entry(units.push(u), scope, stored_at) by {
        lemma_grouped_push(units, u, scope);
        assert(prior.entry(scope) == group_entry(units, scope, stored_at));
        lemma_entry_push(prior.entries, e, scope, prior.entries.len() as int);
        if scope == group_of(u) {
            assert(grouped(units, scope).push(u) =~= seq![u]);
        }
    }
}

} // verus!
