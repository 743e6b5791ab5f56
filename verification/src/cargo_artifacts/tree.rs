//! Walking a target directory, from what was read of it and what is kept from
//! before.

use crate::artifact::{
    append_units, evidences, push_unit, relative, relative_path, unit_id, units_view, AccountingBasis, ActionModel,
    ArtifactCoverage, ArtifactEvidence, ArtifactRole, ArtifactVariant, Confidence, CoverageModel, EvidenceModel,
    Membership, NestedActionCapability, NestedArtifact, TimeSource, UnitModel, VariantModel,
};
use crate::evidence::no_facts;
use crate::facts::{opt_stat, FileKind, FileStat, StatModel};
use crate::order::{keys_of, sort_places, stable_places};
use crate::path::{
    lemma_parent_parts, parent, path_key, path_text, paths, same_opt, same_path, within, FsPath, PathModel,
};
use crate::text::{cat3, opt_text, push_text, texts};
use vstd::prelude::*;

verus! {

/// One path of a target directory, as it was read.
pub struct TargetNode {
    pub path: FsPath,
    /// Whether the path is text.
    pub legible: bool,
    /// The path's own metadata; without it `error` says why.
    pub stat: Option<FileStat>,
    pub error: String,
    /// What Cargo's layout makes of the path.
    pub role: ArtifactRole,
    pub variant: ArtifactVariant,
    /// Why a directory could not be listed.
    pub unlisted: Option<String>,
    /// Why entries of a directory could not be read.
    pub entry_errors: Vec<String>,
    pub entries: Vec<TargetNode>,
}

/// What a walk gives: units, and why it is not complete.
pub struct Visited {
    pub units: Seq<UnitModel>,
    pub limits: Seq<Seq<char>>,
}

impl Visited {
    pub open spec fn none() -> Visited {
        Visited { units: Seq::empty(), limits: Seq::empty() }
    }

    pub open spec fn and(self, other: Visited) -> Visited {
        Visited { units: self.units + other.units, limits: self.limits + other.limits }
    }
}

/// What a walk goes by.
pub struct VisitModel {
    pub root: PathModel,
    pub scope: Seq<char>,
    pub cached: Seq<UnitModel>,
    pub changed: Option<Seq<PathModel>>,
}

pub struct Visit<'a> {
    pub root: &'a FsPath,
    pub scope: String,
    pub cached: &'a Vec<NestedArtifact>,
    pub changed: Option<&'a Vec<FsPath>>,
}

impl<'a> View for Visit<'a> {
    type V = VisitModel;

    open spec fn view(&self) -> VisitModel {
        VisitModel {
            root: self.root@,
            scope: self.scope@,
            cached: units_view(self.cached@),
            changed: match self.changed {
                Some(v) => Some(paths(v@)),
                None => None,
            },
        }
    }
}

// ---------------------------------------------------------------------
// What is kept
// ---------------------------------------------------------------------

/// The last kept unit with a path, among the first `n`.
pub open spec fn kept(cached: Seq<UnitModel>, path: PathModel, n: int) -> Option<UnitModel>
    decreases n,
{
    if n <= 0 {
        None
    } else if same_path(cached[n - 1].path, path) {
        Some(cached[n - 1])
    } else {
        kept(cached, path, n - 1)
    }
}

/// A kept unit as it is taken over: a directory's size is folded anew, and what
/// is charged is charged anew.
pub open spec fn taken_over(u: UnitModel) -> UnitModel {
    UnitModel {
        bytes: if u.is_dir {
            0
        } else {
            u.bytes
        },
        logical_bytes: if u.is_dir {
            0
        } else {
            u.logical_bytes
        },
        physical_bytes: 0,
        ..u
    }
}

/// The length of the longest kept path.
pub open spec fn longest(cached: Seq<UnitModel>, n: int) -> nat
    decreases n,
{
    if n <= 0 {
        0
    } else if cached[n - 1].path.len() > longest(cached, n - 1) {
        cached[n - 1].path.len()
    } else {
        longest(cached, n - 1)
    }
}

proof fn lemma_longest(cached: Seq<UnitModel>, n: int, k: int)
    requires
        0 <= k < n <= cached.len(),
    ensures
        cached[k].path.len() <= longest(cached, n),
    decreases n,
{
    if k < n - 1 {
        lemma_longest(cached, n - 1, k);
    }
}

pub open spec fn depth_left(cached: Seq<UnitModel>, path: PathModel) -> int {
    longest(cached, cached.len() as int) + 1 - path.len()
}

/// Whether a kept unit lies directly in a directory.
pub open spec fn kept_in(u: UnitModel, root: PathModel, path: PathModel) -> bool {
    !same_path(u.path, root) && same_opt(parent(u.path), path)
}

/// The kept units at and under a path.
pub open spec fn kept_tree(cached: Seq<UnitModel>, root: PathModel, path: PathModel) -> Seq<UnitModel>
    decreases depth_left(cached, path), 1nat, 0nat,
    when path.len() <= longest(cached, cached.len() as int)
{
    match kept(cached, path, cached.len() as int) {
        None => Seq::empty(),
        Some(u) => seq![taken_over(u)] + kept_under(cached, root, path, cached.len()),
    }
}

/// The kept units under a path, of the first `n` that lie directly in it.
pub open spec fn kept_under(cached: Seq<UnitModel>, root: PathModel, path: PathModel, n: nat) -> Seq<UnitModel>
    decreases depth_left(cached, path), 0nat, n,
    when path.len() <= longest(cached, cached.len() as int) && n <= cached.len()
    via kept_under_ends
{
    if n == 0 {
        Seq::empty()
    } else {
        let u = cached[n - 1];
        kept_under(cached, root, path, (n - 1) as nat) + (if kept_in(u, root, path) {
            kept_tree(cached, root, u.path)
        } else {
            Seq::empty()
        })
    }
}

#[via_fn]
proof fn kept_under_ends(cached: Seq<UnitModel>, root: PathModel, path: PathModel, n: nat) {
    if n > 0 {
        lemma_longest(cached, cached.len() as int, n - 1);
        if parent(cached[n - 1].path) is Some {
            lemma_parent_parts(cached[n - 1].path);
        }
    }
}

fn find_kept<'a>(cached: &'a Vec<NestedArtifact>, path: &FsPath) -> (r: Option<&'a NestedArtifact>)
    ensures
        match r {
            Some(u) => kept(units_view(cached@), path@, cached@.len() as int) == Some(u@),
            None => kept(units_view(cached@), path@, cached@.len() as int) is None,
        },
{
    let ghost all = units_view(cached@);
    let mut n: usize = cached.len();
    while n > 0
        invariant
            n <= cached@.len(),
            all == units_view(cached@),
            kept(all, path@, cached@.len() as int) == kept(all, path@, n as int),
        decreases n,
    {
        assert(all[n - 1] == cached@[n - 1]@);
        if cached[n - 1].path.same(path) {
            return Some(&cached[n - 1]);
        }
        n -= 1;
    }
    None
}

fn take_over(u: &NestedArtifact) -> (r: NestedArtifact)
    ensures
        r@ == taken_over(u@),
{
    let mut out = u.copy();
    if u.is_dir {
        out.bytes = 0;
        out.logical_bytes = 0;
    }
    out.physical_bytes = 0;
    out
}

fn copy_tree(cached: &Vec<NestedArtifact>, root: &FsPath, path: &FsPath) -> (r: Vec<NestedArtifact>)
    requires
        path@.len() <= longest(units_view(cached@), cached@.len() as int),
    ensures
        units_view(r@) == kept_tree(units_view(cached@), root@, path@),
    decreases depth_left(units_view(cached@), path@), 1nat, 0nat,
{
    assert(units_view(cached@).len() == cached@.len());
    match find_kept(cached, path) {
        None => {
            let none: Vec<NestedArtifact> = Vec::new();
            assert(units_view(none@) =~= Seq::<UnitModel>::empty());
            none
        },
        Some(u) => {
            let mut out: Vec<NestedArtifact> = Vec::new();
            push_unit(&mut out, take_over(u));
            assert(units_view(out@) =~= seq![taken_over(u@)]);
            let rest = copy_under(cached, root, path, cached.len());
            append_units(&mut out, rest);
            out
        },
    }
}

fn copy_under(cached: &Vec<NestedArtifact>, root: &FsPath, path: &FsPath, n: usize) -> (r: Vec<NestedArtifact>)
    requires
        n <= cached@.len(),
        path@.len() <= longest(units_view(cached@), cached@.len() as int),
    ensures
        units_view(r@) == kept_under(units_view(cached@), root@, path@, n as nat),
    decreases depth_left(units_view(cached@), path@), 0nat, n as nat,
{
    let ghost all = units_view(cached@);
    assert(all.len() == cached@.len());
    if n == 0 {
        let none: Vec<NestedArtifact> = Vec::new();
        assert(units_view(none@) =~= Seq::<UnitModel>::empty());
        return none;
    }
    let u = &cached[n - 1];
    assert(all[n - 1] == u@);
    let mut out = copy_under(cached, root, path, n - 1);
    let inside = match u.path.parent() {
        Some(p) => p.same(path) && !u.path.same(root),
        None => false,
    };
    if inside {
        proof {
            lemma_longest(all, all.len() as int, n - 1);
            lemma_parent_parts(u.path@);
        }
        let more = copy_tree(cached, root, &u.path);
        append_units(&mut out, more);
    } else {
        assert(units_view(out@) + Seq::<UnitModel>::empty() =~= units_view(out@));
    }
    out
}

// ---------------------------------------------------------------------
// What is read
// ---------------------------------------------------------------------

/// Whether a path is named by a change: something at or under it changed, or
/// the directory it lies in.
pub open spec fn touched(changed: Seq<PathModel>, path: PathModel) -> bool {
    let above = match parent(path) {
        Some(p) => p,
        None => path,
    };
    exists|i: int| 0 <= i < changed.len() && (within(#[trigger] changed[i], path) || same_path(changed[i], above))
}

/// Whether what is kept of a path stands in for reading it.
pub open spec fn stands(v: VisitModel, path: PathModel) -> bool {
    v.changed matches Some(changed) && kept(v.cached, path, v.cached.len() as int) is Some && !touched(changed, path)
}

fn is_touched(changed: &Vec<FsPath>, path: &FsPath) -> (r: bool)
    ensures
        r == touched(paths(changed@), path@),
{
    let ghost all = paths(changed@);
    let above = match path.parent() {
        Some(p) => p,
        None => path.copy(),
    };
    let mut i: usize = 0;
    while i < changed.len()
        invariant
            i <= changed@.len(),
            all == paths(changed@),
            above@ == (match parent(path@) {
                Some(p) => p,
                None => path@,
            }),
            forall|k: int| 0 <= k < i ==> !(within(#[trigger] all[k], path@) || same_path(all[k], above@)),
        decreases changed@.len() - i,
    {
        assert(all[i as int] == changed@[i as int]@);
        if changed[i].within(path) || changed[i].same(&above) {
            assert(within(all[i as int], path@) || same_path(all[i as int], above@));
            return true;
        }
        i += 1;
    }
    false
}

/// Whether what is kept of a path stands in for reading it: a reader need not
/// list it.
pub fn does_stand(v: &Visit, path: &FsPath) -> (r: bool)
    ensures
        r == stands(v@, path@),
{
    assert(units_view(v.cached@).len() == v.cached@.len());
    match v.changed {
        Some(changed) => find_kept(v.cached, path).is_some() && !is_touched(changed, path),
        None => false,
    }
}

/// The unit of a path that was read.
pub open spec fn node_unit(v: VisitModel, path: PathModel, meta: StatModel, role: ArtifactRole, variant: VariantModel) -> UnitModel {
    let rel = relative(v.root, path);
    let link = meta.kind == FileKind::Symlink;
    let file = meta.kind == FileKind::File;
    UnitModel {
        id: unit_id(v.scope, rel),
        path,
        relative_path: rel,
        parent_id: if same_path(path, v.root) {
            None
        } else {
            match parent(path) {
                Some(p) => Some(unit_id(v.scope, relative(v.root, p))),
                None => None,
            }
        },
        container_id: if same_path(path, v.root) {
            None
        } else {
            Some(v.scope)
        },
        role: if link {
            ArtifactRole::Unknown
        } else {
            role
        },
        membership: if meta.nlink > 1 && file {
            Membership::SharedHardlink
        } else {
            Membership::Exclusive
        },
        is_dir: meta.kind == FileKind::Directory,
        device: meta.dev,
        inode: meta.ino,
        logical_bytes: if file {
            meta.len
        } else {
            0
        },
        bytes: if file {
            meta.allocated() as u64
        } else {
            0
        },
        physical_bytes: 0,
        physical_total: 0,
        mtime_max: meta.modified(),
        variant,
        producer_evidence: seq![
            EvidenceModel {
                source: "cargo-layout"@,
                detail: "observed layout; not evidence of last use or obsolescence"@,
                confidence: Confidence::Medium,
            },
        ],
        consumer_evidence: Seq::empty(),
        coverage: CoverageModel {
            supported: true,
            complete: true,
            limits: if link {
                seq!["Cargo intermediate layout is version-dependent"@, "symlink not followed"@]
            } else {
                seq!["Cargo intermediate layout is version-dependent"@]
            },
        },
        action_group: None,
        present: true,
        growth_bytes: None,
        regrowth_count: 0,
        decision_evidence: Seq::empty(),
        adapter: Some("cargo"@),
        basis: AccountingBasis::Allocated,
        time_source: TimeSource::FileModification,
        action: ActionModel::InspectionOnly,
        consequence: None,
        reported_by: None,
        writer_lock: None,
    }
}

fn make_unit(v: &Visit, path: &FsPath, meta: &FileStat, role: ArtifactRole, variant: &ArtifactVariant) -> (r: NestedArtifact)
    ensures
        r@ == node_unit(v@, path@, meta@, role, variant@),
{
    let rel = relative_path(v.root, path);
    let at_root = path.same(v.root);
    let link = meta.is_symlink();
    let file = meta.is_file();
    let mut limits: Vec<String> = Vec::new();
    push_text(&mut limits, "Cargo intermediate layout is version-dependent");
    assert(texts(limits@) =~= seq!["Cargo intermediate layout is version-dependent"@]);
    if link {
        push_text(&mut limits, "symlink not followed");
        assert(texts(limits@) =~= seq![
            "Cargo intermediate layout is version-dependent"@,
            "symlink not followed"@,
        ]);
    }
    let mut producer: Vec<ArtifactEvidence> = Vec::new();
    let e = ArtifactEvidence::of(
        "cargo-layout",
        "observed layout; not evidence of last use or obsolescence",
        Confidence::Medium,
    );
    let ghost em = e@;
    producer.push(e);
    assert(evidences(producer@) =~= seq![em]);
    let consumer: Vec<ArtifactEvidence> = Vec::new();
    assert(evidences(consumer@) =~= Seq::<EvidenceModel>::empty());
    let parent_id = if at_root {
        None
    } else {
        match path.parent() {
            Some(p) => {
                let above = relative_path(v.root, &p);
                Some(NestedArtifact::within(v.scope.as_str(), above.as_str()))
            },
            None => None,
        }
    };
    NestedArtifact {
        id: NestedArtifact::within(v.scope.as_str(), rel.as_str()),
        path: path.copy(),
        relative_path: rel,
        parent_id,
        container_id: if at_root {
            None
        } else {
            Some(v.scope.as_str().to_owned())
        },
        role: if link {
            ArtifactRole::Unknown
        } else {
            role
        },
        membership: if meta.nlink() > 1 && file {
            Membership::SharedHardlink
        } else {
            Membership::Exclusive
        },
        is_dir: meta.is_dir(),
        device: meta.dev(),
        inode: meta.ino(),
        logical_bytes: if file {
            meta.len()
        } else {
            0
        },
        bytes: if file {
            meta.allocated()
        } else {
            0
        },
        physical_bytes: 0,
        physical_total: 0,
        mtime_max: meta.modified(),
        variant: variant.copy(),
        producer_evidence: producer,
        consumer_evidence: consumer,
        coverage: ArtifactCoverage { supported: true, complete: true, limits },
        action_group: None,
        present: true,
        growth_bytes: None,
        regrowth_count: 0,
        decision_evidence: no_facts(),
        adapter: Some("cargo".to_owned()),
        basis: AccountingBasis::Allocated,
        time_source: TimeSource::FileModification,
        action: NestedActionCapability::InspectionOnly,
        consequence: None,
        reported_by: None,
        writer_lock: None,
    }
}

/// A failure at a path, said.
pub open spec fn failure(path: PathModel, error: Seq<char>) -> Seq<char> {
    path_text(path) + ": "@ + error
}

pub open spec fn failures(path: PathModel, errors: Seq<Seq<char>>) -> Seq<Seq<char>> {
    Seq::new(errors.len(), |i: int| failure(path, errors[i]))
}

fn say_failure(path: &FsPath, error: &str) -> (r: String)
    ensures
        r@ == failure(path@, error@),
{
    let at = path.text();
    cat3(at.as_str(), ": ", error)
}

fn say_failures(path: &FsPath, errors: &Vec<String>, limits: &mut Vec<String>)
    ensures
        texts(final(limits)@) == texts(old(limits)@) + failures(path@, texts(errors@)),
{
    let ghost all = failures(path@, texts(errors@));
    let ghost start = texts(limits@);
    let mut i: usize = 0;
    assert(start + all.take(0) =~= start);
    while i < errors.len()
        invariant
            i <= errors@.len(),
            all == failures(path@, texts(errors@)),
            texts(limits@) == start + all.take(i as int),
        decreases errors@.len() - i,
    {
        let text = say_failure(path, errors[i].as_str());
        push_text(limits, text.as_str());
        i += 1;
        assert(start + all.take(i as int) =~= (start + all.take(i - 1)).push(all[i - 1]));
    }
    assert(all.take(i as int) =~= all);
}

pub open spec fn entry_keys(entries: Seq<TargetNode>) -> Seq<Seq<u32>> {
    Seq::new(entries.len(), |i: int| path_key(entries[i].path@))
}

/// The places of a directory's entries in path order.
pub open spec fn entry_order(entries: Seq<TargetNode>) -> Seq<usize> {
    stable_places(entry_keys(entries))
}

fn order_entries(entries: &Vec<TargetNode>) -> (r: Vec<usize>)
    ensures
        r@ == entry_order(entries@),
        r@.len() == entries@.len(),
        forall|i: int| 0 <= i < r@.len() ==> 0 <= #[trigger] r@[i] < entries@.len(),
{
    let ghost all = entry_keys(entries@);
    let mut keys: Vec<Vec<u32>> = Vec::new();
    let mut i: usize = 0;
    while i < entries.len()
        invariant
            i <= entries@.len(),
            all == entry_keys(entries@),
            keys_of(keys@) == all.take(i as int),
        decreases entries@.len() - i,
    {
        let k = entries[i].path.key();
        let ghost prior = keys@;
        keys.push(k);
        i += 1;
        assert(keys_of(keys@) =~= keys_of(prior).push(k@));
        assert(keys_of(keys@) =~= all.take(i as int));
    }
    assert(all.take(i as int) =~= all);
    sort_places(&keys)
}

/// A walk of one path and everything under it, in path order. What is kept
/// stands in for what no change names; a link is never followed.
pub open spec fn visited(v: VisitModel, node: TargetNode) -> Visited
    decreases node, 1nat, 0nat,
{
    let path = node.path@;
    if !node.legible {
        Visited {
            units: Seq::empty(),
            limits: seq!["non-UTF8 Cargo path unsupported; observation incomplete"@],
        }
    } else if stands(v, path) {
        Visited { units: kept_tree(v.cached, v.root, path), limits: Seq::empty() }
    } else {
        match opt_stat(node.stat) {
            None => Visited { units: Seq::empty(), limits: seq![failure(path, node.error@)] },
            Some(meta) => {
                let unit = seq![node_unit(v, path, meta, node.role, node.variant@)];
                if meta.kind == FileKind::Directory {
                    match opt_text(node.unlisted) {
                        Some(e) => Visited { units: unit, limits: seq![failure(path, e)] },
                        None => (Visited { units: unit, limits: failures(path, texts(node.entry_errors@)) }).and(
                            visited_under(v, node, node.entries@.len()),
                        ),
                    }
                } else if same_path(path, v.root) {
                    Visited { units: unit, limits: seq!["build root is not a directory"@] }
                } else {
                    Visited { units: unit, limits: Seq::empty() }
                }
            },
        }
    }
}

/// A walk of the first `n` entries of a directory, in path order.
pub open spec fn visited_under(v: VisitModel, node: TargetNode, n: nat) -> Visited
    decreases node, 0nat, n,
{
    if n == 0 {
        Visited::none()
    } else {
        let k = entry_order(node.entries@)[n - 1] as int;
        if 0 <= k < node.entries@.len() {
            visited_under(v, node, (n - 1) as nat).and(visited(v, node.entries@[k]))
        } else {
            visited_under(v, node, (n - 1) as nat)
        }
    }
}

/// Walks one path and everything under it.
pub fn visit(v: &Visit, node: &TargetNode) -> (r: (Vec<NestedArtifact>, Vec<String>))
    ensures
        (Visited { units: units_view(r.0@), limits: texts(r.1@) }) == visited(v@, *node),
    decreases node, 1nat, 0nat,
{
    let mut units: Vec<NestedArtifact> = Vec::new();
    let mut limits: Vec<String> = Vec::new();
    assert(units_view(units@) =~= Seq::<UnitModel>::empty());
    assert(texts(limits@) =~= Seq::<Seq<char>>::empty());
    if !node.legible {
        push_text(&mut limits, "non-UTF8 Cargo path unsupported; observation incomplete");
        assert(texts(limits@) =~= seq!["non-UTF8 Cargo path unsupported; observation incomplete"@]);
        return (units, limits);
    }
    if does_stand(v, &node.path) {
        proof {
            lemma_kept_is_short(v@.cached, node.path@, v@.cached.len() as int);
        }
        assert(units_view(v.cached@).len() == v.cached@.len());
        return (copy_tree(v.cached, v.root, &node.path), limits);
    }
    match &node.stat {
        None => {
            let text = say_failure(&node.path, node.error.as_str());
            push_text(&mut limits, text.as_str());
            assert(texts(limits@) =~= seq![failure(node.path@, node.error@)]);
            (units, limits)
        },
        Some(meta) => {
            let u = make_unit(v, &node.path, meta, node.role, &node.variant);
            let ghost own = u@;
            push_unit(&mut units, u);
            assert(units_view(units@) =~= seq![own]);
            if meta.is_dir() {
                match &node.unlisted {
                    Some(e) => {
                        let text = say_failure(&node.path, e.as_str());
                        push_text(&mut limits, text.as_str());
                        assert(texts(limits@) =~= seq![failure(node.path@, e@)]);
                    },
                    None => {
                        say_failures(&node.path, &node.entry_errors, &mut limits);
                        assert(texts(limits@) =~= failures(node.path@, texts(node.entry_errors@)));
                        let (more, why) = visit_under(v, node);
                        append_units(&mut units, more);
                        let ghost first = texts(limits@);
                        crate::text::extend_texts(&mut limits, &why);
                        assert(texts(limits@) == first + texts(why@));
                    },
                }
            } else if node.path.same(v.root) {
                push_text(&mut limits, "build root is not a directory");
                assert(texts(limits@) =~= seq!["build root is not a directory"@]);
            }
            (units, limits)
        },
    }
}

fn visit_under(v: &Visit, node: &TargetNode) -> (r: (Vec<NestedArtifact>, Vec<String>))
    ensures
        (Visited { units: units_view(r.0@), limits: texts(r.1@) }) == visited_under(v@, *node, node.entries@.len()),
    decreases node, 0nat, 0nat,
{
    let order = order_entries(&node.entries);
    let mut units: Vec<NestedArtifact> = Vec::new();
    let mut limits: Vec<String> = Vec::new();
    let mut i: usize = 0;
    proof {
        assert(units_view(units@) =~= Seq::<UnitModel>::empty());
        assert(texts(limits@) =~= Seq::<Seq<char>>::empty());
    }
    while i < order.len()
        invariant
            i <= order@.len(),
            order@ == entry_order(node.entries@),
            order@.len() == node.entries@.len(),
            forall|k: int| 0 <= k < order@.len() ==> 0 <= #[trigger] order@[k] < node.entries@.len(),
            (Visited { units: units_view(units@), limits: texts(limits@) }) == visited_under(v@, *node, i as nat),
        decreases order@.len() - i,
    {
        assert(0 <= order@[i as int] < node.entries@.len());
        let k: usize = order[i];
        assert(decreases_to!(node => node.entries@[k as int]));
        let (more, why) = visit(v, &node.entries[k]);
        append_units(&mut units, more);
        crate::text::extend_texts(&mut limits, &why);
        i += 1;
    }
    (units, limits)
}

proof fn lemma_kept_is_short(cached: Seq<UnitModel>, path: PathModel, n: int)
    requires
        n <= cached.len(),
        kept(cached, path, n) is Some,
    ensures
        path.len() <= longest(cached, cached.len() as int),
    decreases n,
{
    if n > 0 {
        if same_path(cached[n - 1].path, path) {
            lemma_longest(cached, cached.len() as int, n - 1);
        } else {
            lemma_kept_is_short(cached, path, n - 1);
        }
    }
}

/// With nothing changed and the root kept, a walk reads nothing: it gives back
/// what is kept.
pub proof fn law_nothing_changed_nothing_read(v: VisitModel, node: TargetNode)
    requires
        node.legible,
        v.changed == Some(Seq::<PathModel>::empty()),
        kept(v.cached, node.path@, v.cached.len() as int) is Some,
    ensures
        visited(v, node).units == kept_tree(v.cached, v.root, node.path@),
        visited(v, node).limits.len() == 0,
{
    assert(!touched(Seq::<PathModel>::empty(), node.path@));
}

} // verus!
