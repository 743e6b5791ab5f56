//! Checkouts and worktrees grouped into projects.

use crate::order::{at_places, keys_of, sort_places, stable_places};
use crate::path::{path_key, path_text, FsPath, PathModel};
use crate::report::{
    copy_project, copy_worktrees, id_for, id_of, law_ids_are_faithful, projects_view, worktrees_view, ArtifactRow,
    ArtifactRowModel, ProjectModel, ProjectRow, WorktreeKind, WorktreeModel, WorktreeRow,
};
use crate::text::{
    all_codes, cat2, copy_all, copy_opt, drop_repeats, opt_text, push_text, same, sort_texts, sorted_texts, text_places,
    texts, without_repeats,
};
use vstd::prelude::*;

verus! {

/// A checkout or worktree that was found.
#[derive(Debug, Clone, PartialEq, Eq)]
pub struct DiscoveredWorktree {
    /// The identity of its object store.
    pub project_id: String,
    pub project_name: String,
    pub path: FsPath,
    pub kind: WorktreeKind,
    pub remote_url: Option<String>,
    /// What its remote's URL comes down to, when it names one.
    pub remote: Option<String>,
}

pub struct DiscoveredModel {
    pub project_id: Seq<char>,
    pub project_name: Seq<char>,
    pub path: PathModel,
    pub kind: WorktreeKind,
    pub remote_url: Option<Seq<char>>,
    pub remote: Option<Seq<char>>,
}

impl View for DiscoveredWorktree {
    type V = DiscoveredModel;

    open spec fn view(&self) -> DiscoveredModel {
        DiscoveredModel {
            project_id: self.project_id@,
            project_name: self.project_name@,
            path: self.path@,
            kind: self.kind,
            remote_url: opt_text(self.remote_url),
            remote: opt_text(self.remote),
        }
    }
}

pub open spec fn discovered_view(s: Seq<DiscoveredWorktree>) -> Seq<DiscoveredModel> {
    Seq::new(s.len(), |i: int| s[i]@)
}

pub open spec fn discovered_refs(s: Seq<&DiscoveredWorktree>) -> Seq<DiscoveredModel> {
    Seq::new(s.len(), |i: int| s[i]@)
}

// ---------------------------------------------------------------------
// Groups
// ---------------------------------------------------------------------

/// The identity of the project a checkout belongs to: its remote, or its object
/// store where it has none.
pub open spec fn group_key(d: DiscoveredModel) -> Seq<char> {
    match d.remote {
        Some(r) => "remote:"@ + r,
        None => "store:"@ + d.project_id,
    }
}

pub open spec fn group_keys(list: Seq<DiscoveredModel>) -> Seq<Seq<char>> {
    Seq::new(list.len(), |i: int| group_key(list[i]))
}

/// The identities of the projects found, in order, each once.
pub open spec fn groups(list: Seq<DiscoveredModel>) -> Seq<Seq<char>> {
    without_repeats(sorted_texts(group_keys(list)))
}

/// The checkouts of a project among the first `n`.
pub open spec fn members_upto(list: Seq<DiscoveredModel>, key: Seq<char>, n: int) -> Seq<DiscoveredModel>
    decreases n,
{
    if n <= 0 {
        Seq::empty()
    } else if group_key(list[n - 1]) == key {
        members_upto(list, key, n - 1).push(list[n - 1])
    } else {
        members_upto(list, key, n - 1)
    }
}

pub open spec fn member_keys(list: Seq<DiscoveredModel>) -> Seq<Seq<u32>> {
    Seq::new(list.len(), |i: int| path_key(list[i].path))
}

/// The checkouts of a project in path order.
pub open spec fn members(list: Seq<DiscoveredModel>, key: Seq<char>) -> Seq<DiscoveredModel> {
    let all = members_upto(list, key, list.len() as int);
    at_places(all, stable_places(member_keys(all)))
}

/// What the first `n` checkouts of a project make.
pub struct GroupModel {
    pub worktrees: Seq<WorktreeModel>,
    pub name: Option<Seq<char>>,
    pub main_assigned: bool,
    pub paths: Seq<(PathModel, Seq<char>)>,
    pub remote_urls: Seq<(Seq<char>, Seq<char>)>,
    pub remote: Option<Seq<char>>,
}

/// The kind a checkout has in its project: one main checkout, the others are
/// clones of it.
pub open spec fn kind_in_group(kind: WorktreeKind, main_assigned: bool) -> WorktreeKind {
    match kind {
        WorktreeKind::Linked => WorktreeKind::Linked,
        _ => if main_assigned {
            WorktreeKind::Clone
        } else {
            WorktreeKind::Main
        },
    }
}

pub open spec fn worktree_id(path: PathModel) -> Seq<char> {
    id_of(path_text(path))
}

/// A table with one value for each key, from place `i` on with `value` for
/// `key`: what was there for it is replaced.
pub open spec fn put_from(
    table: Seq<(Seq<char>, Seq<char>)>,
    key: Seq<char>,
    value: Seq<char>,
    i: int,
) -> Seq<(Seq<char>, Seq<char>)>
    decreases table.len() - i,
{
    if i < 0 || i >= table.len() {
        table.push((key, value))
    } else if table[i].0 == key {
        table.update(i, (key, value))
    } else {
        put_from(table, key, value, i + 1)
    }
}

pub open spec fn put(table: Seq<(Seq<char>, Seq<char>)>, key: Seq<char>, value: Seq<char>) -> Seq<
    (Seq<char>, Seq<char>),
> {
    put_from(table, key, value, 0)
}

/// A table with the first `n` of `more` put into it, one after the other.
pub open spec fn put_all(table: Seq<(Seq<char>, Seq<char>)>, more: Seq<(Seq<char>, Seq<char>)>, n: int) -> Seq<
    (Seq<char>, Seq<char>),
>
    decreases n,
{
    if n <= 0 {
        table
    } else {
        put(put_all(table, more, n - 1), more[n - 1].0, more[n - 1].1)
    }
}

pub open spec fn joined_by(g: GroupModel, d: DiscoveredModel) -> GroupModel {
    let kind = kind_in_group(d.kind, g.main_assigned);
    GroupModel {
        worktrees: g.worktrees.push(
            WorktreeModel { worktree_id: worktree_id(d.path), path: d.path, kind, artifacts: Seq::empty() },
        ),
        name: if kind == WorktreeKind::Main || g.name is None {
            Some(d.project_name)
        } else {
            g.name
        },
        main_assigned: g.main_assigned || kind == WorktreeKind::Main,
        paths: g.paths.push((d.path, worktree_id(d.path))),
        remote_urls: match d.remote_url {
            Some(r) => put(g.remote_urls, worktree_id(d.path), r),
            None => g.remote_urls,
        },
        remote: match g.remote {
            Some(r) => Some(r),
            None => d.remote,
        },
    }
}

pub open spec fn no_members() -> GroupModel {
    GroupModel {
        worktrees: Seq::empty(),
        name: None,
        main_assigned: false,
        paths: Seq::empty(),
        remote_urls: Seq::empty(),
        remote: None,
    }
}

pub open spec fn over_members(list: Seq<DiscoveredModel>, n: int) -> GroupModel
    decreases n,
{
    if n <= 0 {
        no_members()
    } else {
        joined_by(over_members(list, n - 1), list[n - 1])
    }
}

pub open spec fn group_of(list: Seq<DiscoveredModel>, key: Seq<char>) -> GroupModel {
    over_members(members(list, key), members(list, key).len() as int)
}

pub open spec fn project_of(key: Seq<char>, g: GroupModel) -> ProjectModel {
    ProjectModel {
        project_id: id_of(key),
        name: match g.name {
            Some(n) => n,
            None => Seq::empty(),
        },
        worktrees: g.worktrees,
        ecosystems: Seq::empty(),
        remote: g.remote,
    }
}

/// What the first `n` groups make.
pub struct GroupedModel {
    pub projects: Seq<ProjectModel>,
    pub worktree_paths: Seq<(PathModel, Seq<char>)>,
    pub project_remotes: Seq<(Seq<char>, Seq<char>)>,
    pub worktree_remotes: Seq<(Seq<char>, Seq<char>)>,
}

pub open spec fn over_groups(list: Seq<DiscoveredModel>, keys: Seq<Seq<char>>, n: int) -> GroupedModel
    decreases n,
{
    if n <= 0 {
        GroupedModel {
            projects: Seq::empty(),
            worktree_paths: Seq::empty(),
            project_remotes: Seq::empty(),
            worktree_remotes: Seq::empty(),
        }
    } else {
        let before = over_groups(list, keys, n - 1);
        let g = group_of(list, keys[n - 1]);
        GroupedModel {
            projects: before.projects.push(project_of(keys[n - 1], g)),
            worktree_paths: before.worktree_paths + g.paths,
            project_remotes: match g.remote {
                Some(r) => before.project_remotes.push((id_of(keys[n - 1]), r)),
                None => before.project_remotes,
            },
            worktree_remotes: put_all(before.worktree_remotes, g.remote_urls, g.remote_urls.len() as int),
        }
    }
}

pub open spec fn project_ids(list: Seq<ProjectModel>) -> Seq<Seq<char>> {
    Seq::new(list.len(), |i: int| list[i].project_id)
}

pub open spec fn project_names(list: Seq<ProjectModel>) -> Seq<Seq<char>> {
    Seq::new(list.len(), |i: int| list[i].name)
}

/// Projects by id, then by name: in the end by name, and by id where names are
/// equal.
pub open spec fn arranged(list: Seq<ProjectModel>) -> Seq<ProjectModel> {
    let by_id = at_places(list, stable_places(all_codes(project_ids(list))));
    at_places(by_id, stable_places(all_codes(project_names(by_id))))
}

/// The projects that checkouts make, in order, and the tables beside them.
pub open spec fn grouped(list: Seq<DiscoveredModel>) -> GroupedModel {
    let g = over_groups(list, groups(list), groups(list).len() as int);
    GroupedModel { projects: arranged(g.projects), ..g }
}

// ---------------------------------------------------------------------
// Grouping
// ---------------------------------------------------------------------

/// Projects, and the tables beside them.
#[derive(Debug, Clone, PartialEq, Eq)]
pub struct Grouped {
    pub projects: Vec<ProjectRow>,
    pub worktree_paths: Vec<(FsPath, String)>,
    pub project_remotes: Vec<(String, String)>,
    pub worktree_remotes: Vec<(String, String)>,
}

pub open spec fn path_pairs(s: Seq<(FsPath, String)>) -> Seq<(PathModel, Seq<char>)> {
    Seq::new(s.len(), |i: int| (s[i].0@, s[i].1@))
}

pub open spec fn text_pairs(s: Seq<(String, String)>) -> Seq<(Seq<char>, Seq<char>)> {
    Seq::new(s.len(), |i: int| (s[i].0@, s[i].1@))
}

impl View for Grouped {
    type V = GroupedModel;

    open spec fn view(&self) -> GroupedModel {
        GroupedModel {
            projects: projects_view(self.projects@),
            worktree_paths: path_pairs(self.worktree_paths@),
            project_remotes: text_pairs(self.project_remotes@),
            worktree_remotes: text_pairs(self.worktree_remotes@),
        }
    }
}

struct Group {
    worktrees: Vec<WorktreeRow>,
    name: Option<String>,
    main_assigned: bool,
    paths: Vec<(FsPath, String)>,
    remote_urls: Vec<(String, String)>,
    remote: Option<String>,
}

impl View for Group {
    type V = GroupModel;

    closed spec fn view(&self) -> GroupModel {
        GroupModel {
            worktrees: worktrees_view(self.worktrees@),
            name: opt_text(self.name),
            main_assigned: self.main_assigned,
            paths: path_pairs(self.paths@),
            remote_urls: text_pairs(self.remote_urls@),
            remote: opt_text(self.remote),
        }
    }
}

fn make_group_key(d: &DiscoveredWorktree) -> (r: String)
    ensures
        r@ == group_key(d@),
{
    match &d.remote {
        Some(remote) => cat2("remote:", remote.as_str()),
        None => cat2("store:", d.project_id.as_str()),
    }
}

fn find_groups(list: &Vec<DiscoveredWorktree>) -> (r: Vec<String>)
    ensures
        texts(r@) == groups(discovered_view(list@)),
{
    let ghost all = group_keys(discovered_view(list@));
    let mut keys: Vec<String> = Vec::new();
    let mut i: usize = 0;
    assert(texts(keys@) =~= all.take(0));
    while i < list.len()
        invariant
            i <= list@.len(),
            all == group_keys(discovered_view(list@)),
            texts(keys@) == all.take(i as int),
        decreases list@.len() - i,
    {
        assert(discovered_view(list@)[i as int] == list@[i as int]@);
        let k = make_group_key(&list[i]);
        push_text(&mut keys, k.as_str());
        i += 1;
        assert(texts(keys@) =~= all.take(i as int));
    }
    assert(all.take(i as int) =~= all);
    let sorted = sort_texts(&keys);
    drop_repeats(&sorted)
}

fn find_members<'a>(list: &'a Vec<DiscoveredWorktree>, key: &str) -> (r: Vec<&'a DiscoveredWorktree>)
    ensures
        discovered_refs(r@) == members(discovered_view(list@), key@),
{
    let ghost all = discovered_view(list@);
    let mut mine: Vec<&'a DiscoveredWorktree> = Vec::new();
    let mut i: usize = 0;
    assert(discovered_refs(mine@) =~= members_upto(all, key@, 0));
    while i < list.len()
        invariant
            i <= list@.len(),
            all == discovered_view(list@),
            discovered_refs(mine@) == members_upto(all, key@, i as int),
        decreases list@.len() - i,
    {
        assert(all[i as int] == list@[i as int]@);
        let k = make_group_key(&list[i]);
        if same(k.as_str(), key) {
            let ghost prior = mine@;
            mine.push(&list[i]);
            assert(discovered_refs(mine@) =~= discovered_refs(prior).push(list@[i as int]@));
        }
        i += 1;
    }
    assert(all.len() == list@.len());
    let ghost chosen = discovered_refs(mine@);
    let mut keys: Vec<Vec<u32>> = Vec::new();
    let mut k: usize = 0;
    while k < mine.len()
        invariant
            k <= mine@.len(),
            chosen == discovered_refs(mine@),
            keys_of(keys@) == member_keys(chosen).take(k as int),
        decreases mine@.len() - k,
    {
        let one = mine[k].path.key();
        let ghost prior = keys@;
        assert(chosen[k as int] == mine@[k as int]@);
        keys.push(one);
        k += 1;
        assert(keys_of(keys@) =~= keys_of(prior).push(one@));
        assert(keys_of(keys@) =~= member_keys(chosen).take(k as int));
    }
    assert(member_keys(chosen).take(k as int) =~= member_keys(chosen));
    let order = sort_places(&keys);
    let ghost want = members(all, key@);
    let mut out: Vec<&'a DiscoveredWorktree> = Vec::new();
    let mut n: usize = 0;
    assert(discovered_refs(out@) =~= want.take(0));
    while n < order.len()
        invariant
            n <= order@.len(),
            chosen == discovered_refs(mine@),
            want == at_places(chosen, order@),
            forall|j: int| 0 <= j < order@.len() ==> 0 <= #[trigger] order@[j] < mine@.len(),
            discovered_refs(out@) == want.take(n as int),
        decreases order@.len() - n,
    {
        assert(order@[n as int] < mine@.len());
        let d = mine[order[n]];
        assert(want[n as int] == d@);
        let ghost prior = out@;
        out.push(d);
        n += 1;
        assert(discovered_refs(out@) =~= discovered_refs(prior).push(d@));
        assert(discovered_refs(out@) =~= want.take(n as int));
    }
    assert(want.take(n as int) =~= want);
    out
}

fn decide_kind(kind: WorktreeKind, main_assigned: bool) -> (r: WorktreeKind)
    ensures
        r == kind_in_group(kind, main_assigned),
{
    match kind {
        WorktreeKind::Linked => WorktreeKind::Linked,
        _ => if main_assigned {
            WorktreeKind::Clone
        } else {
            WorktreeKind::Main
        },
    }
}

fn put_pair(list: &mut Vec<(String, String)>, key: String, value: String)
    ensures
        text_pairs(final(list)@) == put(text_pairs(old(list)@), key@, value@),
{
    let ghost all = text_pairs(list@);
    let mut i: usize = 0;
    while i < list.len()
        invariant
            i <= list@.len(),
            all == text_pairs(list@),
            list@ == old(list)@,
            put(all, key@, value@) == put_from(all, key@, value@, i as int),
        decreases list@.len() - i,
    {
        assert(all[i as int].0 == list@[i as int].0@);
        if same(list[i].0.as_str(), key.as_str()) {
            let ghost pm = (key@, value@);
            list.set(i, (key, value));
            assert(text_pairs(list@) =~= all.update(i as int, pm));
            return;
        }
        i += 1;
    }
    push_pair(list, key, value);
}

fn put_pairs(list: &mut Vec<(String, String)>, more: &Vec<(String, String)>)
    ensures
        text_pairs(final(list)@) == put_all(text_pairs(old(list)@), text_pairs(more@), more@.len() as int),
{
    let ghost start = text_pairs(list@);
    let ghost all = text_pairs(more@);
    let mut i: usize = 0;
    while i < more.len()
        invariant
            i <= more@.len(),
            all == text_pairs(more@),
            text_pairs(list@) == put_all(start, all, i as int),
        decreases more@.len() - i,
    {
        assert(all[i as int] == (more@[i as int].0@, more@[i as int].1@));
        put_pair(list, more[i].0.as_str().to_owned(), more[i].1.as_str().to_owned());
        i += 1;
    }
}

fn push_pair(v: &mut Vec<(String, String)>, a: String, b: String)
    ensures
        text_pairs(final(v)@) == text_pairs(old(v)@).push((a@, b@)),
{
    let ghost m = (a@, b@);
    v.push((a, b));
    assert(text_pairs(v@) =~= text_pairs(old(v)@).push(m));
}

fn make_worktree_id(path: &FsPath) -> (r: String)
    ensures
        r@ == worktree_id(path@),
{
    let text = path.text();
    id_for(text.as_str())
}

fn join_group(g: &mut Group, d: &DiscoveredWorktree)
    ensures
        final(g)@ == joined_by(old(g)@, d@),
{
    let ghost before = *g;
    let kind = decide_kind(d.kind, g.main_assigned);
    if kind == WorktreeKind::Main || g.name.is_none() {
        g.name = Some(d.project_name.as_str().to_owned());
    }
    if kind == WorktreeKind::Main {
        g.main_assigned = true;
    }
    match &d.remote_url {
        Some(r) => {
            put_pair(&mut g.remote_urls, make_worktree_id(&d.path), r.as_str().to_owned());
        },
        None => {},
    }
    if g.remote.is_none() {
        g.remote = copy_opt(&d.remote);
    }
    g.paths.push((d.path.copy(), make_worktree_id(&d.path)));
    assert(path_pairs(g.paths@) =~= path_pairs(before.paths@).push((d@.path, worktree_id(d@.path))));
    let artifacts: Vec<ArtifactRow> = Vec::new();
    assert(crate::report::artifacts_view(artifacts@) =~= Seq::<ArtifactRowModel>::empty());
    let row = WorktreeRow { worktree_id: make_worktree_id(&d.path), path: d.path.copy(), kind, artifacts };
    let ghost rm = row@;
    g.worktrees.push(row);
    assert(worktrees_view(g.worktrees@) =~= worktrees_view(before.worktrees@).push(rm));
}

fn make_group(list: &Vec<DiscoveredWorktree>, key: &str) -> (r: Group)
    ensures
        r@ == group_of(discovered_view(list@), key@),
{
    let mine = find_members(list, key);
    let ghost all = members(discovered_view(list@), key@);
    let mut g = Group {
        worktrees: Vec::new(),
        name: None,
        main_assigned: false,
        paths: Vec::new(),
        remote_urls: Vec::new(),
        remote: None,
    };
    assert(worktrees_view(g.worktrees@) =~= Seq::<WorktreeModel>::empty());
    assert(path_pairs(g.paths@) =~= Seq::<(PathModel, Seq<char>)>::empty());
    assert(text_pairs(g.remote_urls@) =~= Seq::<(Seq<char>, Seq<char>)>::empty());
    let mut i: usize = 0;
    while i < mine.len()
        invariant
            i <= mine@.len(),
            all == discovered_refs(mine@),
            g@ == over_members(all, i as int),
        decreases mine@.len() - i,
    {
        assert(all[i as int] == mine@[i as int]@);
        join_group(&mut g, mine[i]);
        i += 1;
    }
    assert(all.len() == mine@.len());
    g
}

fn take_projects(list: &Vec<ProjectRow>, order: &Vec<usize>) -> (r: Vec<ProjectRow>)
    requires
        forall|i: int| 0 <= i < order@.len() ==> 0 <= #[trigger] order@[i] < list@.len(),
    ensures
        projects_view(r@) == at_places(projects_view(list@), order@),
{
    let ghost all = projects_view(list@);
    let ghost want = at_places(all, order@);
    let mut out: Vec<ProjectRow> = Vec::new();
    let mut i: usize = 0;
    assert(projects_view(out@) =~= want.take(0));
    while i < order.len()
        invariant
            i <= order@.len(),
            all == projects_view(list@),
            want == at_places(all, order@),
            forall|k: int| 0 <= k < order@.len() ==> 0 <= #[trigger] order@[k] < list@.len(),
            projects_view(out@) == want.take(i as int),
        decreases order@.len() - i,
    {
        assert(order@[i as int] < list@.len());
        let p = copy_project(&list[order[i]]);
        let ghost pm = p@;
        assert(want[i as int] == pm);
        let ghost prior = out@;
        out.push(p);
        i += 1;
        assert(projects_view(out@) =~= projects_view(prior).push(pm));
        assert(projects_view(out@) =~= want.take(i as int));
    }
    assert(want.take(i as int) =~= want);
    out
}

fn arrange(list: &Vec<ProjectRow>) -> (r: Vec<ProjectRow>)
    ensures
        projects_view(r@) == arranged(projects_view(list@)),
{
    let ghost all = projects_view(list@);
    let mut ids: Vec<String> = Vec::new();
    let mut i: usize = 0;
    assert(texts(ids@) =~= project_ids(all).take(0));
    while i < list.len()
        invariant
            i <= list@.len(),
            all == projects_view(list@),
            ids@.len() == i,
            texts(ids@) == project_ids(all).take(i as int),
        decreases list@.len() - i,
    {
        assert(all[i as int] == list@[i as int]@);
        push_text(&mut ids, list[i].project_id.as_str());
        i += 1;
        assert(texts(ids@).len() == ids@.len());
        assert(texts(ids@) =~= project_ids(all).take(i as int));
    }
    assert(project_ids(all).take(i as int) =~= project_ids(all));
    let order = text_places(&ids);
    let by_id = take_projects(list, &order);
    let ghost next = projects_view(by_id@);
    let mut names: Vec<String> = Vec::new();
    let mut k: usize = 0;
    assert(texts(names@) =~= project_names(next).take(0));
    while k < by_id.len()
        invariant
            k <= by_id@.len(),
            next == projects_view(by_id@),
            names@.len() == k,
            texts(names@) == project_names(next).take(k as int),
        decreases by_id@.len() - k,
    {
        assert(next[k as int] == by_id@[k as int]@);
        push_text(&mut names, by_id[k].name.as_str());
        k += 1;
        assert(texts(names@).len() == names@.len());
        assert(texts(names@) =~= project_names(next).take(k as int));
    }
    assert(project_names(next).take(k as int) =~= project_names(next));
    let order = text_places(&names);
    take_projects(&by_id, &order)
}

fn make_project(key: &str, g: &Group) -> (r: ProjectRow)
    ensures
        r@ == project_of(key@, g@),
{
    let ecosystems: Vec<String> = Vec::new();
    assert(texts(ecosystems@) =~= Seq::<Seq<char>>::empty());
    let name = match &g.name {
        Some(n) => n.as_str().to_owned(),
        None => {
            let none = String::new();
            assert(none@ =~= Seq::<char>::empty());
            none
        },
    };
    ProjectRow {
        project_id: id_for(key),
        name,
        worktrees: copy_worktrees(&g.worktrees),
        ecosystems,
        remote: copy_opt(&g.remote),
    }
}

/// Groups checkouts into projects.
pub fn group_projects(list: &Vec<DiscoveredWorktree>) -> (r: Grouped)
    ensures
        r@ == grouped(discovered_view(list@)),
{
    let ghost all = discovered_view(list@);
    let keys = find_groups(list);
    let ghost names = texts(keys@);
    let mut out = Grouped {
        projects: Vec::new(),
        worktree_paths: Vec::new(),
        project_remotes: Vec::new(),
        worktree_remotes: Vec::new(),
    };
    assert(projects_view(out.projects@) =~= Seq::<ProjectModel>::empty());
    assert(path_pairs(out.worktree_paths@) =~= Seq::<(PathModel, Seq<char>)>::empty());
    assert(text_pairs(out.project_remotes@) =~= Seq::<(Seq<char>, Seq<char>)>::empty());
    assert(text_pairs(out.worktree_remotes@) =~= Seq::<(Seq<char>, Seq<char>)>::empty());
    let mut i: usize = 0;
    while i < keys.len()
        invariant
            i <= keys@.len(),
            all == discovered_view(list@),
            names == texts(keys@),
            out@ == over_groups(all, names, i as int),
        decreases keys@.len() - i,
    {
        assert(names[i as int] == keys@[i as int]@);
        let g = make_group(list, keys[i].as_str());
        let ghost gm = g@;
        let p = make_project(keys[i].as_str(), &g);
        let ghost pm = p@;
        let ghost before = out;
        out.projects.push(p);
        assert(projects_view(out.projects@) =~= projects_view(before.projects@).push(pm));
        match &g.remote {
            Some(r) => {
                push_pair(&mut out.project_remotes, id_for(keys[i].as_str()), r.as_str().to_owned());
            },
            None => {},
        }
        let mut paths = g.paths;
        out.worktree_paths.append(&mut paths);
        assert(path_pairs(out.worktree_paths@) =~= path_pairs(before.worktree_paths@) + gm.paths);
        put_pairs(&mut out.worktree_remotes, &g.remote_urls);
        i += 1;
    }
    assert(names.len() == keys@.len());
    let arranged_rows = arrange(&out.projects);
    Grouped { projects: arranged_rows, ..out }
}

// ---------------------------------------------------------------------
// The consumer
// ---------------------------------------------------------------------

/// What a report adds up to.
#[derive(Debug, Clone, Copy, PartialEq, Eq, Structural)]
pub struct Reconciliation {
    pub attributed: u64,
    pub unowned: u64,
    pub walked_total: u64,
    pub docker_attributed: u64,
    pub docker_unowned: u64,
}

/// What a walk of a root found.
#[derive(Debug, Clone, PartialEq, Eq)]
pub struct RootObserved {
    pub discovered: Vec<DiscoveredWorktree>,
    pub attributed_total: u64,
    pub unowned_total: u64,
    pub walked_total: u64,
    pub notes: Vec<String>,
    pub rewalked: Vec<String>,
    pub unconfirmed_worktree_ids: Vec<String>,
}

/// What is passed from consumer to consumer.
#[derive(Debug, Clone, PartialEq, Eq)]
pub enum Event {
    RootObserved(RootObserved),
    Other,
}

/// The projects of a root, and what the walk said beside them.
#[derive(Debug, Clone, PartialEq, Eq)]
pub struct ProjectsGrouped {
    pub grouped: Grouped,
    pub reconciliation: Reconciliation,
    pub notes: Vec<String>,
    pub rewalked: Vec<String>,
    pub unconfirmed_worktree_ids: Vec<String>,
}

/// Turns a walk of a root into projects.
#[derive(Debug, Clone, Copy)]
pub struct ProjectsConsumer;

/// Whether an event is what a walk makes.
pub open spec fn follows(walk: RootObserved, e: ProjectsGrouped) -> bool {
    &&& e.grouped@ == grouped(discovered_view(walk.discovered@))
    &&& e.reconciliation == Reconciliation {
        attributed: walk.attributed_total,
        unowned: walk.unowned_total,
        walked_total: walk.walked_total,
        docker_attributed: 0,
        docker_unowned: 0,
    }
    &&& texts(e.notes@) == texts(walk.notes@)
    &&& texts(e.rewalked@) == texts(walk.rewalked@)
    &&& texts(e.unconfirmed_worktree_ids@) == texts(walk.unconfirmed_worktree_ids@)
}

impl ProjectsConsumer {
    pub fn name(&self) -> (r: &'static str)
        ensures
            r@ == "projects"@,
    {
        "projects"
    }

    /// What follows from an event: projects from a walk, and nothing from
    /// anything else.
    pub fn on_event(&self, event: &Event) -> (r: Option<ProjectsGrouped>)
        ensures
            match event {
                Event::RootObserved(walk) => r matches Some(e) && follows(*walk, e),
                Event::Other => r is None,
            },
    {
        match event {
            Event::RootObserved(walk) => Some(
                ProjectsGrouped {
                    grouped: group_projects(&walk.discovered),
                    reconciliation: Reconciliation {
                        attributed: walk.attributed_total,
                        unowned: walk.unowned_total,
                        walked_total: walk.walked_total,
                        docker_attributed: 0,
                        docker_unowned: 0,
                    },
                    notes: copy_all(&walk.notes),
                    rewalked: copy_all(&walk.rewalked),
                    unconfirmed_worktree_ids: copy_all(&walk.unconfirmed_worktree_ids),
                },
            ),
            Event::Other => None,
        }
    }
}

// ---------------------------------------------------------------------
// Laws
// ---------------------------------------------------------------------

spec fn mains(list: Seq<WorktreeModel>, n: int) -> nat
    decreases n,
{
    if n <= 0 {
        0
    } else {
        mains(list, n - 1) + (if list[n - 1].kind == WorktreeKind::Main {
            1nat
        } else {
            0
        })
    }
}

/// How many main checkouts a project has.
pub closed spec fn main_count(list: Seq<WorktreeModel>) -> nat {
    mains(list, list.len() as int)
}

proof fn lemma_mains_front(list: Seq<WorktreeModel>, w: WorktreeModel, n: int)
    requires
        0 <= n <= list.len(),
    ensures
        mains(list.push(w), n) == mains(list, n),
    decreases n,
{
    if n > 0 {
        lemma_mains_front(list, w, n - 1);
    }
}

/// A project has at most one main checkout, and one exactly when any of its
/// checkouts is not a linked worktree.
pub proof fn law_one_main_checkout(list: Seq<DiscoveredModel>, n: int)
    requires
        0 <= n <= list.len(),
    ensures
        over_members(list, n).worktrees.len() == n,
        main_count(over_members(list, n).worktrees) == (if over_members(list, n).main_assigned {
            1nat
        } else {
            0
        }),
        over_members(list, n).main_assigned <==> exists|i: int| 0 <= i < n && (#[trigger] list[i]).kind
            != WorktreeKind::Linked,
    decreases n,
{
    if n > 0 {
        law_one_main_checkout(list, n - 1);
        let before = over_members(list, n - 1);
        let now = over_members(list, n);
        let w = now.worktrees.last();
        assert(now.worktrees =~= before.worktrees.push(w));
        lemma_mains_front(before.worktrees, w, before.worktrees.len() as int);
        if now.main_assigned {
            if list[n - 1].kind != WorktreeKind::Linked {
                assert(list[n - 1].kind != WorktreeKind::Linked);
            } else {
                let i = choose|i: int| 0 <= i < n - 1 && (#[trigger] list[i]).kind != WorktreeKind::Linked;
                assert(list[i].kind != WorktreeKind::Linked);
            }
        }
    }
}

/// Two clones of one remote are one project, and checkouts of different remotes
/// are not.
pub proof fn law_remotes_decide_projects(a: DiscoveredModel, b: DiscoveredModel)
    requires
        a.remote is Some,
        b.remote is Some,
    ensures
        id_of(group_key(a)) == id_of(group_key(b)) <==> a.remote == b.remote,
{
    law_ids_are_faithful(group_key(a), group_key(b));
    if group_key(a) == group_key(b) {
        let n = "remote:"@.len() as int;
        assert(a.remote->0 =~= group_key(a).skip(n));
        assert(b.remote->0 =~= group_key(b).skip(n));
    }
}

/// Whether a table has one value for each key.
pub open spec fn one_each(table: Seq<(Seq<char>, Seq<char>)>) -> bool {
    forall|i: int, j: int| 0 <= i < j < table.len() ==> (#[trigger] table[i]).0 != (#[trigger] table[j]).0
}

proof fn lemma_put_once(table: Seq<(Seq<char>, Seq<char>)>, key: Seq<char>, value: Seq<char>, i: int)
    requires
        one_each(table),
        0 <= i <= table.len(),
        forall|k: int| 0 <= k < i ==> (#[trigger] table[k]).0 != key,
    ensures
        one_each(put_from(table, key, value, i)),
        put_from(table, key, value, i).contains((key, value)),
    decreases table.len() - i,
{
    if i < table.len() && table[i].0 != key {
        lemma_put_once(table, key, value, i + 1);
    } else if i < table.len() {
        assert(put_from(table, key, value, i)[i] == (key, value));
    } else {
        assert(put_from(table, key, value, i)[i] == (key, value));
    }
}

proof fn lemma_put_all_once(table: Seq<(Seq<char>, Seq<char>)>, more: Seq<(Seq<char>, Seq<char>)>, n: int)
    requires
        one_each(table),
    ensures
        one_each(put_all(table, more, n)),
    decreases n,
{
    if n > 0 {
        lemma_put_all_once(table, more, n - 1);
        lemma_put_once(put_all(table, more, n - 1), more[n - 1].0, more[n - 1].1, 0);
    }
}

proof fn lemma_groups_once(list: Seq<DiscoveredModel>, keys: Seq<Seq<char>>, n: int)
    ensures
        one_each(over_groups(list, keys, n).worktree_remotes),
    decreases n,
{
    if n > 0 {
        lemma_groups_once(list, keys, n - 1);
        let g = group_of(list, keys[n - 1]);
        lemma_put_all_once(
            over_groups(list, keys, n - 1).worktree_remotes,
            g.remote_urls,
            g.remote_urls.len() as int,
        );
    }
}

/// A checkout that was found twice has one remote: the one that was found last.
pub proof fn law_one_remote_for_each_worktree(list: Seq<DiscoveredModel>)
    ensures
        one_each(grouped(list).worktree_remotes),
{
    lemma_groups_once(list, groups(list), groups(list).len() as int);
}

/// What is put into a table last is what stands there.
pub proof fn law_the_last_put_stands(table: Seq<(Seq<char>, Seq<char>)>, key: Seq<char>, value: Seq<char>)
    requires
        one_each(table),
    ensures
        one_each(put(table, key, value)),
        put(table, key, value).contains((key, value)),
{
    lemma_put_once(table, key, value, 0);
}

} // verus!
