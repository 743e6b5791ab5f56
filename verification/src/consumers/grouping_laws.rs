//! What grouping checkouts comes to: every checkout is in one project, with
//! those that belong with it and no others.

use super::projects::{
    arranged, group_key, group_keys, group_of, grouped, groups, member_keys, members, members_upto, over_groups,
    over_members, project_ids, project_names, project_of, DiscoveredModel,
};
use crate::order::{
    at_places, before, lemma_lex_asymmetric, lemma_lex_irreflexive, lemma_lex_transitive, lemma_stable_places, lex_less,
    place_in, stable_places,
};
use crate::path::{lemma_char_range, path_key, path_less, path_text, PathModel};
use crate::report::{id_of, law_ids_are_faithful, ProjectModel, WorktreeKind, WorktreeModel};
use crate::text::{all_codes, codes, sorted_texts, without_repeats};
use vstd::prelude::*;

verus! {

/// Whether two checkouts belong together: they have one remote, or neither has
/// a remote and they share an object store.
pub open spec fn belong(a: DiscoveredModel, b: DiscoveredModel) -> bool {
    match (a.remote, b.remote) {
        (Some(x), Some(y)) => x == y,
        (None, None) => a.project_id == b.project_id,
        _ => false,
    }
}

proof fn lemma_keys_tell_apart(a: DiscoveredModel, b: DiscoveredModel)
    ensures
        group_key(a) == group_key(b) <==> belong(a, b),
{
    reveal_strlit("remote:");
    reveal_strlit("store:");
    let x = group_key(a);
    let y = group_key(b);
    if x == y {
        assert(x[0] == y[0]);
        match (a.remote, b.remote) {
            (Some(p), Some(q)) => {
                assert(p =~= x.skip(7));
                assert(q =~= y.skip(7));
            },
            (None, None) => {
                assert(a.project_id =~= x.skip(6));
                assert(b.project_id =~= y.skip(6));
            },
            _ => {},
        }
    }
}

// ---------------------------------------------------------------------
// Lists in order
// ---------------------------------------------------------------------

proof fn lemma_codes_tell_apart(a: Seq<char>, b: Seq<char>)
    requires
        codes(a) == codes(b),
    ensures
        a == b,
{
    assert(codes(a).len() == a.len() && codes(b).len() == b.len());
    assert forall|i: int| 0 <= i < a.len() implies a[i] == b[i] by {
        assert(codes(a)[i] == a[i] as u32 && codes(b)[i] == b[i] as u32);
        lemma_char_range(a[i]);
        lemma_char_range(b[i]);
    }
    assert(a =~= b);
}

pub open spec fn rising(list: Seq<Seq<char>>) -> bool {
    forall|i: int, j: int|
        0 <= i < j < list.len() ==> lex_less(codes(#[trigger] list[i]), codes(#[trigger] list[j])) || list[i] == list[j]
}

pub(crate) proof fn lemma_sorted_texts(list: Seq<Seq<char>>)
    requires
        list.len() <= usize::MAX,
    ensures
        rising(sorted_texts(list)),
        forall|t: Seq<char>| sorted_texts(list).contains(t) <==> list.contains(t),
{
    let keys = all_codes(list);
    lemma_stable_places(keys);
    let order = stable_places(keys);
    let out = sorted_texts(list);
    assert forall|i: int, j: int| 0 <= i < j < out.len() implies lex_less(
        codes(#[trigger] out[i]),
        codes(#[trigger] out[j]),
    ) || out[i] == out[j] by {
        assert(before(keys, order[i] as int, order[j] as int));
        assert(keys[order[i] as int] == codes(out[i]));
        assert(keys[order[j] as int] == codes(out[j]));
        if codes(out[i]) == codes(out[j]) {
            lemma_codes_tell_apart(out[i], out[j]);
        }
    }
    assert forall|t: Seq<char>| out.contains(t) <==> list.contains(t) by {
        if out.contains(t) {
            let i = choose|i: int| 0 <= i < out.len() && out[i] == t;
            assert(0 <= order[i] < keys.len());
            assert(list[order[i] as int] == t);
        }
        if list.contains(t) {
            let k = choose|k: int| 0 <= k < list.len() && list[k] == t;
            assert(place_in(order, k));
            let i = choose|i: int| 0 <= i < order.len() && order[i] == k;
            assert(out[i] == t);
        }
    }
}

pub(crate) proof fn lemma_repeats_dropped(list: Seq<Seq<char>>)
    requires
        rising(list),
    ensures
        without_repeats(list).len() <= list.len(),
        forall|i: int, j: int|
            0 <= i < j < without_repeats(list).len() ==> lex_less(
                codes(#[trigger] without_repeats(list)[i]),
                codes(#[trigger] without_repeats(list)[j]),
            ),
        forall|t: Seq<char>| without_repeats(list).contains(t) <==> list.contains(t),
        list.len() > 0 ==> without_repeats(list).len() > 0 && without_repeats(list).last() == list.last(),
    decreases list.len(),
{
    if list.len() > 1 {
        let head = list.drop_last();
        let out = without_repeats(list);
        let shorter = without_repeats(head);
        assert forall|i: int, j: int| 0 <= i < j < head.len() implies lex_less(
            codes(#[trigger] head[i]),
            codes(#[trigger] head[j]),
        ) || head[i] == head[j] by {
            assert(head[i] == list[i] && head[j] == list[j]);
        }
        lemma_repeats_dropped(head);
        let last = list.last();
        let prior = list[list.len() - 2];
        assert(head.last() == prior);
        assert(lex_less(codes(prior), codes(last)) || prior == last) by {
            assert(list[list.len() - 2] == prior && list[list.len() - 1] == last);
        }
        assert forall|t: Seq<char>| list.contains(t) <==> head.contains(t) || t == last by {
            if list.contains(t) {
                let i = choose|i: int| 0 <= i < list.len() && list[i] == t;
                if i < head.len() {
                    assert(head[i] == t);
                }
            }
            if head.contains(t) {
                let i = choose|i: int| 0 <= i < head.len() && head[i] == t;
                assert(list[i] == t);
            }
            assert(list[list.len() - 1] == last);
        }
        if last == prior {
            assert(head[head.len() - 1] == last);
            assert(head.contains(last));
        } else {
            assert forall|t: Seq<char>| out.contains(t) <==> shorter.contains(t) || t == last by {
                if out.contains(t) {
                    let i = choose|i: int| 0 <= i < out.len() && out[i] == t;
                    if i < shorter.len() {
                        assert(shorter[i] == t);
                    }
                }
                if shorter.contains(t) {
                    let i = choose|i: int| 0 <= i < shorter.len() && shorter[i] == t;
                    assert(out[i] == t);
                }
                assert(out[out.len() - 1] == last);
            }
            assert forall|i: int, j: int| 0 <= i < j < out.len() implies lex_less(
                codes(#[trigger] out[i]),
                codes(#[trigger] out[j]),
            ) by {
                if j < shorter.len() {
                    assert(out[i] == shorter[i] && out[j] == shorter[j]);
                } else {
                    assert(out[i] == shorter[i]);
                    if i < shorter.len() - 1 {
                        assert(lex_less(codes(shorter[i]), codes(shorter[shorter.len() - 1])));
                        lemma_lex_transitive(codes(shorter[i]), codes(prior), codes(last));
                    }
                }
            }
        }
    }
}

/// The keys of the projects are the keys of the checkouts, each once.
proof fn lemma_groups(list: Seq<DiscoveredModel>)
    requires
        list.len() <= usize::MAX,
    ensures
        groups(list).len() <= list.len(),
        forall|i: int, j: int|
            0 <= i < j < groups(list).len() ==> (#[trigger] groups(list)[i]) != (#[trigger] groups(list)[j]),
        forall|i: int| 0 <= i < list.len() ==> groups(list).contains(#[trigger] group_key(list[i])),
        forall|g: int|
            0 <= g < groups(list).len() ==> exists|i: int|
                0 <= i < list.len() && group_key(#[trigger] list[i]) == #[trigger] groups(list)[g],
{
    let keys = group_keys(list);
    lemma_sorted_texts(keys);
    let sorted = sorted_texts(keys);
    lemma_stable_places(all_codes(keys));
    lemma_repeats_dropped(sorted);
    let out = groups(list);
    assert forall|i: int, j: int| 0 <= i < j < out.len() implies (#[trigger] out[i]) != (#[trigger] out[j]) by {
        lemma_lex_irreflexive(codes(out[i]));
    }
    assert forall|i: int| 0 <= i < list.len() implies out.contains(#[trigger] group_key(list[i])) by {
        assert(keys[i] == group_key(list[i]));
        assert(keys.contains(group_key(list[i])));
    }
    assert forall|g: int| 0 <= g < out.len() implies exists|i: int|
        0 <= i < list.len() && group_key(#[trigger] list[i]) == #[trigger] out[g] by {
        assert(out.contains(out[g]));
        assert(keys.contains(out[g]));
        let i = choose|i: int| 0 <= i < keys.len() && keys[i] == out[g];
        assert(group_key(list[i]) == out[g]);
    }
}

// ---------------------------------------------------------------------
// The checkouts of a project
// ---------------------------------------------------------------------

spec fn places_upto(list: Seq<DiscoveredModel>, key: Seq<char>, n: int) -> Seq<int>
    decreases n,
{
    if n <= 0 {
        Seq::empty()
    } else if group_key(list[n - 1]) == key {
        places_upto(list, key, n - 1).push(n - 1)
    } else {
        places_upto(list, key, n - 1)
    }
}

proof fn lemma_places(list: Seq<DiscoveredModel>, key: Seq<char>, n: int)
    requires
        0 <= n <= list.len(),
    ensures
        places_upto(list, key, n).len() == members_upto(list, key, n).len() <= n,
        forall|k: int|
            0 <= k < places_upto(list, key, n).len() ==> {
                &&& 0 <= #[trigger] places_upto(list, key, n)[k] < n
                &&& members_upto(list, key, n)[k] == list[places_upto(list, key, n)[k]]
                &&& group_key(list[places_upto(list, key, n)[k]]) == key
            },
        forall|j: int, k: int|
            0 <= j < k < places_upto(list, key, n).len() ==> (#[trigger] places_upto(list, key, n)[j])
                < #[trigger] places_upto(list, key, n)[k],
        forall|i: int|
            0 <= i < n && group_key(#[trigger] list[i]) == key ==> places_upto(list, key, n).contains(i),
    decreases n,
{
    if n > 0 {
        lemma_places(list, key, n - 1);
        let prior = places_upto(list, key, n - 1);
        let now = places_upto(list, key, n);
        assert forall|i: int| 0 <= i < n && group_key(#[trigger] list[i]) == key implies now.contains(i) by {
            if i < n - 1 {
                assert(prior.contains(i));
                let k = choose|k: int| 0 <= k < prior.len() && prior[k] == i;
                assert(now[k] == i);
            } else {
                assert(now[now.len() - 1] == i);
            }
        }
    }
}

/// The places of a project's checkouts, in path order.
spec fn chosen(list: Seq<DiscoveredModel>, key: Seq<char>) -> Seq<int> {
    at_places(
        places_upto(list, key, list.len() as int),
        stable_places(member_keys(members_upto(list, key, list.len() as int))),
    )
}

/// Whether a project is made of the checkouts at the given places: of all that
/// belong together and of no others, in path order, the first that is not a
/// linked worktree the main one and giving the name.
pub open spec fn made_of(p: ProjectModel, list: Seq<DiscoveredModel>, m: Seq<int>) -> bool {
    &&& m.len() > 0
    &&& forall|k: int| 0 <= k < m.len() ==> 0 <= #[trigger] m[k] < list.len()
    &&& forall|j: int, k: int| 0 <= j < k < m.len() ==> #[trigger] m[j] != #[trigger] m[k]
    &&& forall|j: int, k: int|
        0 <= j < k < m.len() ==> !path_less(list[#[trigger] m[k]].path, list[#[trigger] m[j]].path)
    &&& forall|i: int| 0 <= i < list.len() ==> (m.contains(i) <==> belong(#[trigger] list[i], list[m[0]]))
    &&& p.worktrees.len() == m.len()
    &&& forall|k: int| 0 <= k < m.len() ==> stands_for(#[trigger] p.worktrees[k], list, m, k)
    &&& p.remote == list[m[0]].remote
    &&& forall|k: int|
        0 <= k < m.len() && (#[trigger] p.worktrees[k]).kind == WorktreeKind::Main ==> p.name
            == list[m[k]].project_name
    &&& (forall|k: int| 0 <= k < m.len() ==> list[#[trigger] m[k]].kind == WorktreeKind::Linked) ==> p.name
        == list[m[0]].project_name
}

/// Whether checkout `m[k]` is the first of its project that is not a linked
/// worktree.
pub open spec fn leads(list: Seq<DiscoveredModel>, m: Seq<int>, k: int) -> bool {
    &&& list[m[k]].kind != WorktreeKind::Linked
    &&& forall|j: int| 0 <= j < k ==> list[#[trigger] m[j]].kind == WorktreeKind::Linked
}

pub open spec fn stands_for(w: WorktreeModel, list: Seq<DiscoveredModel>, m: Seq<int>, k: int) -> bool {
    let d = list[m[k]];
    &&& w.path == d.path
    &&& w.worktree_id == id_of(path_text(d.path))
    &&& w.artifacts.len() == 0
    &&& (w.kind == WorktreeKind::Linked <==> d.kind == WorktreeKind::Linked)
    &&& (w.kind == WorktreeKind::Main <==> leads(list, m, k))
}

proof fn lemma_chosen(list: Seq<DiscoveredModel>, key: Seq<char>)
    requires
        list.len() <= usize::MAX,
    ensures
        chosen(list, key).len() == members(list, key).len(),
        forall|k: int|
            0 <= k < chosen(list, key).len() ==> {
                &&& 0 <= #[trigger] chosen(list, key)[k] < list.len()
                &&& members(list, key)[k] == list[chosen(list, key)[k]]
                &&& group_key(list[chosen(list, key)[k]]) == key
            },
        forall|j: int, k: int|
            0 <= j < k < chosen(list, key).len() ==> {
                &&& #[trigger] chosen(list, key)[j] != #[trigger] chosen(list, key)[k]
                &&& !path_less(list[chosen(list, key)[k]].path, list[chosen(list, key)[j]].path)
            },
        forall|i: int| 0 <= i < list.len() && group_key(#[trigger] list[i]) == key ==> chosen(list, key).contains(i),
{
    let n = list.len() as int;
    let all = members_upto(list, key, n);
    let from = places_upto(list, key, n);
    lemma_places(list, key, n);
    let keys = member_keys(all);
    lemma_stable_places(keys);
    let order = stable_places(keys);
    let m = chosen(list, key);
    assert forall|k: int| 0 <= k < m.len() implies {
        &&& 0 <= #[trigger] m[k] < list.len()
        &&& members(list, key)[k] == list[m[k]]
        &&& group_key(list[m[k]]) == key
    } by {
        assert(0 <= order[k] < keys.len());
        assert(m[k] == from[order[k] as int]);
    }
    assert forall|j: int, k: int| 0 <= j < k < m.len() implies {
        &&& #[trigger] m[j] != #[trigger] m[k]
        &&& !path_less(list[m[k]].path, list[m[j]].path)
    } by {
        let a = order[j] as int;
        let b = order[k] as int;
        assert(before(keys, a, b));
        lemma_lex_irreflexive(keys[a]);
        assert(m[j] == from[a] && m[k] == from[b]);
        if a < b {
            assert(from[a] < from[b]);
        } else {
            assert(a != b);
            assert(from[b] < from[a]);
        }
        assert(keys[a] == path_key(list[m[j]].path));
        assert(keys[b] == path_key(list[m[k]].path));
        if lex_less(keys[a], keys[b]) {
            lemma_lex_asymmetric(keys[a], keys[b]);
        }
    }
    assert forall|i: int| 0 <= i < n && group_key(#[trigger] list[i]) == key implies m.contains(i) by {
        assert(from.contains(i));
        let q = choose|q: int| 0 <= q < from.len() && from[q] == i;
        assert(place_in(order, q));
        let k = choose|k: int| 0 <= k < order.len() && order[k] == q;
        assert(m[k] == i);
    }
}

/// What the first `n` checkouts of a project make of it.
proof fn lemma_over_members(mine: Seq<DiscoveredModel>, n: int)
    requires
        0 <= n <= mine.len(),
    ensures
        ({
            let g = over_members(mine, n);
            &&& g.worktrees.len() == n
            &&& g.main_assigned <==> exists|j: int| 0 <= j < n && (#[trigger] mine[j]).kind != WorktreeKind::Linked
            &&& forall|k: int|
                0 <= k < n ==> {
                    let w = #[trigger] g.worktrees[k];
                    &&& w.path == mine[k].path
                    &&& w.worktree_id == id_of(path_text(mine[k].path))
                    &&& w.artifacts.len() == 0
                    &&& (w.kind == WorktreeKind::Linked <==> mine[k].kind == WorktreeKind::Linked)
                    &&& (w.kind == WorktreeKind::Main <==> mine[k].kind != WorktreeKind::Linked && forall|j: int|
                        0 <= j < k ==> (#[trigger] mine[j]).kind == WorktreeKind::Linked)
                    &&& (w.kind == WorktreeKind::Main ==> g.name == Some(mine[k].project_name))
                }
            &&& n > 0 ==> g.name is Some
            &&& n > 0 && !g.main_assigned ==> g.name == Some(mine[0].project_name)
            &&& n > 0 && (forall|k: int| 0 <= k < n ==> (#[trigger] mine[k]).remote == mine[0].remote) ==> g.remote
                == mine[0].remote
            &&& n == 0 ==> g.remote is None && g.name is None
        }),
    decreases n,
{
    if n > 0 {
        lemma_over_members(mine, n - 1);
        let prior = over_members(mine, n - 1);
        let g = over_members(mine, n);
        let d = mine[n - 1];
        if prior.main_assigned {
            let j = choose|j: int| 0 <= j < n - 1 && (#[trigger] mine[j]).kind != WorktreeKind::Linked;
            assert(mine[j].kind != WorktreeKind::Linked);
        } else if d.kind != WorktreeKind::Linked {
            assert(mine[n - 1].kind != WorktreeKind::Linked);
        }
        assert forall|k: int| 0 <= k < n implies {
            let w = #[trigger] g.worktrees[k];
            &&& w.path == mine[k].path
            &&& w.worktree_id == id_of(path_text(mine[k].path))
            &&& w.artifacts.len() == 0
            &&& (w.kind == WorktreeKind::Linked <==> mine[k].kind == WorktreeKind::Linked)
            &&& (w.kind == WorktreeKind::Main <==> mine[k].kind != WorktreeKind::Linked && forall|j: int|
                0 <= j < k ==> (#[trigger] mine[j]).kind == WorktreeKind::Linked)
            &&& (w.kind == WorktreeKind::Main ==> g.name == Some(mine[k].project_name))
        } by {
            if k < n - 1 {
                assert(g.worktrees[k] == prior.worktrees[k]);
            }
        }
        if forall|k: int| 0 <= k < n ==> (#[trigger] mine[k]).remote == mine[0].remote {
            assert(forall|k: int| 0 <= k < n - 1 ==> (#[trigger] mine[k]).remote == mine[0].remote);
            assert(mine[n - 1].remote == mine[0].remote);
        }
    }
}

proof fn lemma_project(list: Seq<DiscoveredModel>, key: Seq<char>)
    requires
        list.len() <= usize::MAX,
        exists|i: int| 0 <= i < list.len() && group_key(#[trigger] list[i]) == key,
    ensures
        made_of(project_of(key, group_of(list, key)), list, chosen(list, key)),
{
    let m = chosen(list, key);
    let mine = members(list, key);
    let p = project_of(key, group_of(list, key));
    lemma_chosen(list, key);
    lemma_over_members(mine, mine.len() as int);
    let i = choose|i: int| 0 <= i < list.len() && group_key(#[trigger] list[i]) == key;
    assert(m.contains(i));
    assert(m.len() > 0);
    assert(group_key(list[m[0]]) == key);
    assert forall|i: int| 0 <= i < list.len() implies (m.contains(i) <==> belong(#[trigger] list[i], list[m[0]])) by {
        lemma_keys_tell_apart(list[i], list[m[0]]);
        if m.contains(i) {
            let k = choose|k: int| 0 <= k < m.len() && m[k] == i;
            assert(group_key(list[m[k]]) == key);
        }
    }
    assert forall|k: int| 0 <= k < mine.len() implies (#[trigger] mine[k]).remote == mine[0].remote by {
        assert(mine[k] == list[m[k]] && mine[0] == list[m[0]]);
        lemma_keys_tell_apart(list[m[k]], list[m[0]]);
    }
    assert forall|k: int| 0 <= k < m.len() implies stands_for(#[trigger] p.worktrees[k], list, m, k) by {
        assert(mine[k] == list[m[k]]);
        if leads(list, m, k) {
            assert forall|j: int| 0 <= j < k implies (#[trigger] mine[j]).kind == WorktreeKind::Linked by {
                assert(mine[j] == list[m[j]]);
            }
        }
        if p.worktrees[k].kind == WorktreeKind::Main {
            assert forall|j: int| 0 <= j < k implies list[#[trigger] m[j]].kind == WorktreeKind::Linked by {
                assert(mine[j] == list[m[j]]);
            }
        }
    }
    if forall|k: int| 0 <= k < m.len() ==> list[#[trigger] m[k]].kind == WorktreeKind::Linked {
        assert forall|k: int| 0 <= k < mine.len() implies (#[trigger] mine[k]).kind == WorktreeKind::Linked by {
            assert(mine[k] == list[m[k]]);
            assert(list[m[k]].kind == WorktreeKind::Linked);
        }
    }
    assert(mine[0] == list[m[0]]);
}

proof fn lemma_projects_over_groups(list: Seq<DiscoveredModel>, keys: Seq<Seq<char>>, n: int)
    requires
        0 <= n <= keys.len(),
    ensures
        over_groups(list, keys, n).projects.len() == n,
        forall|g: int|
            0 <= g < n ==> #[trigger] over_groups(list, keys, n).projects[g] == project_of(
                keys[g],
                group_of(list, keys[g]),
            ),
    decreases n,
{
    if n > 0 {
        lemma_projects_over_groups(list, keys, n - 1);
    }
}

/// Where the projects of a list stand once they are arranged.
proof fn lemma_arranged(projects: Seq<ProjectModel>) -> (from: Seq<int>)
    requires
        projects.len() <= usize::MAX,
    ensures
        from.len() == projects.len() == arranged(projects).len(),
        forall|p: int|
            0 <= p < from.len() ==> 0 <= #[trigger] from[p] < projects.len() && arranged(projects)[p]
                == projects[from[p]],
        forall|p: int, q: int| 0 <= p < q < from.len() ==> #[trigger] from[p] != #[trigger] from[q],
        forall|g: int| 0 <= g < projects.len() ==> from.contains(g),
        forall|p: int, q: int|
            0 <= p < q < from.len() ==> in_name_order(
                #[trigger] arranged(projects)[p],
                #[trigger] arranged(projects)[q],
            ),
{
    let ids = all_codes(project_ids(projects));
    lemma_stable_places(ids);
    let first = stable_places(ids);
    let by_id = at_places(projects, first);
    let names = all_codes(project_names(by_id));
    lemma_stable_places(names);
    let second = stable_places(names);
    let from = Seq::new(projects.len(), |p: int| first[second[p] as int] as int);
    let out = arranged(projects);
    assert forall|p: int| 0 <= p < from.len() implies 0 <= #[trigger] from[p] < projects.len() && out[p]
        == projects[from[p]] by {
        assert(0 <= second[p] < names.len());
        assert(0 <= first[second[p] as int] < ids.len());
    }
    assert forall|p: int, q: int| 0 <= p < q < from.len() implies from[p] != from[q] && in_name_order(
        #[trigger] out[p],
        #[trigger] out[q],
    ) by {
        let x = second[p] as int;
        let y = second[q] as int;
        assert(before(names, x, y));
        lemma_lex_irreflexive(names[x]);
        assert(x != y);
        let a = first[x] as int;
        let b = first[y] as int;
        assert(0 <= a < ids.len() && 0 <= b < ids.len());
        if x < y {
            assert(before(ids, first[x] as int, first[y] as int));
        } else {
            assert(before(ids, first[y] as int, first[x] as int));
        }
        lemma_lex_irreflexive(ids[a]);
        assert(names[x] == codes(out[p].name) && names[y] == codes(out[q].name));
        assert(ids[a] == codes(out[p].project_id) && ids[b] == codes(out[q].project_id));
        if names[x] == names[y] {
            lemma_codes_tell_apart(out[p].name, out[q].name);
            if ids[a] == ids[b] {
                lemma_codes_tell_apart(out[p].project_id, out[q].project_id);
            }
        }
    }
    assert forall|p: int, q: int| 0 <= p < q < from.len() implies #[trigger] from[p] != #[trigger] from[q] by {
        assert(in_name_order(out[p], out[q]));
    }
    assert forall|g: int| 0 <= g < projects.len() implies from.contains(g) by {
        assert(place_in(first, g));
        let x = choose|x: int| 0 <= x < first.len() && first[x] == g;
        assert(place_in(second, x));
        let p = choose|p: int| 0 <= p < second.len() && second[p] == x;
        assert(from[p] == g);
    }
    from
}

/// Whether one project is listed before another: by name, and by id where they
/// have one name.
pub open spec fn in_name_order(a: ProjectModel, b: ProjectModel) -> bool {
    ||| lex_less(codes(a.name), codes(b.name))
    ||| a.name == b.name && (lex_less(codes(a.project_id), codes(b.project_id)) || a.project_id == b.project_id)
}

/// Whether place `i` is among the places of some project.
pub open spec fn placed(ms: Seq<Seq<int>>, i: int) -> bool {
    exists|p: int| 0 <= p < ms.len() && (#[trigger] ms[p]).contains(i)
}

/// Every checkout is in one project and no more; a project is all the checkouts
/// that belong together; no two projects have one id, and they are listed by
/// name.
pub proof fn law_projects_part_the_checkouts(list: Seq<DiscoveredModel>) -> (ms: Seq<Seq<int>>)
    requires
        list.len() <= usize::MAX,
    ensures
        ms.len() == grouped(list).projects.len(),
        forall|p: int| 0 <= p < ms.len() ==> made_of(grouped(list).projects[p], list, #[trigger] ms[p]),
        forall|i: int| 0 <= i < list.len() ==> #[trigger] placed(ms, i),
        forall|p: int, q: int, i: int|
            0 <= p < q < ms.len() && #[trigger] ms[p].contains(i) ==> !#[trigger] ms[q].contains(i),
        forall|p: int, q: int|
            0 <= p < q < ms.len() ==> {
                &&& (#[trigger] grouped(list).projects[p]).project_id
                    != (#[trigger] grouped(list).projects[q]).project_id
                &&& in_name_order(grouped(list).projects[p], grouped(list).projects[q])
            },
{
    lemma_groups(list);
    let keys = groups(list);
    let raw = over_groups(list, keys, keys.len() as int).projects;
    lemma_projects_over_groups(list, keys, keys.len() as int);
    let from = lemma_arranged(raw);
    let out = grouped(list).projects;
    let ms = Seq::new(raw.len(), |p: int| chosen(list, keys[from[p]]));
    assert forall|p: int| 0 <= p < ms.len() implies made_of(out[p], list, #[trigger] ms[p]) by {
        let g = from[p];
        assert(out[p] == raw[g]);
        let k = keys[g];
        assert(exists|i: int| 0 <= i < list.len() && group_key(#[trigger] list[i]) == groups(list)[g]);
        lemma_project(list, k);
    }
    assert forall|i: int| 0 <= i < list.len() implies #[trigger] placed(ms, i) by {
        let k = group_key(list[i]);
        assert(keys.contains(k));
        let g = choose|g: int| 0 <= g < keys.len() && keys[g] == k;
        assert(from.contains(g));
        let p = choose|p: int| 0 <= p < from.len() && from[p] == g;
        lemma_chosen(list, k);
        assert(ms[p].contains(i));
    }
    assert forall|p: int, q: int, i: int|
        0 <= p < q < ms.len() && #[trigger] ms[p].contains(i) implies !#[trigger] ms[q].contains(i) by {
        assert(from[p] != from[q]);
        let a = keys[from[p]];
        let b = keys[from[q]];
        lemma_chosen(list, a);
        lemma_chosen(list, b);
        if from[p] < from[q] {
            assert(groups(list)[from[p]] != groups(list)[from[q]]);
        } else {
            assert(groups(list)[from[q]] != groups(list)[from[p]]);
        }
        let x = choose|x: int| 0 <= x < ms[p].len() && ms[p][x] == i;
        assert(group_key(list[chosen(list, a)[x]]) == a);
        if ms[q].contains(i) {
            let y = choose|y: int| 0 <= y < ms[q].len() && ms[q][y] == i;
            assert(group_key(list[chosen(list, b)[y]]) == b);
        }
    }
    assert forall|p: int, q: int| 0 <= p < q < ms.len() implies (#[trigger] out[p]).project_id != (
    #[trigger] out[q]).project_id && in_name_order(out[p], out[q]) by {
        assert(from[p] != from[q]);
        if from[p] < from[q] {
            assert(groups(list)[from[p]] != groups(list)[from[q]]);
        } else {
            assert(groups(list)[from[q]] != groups(list)[from[p]]);
        }
        law_ids_are_faithful(keys[from[p]], keys[from[q]]);
        assert(out[p] == raw[from[p]] && out[q] == raw[from[q]]);
    }
    ms
}

/// Whether some project has both paths among its checkouts.
pub open spec fn share_a_project(projects: Seq<ProjectModel>, a: PathModel, b: PathModel) -> bool {
    exists|p: int, x: int, y: int|
        0 <= p < projects.len() && 0 <= x < projects[p].worktrees.len() && 0 <= y < projects[p].worktrees.len()
            && (#[trigger] projects[p].worktrees[x]).path == a && (#[trigger] projects[p].worktrees[y]).path == b
}

/// Two checkouts are in one project exactly when they belong together: of two
/// without a remote, when they share an object store, whatever they are called.
pub proof fn law_checkouts_share_a_project_when_they_belong_together(list: Seq<DiscoveredModel>, i: int, j: int)
    requires
        list.len() <= usize::MAX,
        0 <= i < list.len(),
        0 <= j < list.len(),
        forall|a: int, b: int|
            0 <= a < b < list.len() ==> (#[trigger] list[a]).path != (#[trigger] list[b]).path,
    ensures
        share_a_project(grouped(list).projects, list[i].path, list[j].path) <==> belong(list[i], list[j]),
        list[i].remote is None && list[j].remote is None ==> (share_a_project(
            grouped(list).projects,
            list[i].path,
            list[j].path,
        ) <==> list[i].project_id == list[j].project_id),
{
    let ms = law_projects_part_the_checkouts(list);
    let projects = grouped(list).projects;
    assert(placed(ms, i));
    let p = choose|p: int| 0 <= p < ms.len() && (#[trigger] ms[p]).contains(i);
    let m = ms[p];
    assert(made_of(projects[p], list, m));
    let x = choose|x: int| 0 <= x < m.len() && m[x] == i;
    assert(stands_for(projects[p].worktrees[x], list, m, x));
    if belong(list[i], list[j]) {
        assert(belong(list[j], list[m[0]]));
        assert(m.contains(j));
        let y = choose|y: int| 0 <= y < m.len() && m[y] == j;
        assert(stands_for(projects[p].worktrees[y], list, m, y));
        assert(projects[p].worktrees[x].path == list[i].path && projects[p].worktrees[y].path == list[j].path);
    }
    if share_a_project(projects, list[i].path, list[j].path) {
        let (q, a, b) = choose|q: int, a: int, b: int|
            0 <= q < projects.len() && 0 <= a < projects[q].worktrees.len() && 0 <= b < projects[q].worktrees.len()
                && (#[trigger] projects[q].worktrees[a]).path == list[i].path && (
            #[trigger] projects[q].worktrees[b]).path == list[j].path;
        let n = ms[q];
        assert(made_of(projects[q], list, n));
        assert(stands_for(projects[q].worktrees[a], list, n, a));
        assert(stands_for(projects[q].worktrees[b], list, n, b));
        assert(list[n[a]].path == list[i].path && list[n[b]].path == list[j].path);
        assert(n[a] == i) by {
            if n[a] < i {
                assert(list[n[a]].path != list[i].path);
            } else if i < n[a] {
                assert(list[i].path != list[n[a]].path);
            }
        }
        assert(n[b] == j) by {
            if n[b] < j {
                assert(list[n[b]].path != list[j].path);
            } else if j < n[b] {
                assert(list[j].path != list[n[b]].path);
            }
        }
        assert(n.contains(i) && n.contains(j));
        assert(belong(list[i], list[n[0]]) && belong(list[j], list[n[0]]));
    }
}

/// Whether one of the projects has a worktree at a path, with an id.
pub open spec fn has_worktree(projects: Seq<ProjectModel>, at: (PathModel, Seq<char>)) -> bool {
    exists|p: int, k: int|
        0 <= p < projects.len() && 0 <= k < projects[p].worktrees.len() && (#[trigger] projects[p].worktrees[k]).path == at.0
            && projects[p].worktrees[k].worktree_id == at.1
}

/// Whether one of the projects has an id and a remote.
pub open spec fn has_remote(projects: Seq<ProjectModel>, at: (Seq<char>, Seq<char>)) -> bool {
    exists|p: int|
        0 <= p < projects.len() && (#[trigger] projects[p]).project_id == at.0 && projects[p].remote == Some(at.1)
}

proof fn lemma_member_paths(mine: Seq<DiscoveredModel>, n: int)
    requires
        0 <= n <= mine.len(),
    ensures
        ({
            let g = over_members(mine, n);
            &&& g.paths.len() == g.worktrees.len()
            &&& forall|k: int|
                0 <= k < g.paths.len() ==> (#[trigger] g.paths[k]).0 == g.worktrees[k].path && g.paths[k].1
                    == g.worktrees[k].worktree_id
        }),
    decreases n,
{
    if n > 0 {
        lemma_member_paths(mine, n - 1);
    }
}

proof fn lemma_tables(
    list: Seq<DiscoveredModel>,
    keys: Seq<Seq<char>>,
    n: int,
    at: (PathModel, Seq<char>),
    remote: (Seq<char>, Seq<char>),
)
    requires
        0 <= n <= keys.len(),
    ensures
        ({
            let g = over_groups(list, keys, n);
            &&& g.worktree_paths.contains(at) <==> has_worktree(g.projects, at)
            &&& g.project_remotes.contains(remote) <==> has_remote(g.projects, remote)
        }),
    decreases n,
{
    if n > 0 {
        lemma_tables(list, keys, n - 1, at, remote);
        let before = over_groups(list, keys, n - 1);
        let now = over_groups(list, keys, n);
        let g = group_of(list, keys[n - 1]);
        let mine = members(list, keys[n - 1]);
        lemma_member_paths(mine, mine.len() as int);
        let last = now.projects.len() - 1;
        assert forall|p: int| 0 <= p < before.projects.len() implies #[trigger] now.projects[p] == before.projects[p] by {}
        assert(now.projects[last].worktrees == g.worktrees);
        if now.worktree_paths.contains(at) {
            let k = choose|k: int| 0 <= k < now.worktree_paths.len() && now.worktree_paths[k] == at;
            if k < before.worktree_paths.len() {
                assert(before.worktree_paths[k] == at);
            } else {
                let j = k - before.worktree_paths.len();
                assert(g.paths[j] == at);
                assert(now.projects[last].worktrees[j].path == at.0);
            }
        }
        if has_worktree(before.projects, at) {
            let k = choose|k: int| 0 <= k < before.worktree_paths.len() && before.worktree_paths[k] == at;
            assert(now.worktree_paths[k] == at);
            let (p, j) = choose|p: int, j: int|
                0 <= p < before.projects.len() && 0 <= j < before.projects[p].worktrees.len() && (
                #[trigger] before.projects[p].worktrees[j]).path == at.0 && before.projects[p].worktrees[j].worktree_id
                    == at.1;
            assert(now.projects[p].worktrees[j].path == at.0);
        }
        if has_worktree(now.projects, at) {
            let (p, j) = choose|p: int, j: int|
                0 <= p < now.projects.len() && 0 <= j < now.projects[p].worktrees.len() && (
                #[trigger] now.projects[p].worktrees[j]).path == at.0 && now.projects[p].worktrees[j].worktree_id == at.1;
            if p < last {
                assert(before.projects[p].worktrees[j].path == at.0);
            } else {
                assert(g.paths[j] == at);
                assert(now.worktree_paths[before.worktree_paths.len() + j] == at);
            }
        }
        if now.project_remotes.contains(remote) {
            let k = choose|k: int| 0 <= k < now.project_remotes.len() && now.project_remotes[k] == remote;
            if k < before.project_remotes.len() {
                assert(before.project_remotes[k] == remote);
            } else {
                assert(now.projects[last].project_id == remote.0);
            }
        }
        if has_remote(before.projects, remote) {
            let k = choose|k: int| 0 <= k < before.project_remotes.len() && before.project_remotes[k] == remote;
            assert(now.project_remotes[k] == remote);
            let p = choose|p: int|
                0 <= p < before.projects.len() && (#[trigger] before.projects[p]).project_id == remote.0
                    && before.projects[p].remote == Some(remote.1);
            assert(now.projects[p].project_id == remote.0);
        }
        if has_remote(now.projects, remote) {
            let p = choose|p: int|
                0 <= p < now.projects.len() && (#[trigger] now.projects[p]).project_id == remote.0
                    && now.projects[p].remote == Some(remote.1);
            if p < last {
                assert(before.projects[p].project_id == remote.0);
            } else {
                assert(now.project_remotes[before.project_remotes.len() as int] == remote);
            }
        }
    }
}

/// The tables beside the projects say what the projects say: each worktree's id
/// under its path, and each project's remote under its id, and nothing else.
pub proof fn law_the_tables_agree_with_the_projects(
    list: Seq<DiscoveredModel>,
    at: (PathModel, Seq<char>),
    remote: (Seq<char>, Seq<char>),
)
    requires
        list.len() <= usize::MAX,
    ensures
        grouped(list).worktree_paths.contains(at) <==> has_worktree(grouped(list).projects, at),
        grouped(list).project_remotes.contains(remote) <==> has_remote(grouped(list).projects, remote),
{
    let keys = groups(list);
    let g = over_groups(list, keys, keys.len() as int);
    let now = grouped(list);
    lemma_groups(list);
    lemma_projects_over_groups(list, keys, keys.len() as int);
    lemma_tables(list, keys, keys.len() as int, at, remote);
    let from = lemma_arranged(g.projects);
    assert(now.projects == arranged(g.projects));
    if has_worktree(now.projects, at) {
        let (p, k) = choose|p: int, k: int|
            0 <= p < now.projects.len() && 0 <= k < now.projects[p].worktrees.len() && (
            #[trigger] now.projects[p].worktrees[k]).path == at.0 && now.projects[p].worktrees[k].worktree_id == at.1;
        assert(0 <= from[p] < g.projects.len());
        assert(g.projects[from[p]].worktrees[k].path == at.0);
    }
    if has_worktree(g.projects, at) {
        let (p, k) = choose|p: int, k: int|
            0 <= p < g.projects.len() && 0 <= k < g.projects[p].worktrees.len() && (
            #[trigger] g.projects[p].worktrees[k]).path == at.0 && g.projects[p].worktrees[k].worktree_id == at.1;
        assert(from.contains(p));
        let q = choose|q: int| 0 <= q < from.len() && from[q] == p;
        assert(now.projects[q].worktrees[k].path == at.0);
    }
    if has_remote(now.projects, remote) {
        let p = choose|p: int|
            0 <= p < now.projects.len() && (#[trigger] now.projects[p]).project_id == remote.0 && now.projects[p].remote
                == Some(remote.1);
        assert(0 <= from[p] < g.projects.len());
        assert(g.projects[from[p]].project_id == remote.0);
    }
    if has_remote(g.projects, remote) {
        let p = choose|p: int|
            0 <= p < g.projects.len() && (#[trigger] g.projects[p]).project_id == remote.0 && g.projects[p].remote
                == Some(remote.1);
        assert(from.contains(p));
        let q = choose|q: int| 0 <= q < from.len() && from[q] == p;
        assert(now.projects[q].project_id == remote.0);
    }
}

} // verus!
