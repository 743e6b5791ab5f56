//! Who is named as the user of a unit: the projects that use it, and no others.

use super::attach::{
    declaration_fact, declared_users, identity_users, labelled, labels_of, project_uses, reading_from, users_of, uses,
    uses_whole, whole_users, worktree_users, ReadingModel, WiringModel,
};
use super::caches::IdentityModel;
use super::matching::{contributing, holders, installed_for, whole_store, AnswerModel};
use crate::consumers::grouping_laws::{lemma_repeats_dropped, lemma_sorted_texts};
use crate::report::ProjectModel;
use crate::text::sorted_texts;
use vstd::prelude::*;

verus! {

/// Whether what was read of a worktree uses unit `i`: an established declaration
/// comes to a version that is installed in it, a package that a lockfile names
/// is held in it, or it keeps the ecosystem of such a package as a whole.
pub open spec fn reading_uses(w: WiringModel, r: ReadingModel, i: usize) -> bool {
    ||| exists|k: int| 0 <= k < r.declarations.len() && declares(w, #[trigger] r.declarations[k], i)
    ||| exists|k: int| 0 <= k < r.identities.len() && depends(w, #[trigger] r.identities[k], i)
}

pub open spec fn declares(w: WiringModel, a: AnswerModel, i: usize) -> bool {
    declaration_fact(w, a).known() && contributing(
        a,
        installed_for(a.declaration, w.units, w.detectors, w.listings),
    ).contains(i)
}

pub open spec fn depends(w: WiringModel, id: IdentityModel, i: usize) -> bool {
    ||| holders(w.units, w.detectors, id, w.entries, w.detectors.len() as int).contains(i)
    ||| i < w.units.len() && whole_store(w.units, w.detectors, id.ecosystem, 0) == Some(i)
}

/// Whether a project uses unit `i`: what was read of one of its worktrees does.
pub open spec fn project_uses_unit(w: WiringModel, p: ProjectModel, n: int, i: usize) -> bool {
    exists|t: int|
        0 <= t < n && {
            let r = reading_from(w.worktrees, (#[trigger] p.worktrees[t]).path, 0);
            r is Some && reading_uses(w, r->0, i)
        }
}

proof fn lemma_declared(w: WiringModel, list: Seq<AnswerModel>, n: int, i: usize)
    requires
        0 <= n <= list.len(),
    ensures
        declared_users(w, list, n).contains(i) <==> exists|k: int| 0 <= k < n && declares(w, #[trigger] list[k], i),
    decreases n,
{
    if n > 0 {
        lemma_declared(w, list, n - 1, i);
        let a = declared_users(w, list, n - 1);
        let b = contributing(
            list[n - 1],
            installed_for(list[n - 1].declaration, w.units, w.detectors, w.listings),
        );
        lemma_in_both(a, b, i);
        if declares(w, list[n - 1], i) {
            assert(declares(w, list[n - 1], i));
        }
    }
}

proof fn lemma_in_both(a: Seq<usize>, b: Seq<usize>, i: usize)
    ensures
        (a + b).contains(i) <==> a.contains(i) || b.contains(i),
{
    let all = a + b;
    if all.contains(i) {
        let k = choose|k: int| 0 <= k < all.len() && all[k] == i;
        if k < a.len() {
            assert(a[k] == i);
        } else {
            assert(b[k - a.len()] == i);
        }
    }
    if a.contains(i) {
        let k = choose|k: int| 0 <= k < a.len() && a[k] == i;
        assert(all[k] == i);
    }
    if b.contains(i) {
        let k = choose|k: int| 0 <= k < b.len() && b[k] == i;
        assert(all[a.len() + k] == i);
    }
}

proof fn lemma_identities(w: WiringModel, list: Seq<IdentityModel>, n: int, i: usize)
    requires
        0 <= n <= list.len(),
    ensures
        identity_users(w, list, n).contains(i) <==> exists|k: int|
            0 <= k < n && holders(w.units, w.detectors, #[trigger] list[k], w.entries, w.detectors.len() as int).contains(
                i,
            ),
    decreases n,
{
    if n > 0 {
        lemma_identities(w, list, n - 1, i);
        let a = identity_users(w, list, n - 1);
        let b = holders(w.units, w.detectors, list[n - 1], w.entries, w.detectors.len() as int);
        lemma_in_both(a, b, i);
        if b.contains(i) {
            assert(holders(w.units, w.detectors, list[n - 1], w.entries, w.detectors.len() as int).contains(i));
        }
    }
}

proof fn lemma_whole(w: WiringModel, list: Seq<IdentityModel>, n: int, i: usize)
    requires
        0 <= n <= usize::MAX,
    ensures
        whole_users(w, list, n).contains(i) <==> i < n && uses_whole(w, list, i),
    decreases n,
{
    if n > 0 {
        lemma_whole(w, list, n - 1, i);
        let a = whole_users(w, list, n - 1);
        let last = (n - 1) as usize;
        if uses_whole(w, list, last) {
            lemma_in_both(a, seq![last], i);
            assert(a.push(last) =~= a + seq![last]);
            assert(seq![last].contains(i) <==> i == last) by {
                assert(seq![last][0] == last);
            }
        }
    }
}

proof fn lemma_worktree(w: WiringModel, r: ReadingModel, i: usize)
    requires
        w.units.len() <= usize::MAX,
    ensures
        worktree_users(w, r).contains(i) <==> reading_uses(w, r, i),
{
    let a = declared_users(w, r.declarations, r.declarations.len() as int);
    let b = identity_users(w, r.identities, r.identities.len() as int);
    let c = whole_users(w, r.identities, w.units.len() as int);
    lemma_declared(w, r.declarations, r.declarations.len() as int, i);
    lemma_identities(w, r.identities, r.identities.len() as int, i);
    lemma_whole(w, r.identities, w.units.len() as int, i);
    lemma_in_both(a + b, c, i);
    lemma_in_both(a, b, i);
    if b.contains(i) {
        let k = choose|k: int|
            0 <= k < r.identities.len() && holders(
                w.units,
                w.detectors,
                #[trigger] r.identities[k],
                w.entries,
                w.detectors.len() as int,
            ).contains(i);
        assert(depends(w, r.identities[k], i));
    }
    if c.contains(i) {
        let k = choose|k: int|
            0 <= k < r.identities.len() && whole_store(w.units, w.detectors, (#[trigger] r.identities[k]).ecosystem, 0)
                == Some(i);
        assert(depends(w, r.identities[k], i));
    }
    if exists|k: int| 0 <= k < r.identities.len() && depends(w, #[trigger] r.identities[k], i) {
        let k = choose|k: int| 0 <= k < r.identities.len() && depends(w, #[trigger] r.identities[k], i);
        if !holders(w.units, w.detectors, r.identities[k], w.entries, w.detectors.len() as int).contains(i) {
            assert(whole_store(w.units, w.detectors, r.identities[k].ecosystem, 0) == Some(i));
            assert(uses_whole(w, r.identities, i));
        }
    }
}

proof fn lemma_pairs(a: Seq<(usize, Seq<char>)>, b: Seq<(usize, Seq<char>)>, x: (usize, Seq<char>))
    ensures
        (a + b).contains(x) <==> a.contains(x) || b.contains(x),
{
    let all = a + b;
    if all.contains(x) {
        let k = choose|k: int| 0 <= k < all.len() && all[k] == x;
        if k < a.len() {
            assert(a[k] == x);
        } else {
            assert(b[k - a.len()] == x);
        }
    }
    if a.contains(x) {
        let k = choose|k: int| 0 <= k < a.len() && a[k] == x;
        assert(all[k] == x);
    }
    if b.contains(x) {
        let k = choose|k: int| 0 <= k < b.len() && b[k] == x;
        assert(all[a.len() + k] == x);
    }
}

proof fn lemma_labelled(users: Seq<usize>, label: Seq<char>, i: usize, other: Seq<char>)
    ensures
        labelled(users, label).contains((i, other)) <==> users.contains(i) && other == label,
{
    let all = labelled(users, label);
    if all.contains((i, other)) {
        let k = choose|k: int| 0 <= k < all.len() && all[k] == (i, other);
        assert(users[k] == i);
    }
    if users.contains(i) && other == label {
        let k = choose|k: int| 0 <= k < users.len() && users[k] == i;
        assert(all[k] == (i, other));
    }
}

proof fn lemma_project(w: WiringModel, p: ProjectModel, n: int, i: usize, label: Seq<char>)
    requires
        w.units.len() <= usize::MAX,
        0 <= n <= p.worktrees.len(),
    ensures
        project_uses(w, p, n).contains((i, label)) <==> label == p.name && project_uses_unit(w, p, n, i),
    decreases n,
{
    if n > 0 {
        lemma_project(w, p, n - 1, i, label);
        let before = project_uses(w, p, n - 1);
        match reading_from(w.worktrees, p.worktrees[n - 1].path, 0) {
            Some(r) => {
                lemma_worktree(w, r, i);
                lemma_labelled(worktree_users(w, r), p.name, i, label);
                lemma_pairs(before, labelled(worktree_users(w, r), p.name), (i, label));
                if reading_uses(w, r, i) {
                    let q = reading_from(w.worktrees, p.worktrees[n - 1].path, 0);
                    assert(q is Some && reading_uses(w, q->0, i));
                    assert(project_uses_unit(w, p, n, i));
                }
            },
            None => {},
        }
        if project_uses_unit(w, p, n - 1, i) {
            let t = choose|t: int|
                0 <= t < n - 1 && {
                    let r = reading_from(w.worktrees, (#[trigger] p.worktrees[t]).path, 0);
                    r is Some && reading_uses(w, r->0, i)
                };
            assert(reading_from(w.worktrees, p.worktrees[t].path, 0) is Some);
            assert(project_uses_unit(w, p, n, i));
        }
        if project_uses_unit(w, p, n, i) {
            let t = choose|t: int|
                0 <= t < n && {
                    let r = reading_from(w.worktrees, (#[trigger] p.worktrees[t]).path, 0);
                    r is Some && reading_uses(w, r->0, i)
                };
            if t < n - 1 {
                assert(reading_from(w.worktrees, p.worktrees[t].path, 0) is Some);
                assert(project_uses_unit(w, p, n - 1, i));
            }
        }
    }
}

/// Whether one of the first `n` projects has a name and uses unit `i`.
pub open spec fn named_user(w: WiringModel, list: Seq<ProjectModel>, n: int, i: usize, label: Seq<char>) -> bool {
    exists|p: int|
        0 <= p < n && (#[trigger] list[p]).name == label && project_uses_unit(
            w,
            list[p],
            list[p].worktrees.len() as int,
            i,
        )
}

proof fn lemma_uses(w: WiringModel, list: Seq<ProjectModel>, n: int, i: usize, label: Seq<char>)
    requires
        w.units.len() <= usize::MAX,
        0 <= n <= list.len(),
    ensures
        uses(w, list, n).contains((i, label)) <==> named_user(w, list, n, i, label),
    decreases n,
{
    if n > 0 {
        lemma_uses(w, list, n - 1, i, label);
        let p = list[n - 1];
        lemma_project(w, p, p.worktrees.len() as int, i, label);
        lemma_pairs(uses(w, list, n - 1), project_uses(w, p, p.worktrees.len() as int), (i, label));
        if named_user(w, list, n - 1, i, label) {
            let q = choose|q: int|
                0 <= q < n - 1 && (#[trigger] list[q]).name == label && project_uses_unit(
                    w,
                    list[q],
                    list[q].worktrees.len() as int,
                    i,
                );
            assert(list[q].name == label);
        }
        if named_user(w, list, n, i, label) {
            let q = choose|q: int|
                0 <= q < n && (#[trigger] list[q]).name == label && project_uses_unit(
                    w,
                    list[q],
                    list[q].worktrees.len() as int,
                    i,
                );
            if q < n - 1 {
                assert(list[q].name == label);
            }
        }
        if label == p.name && project_uses_unit(w, p, p.worktrees.len() as int, i) {
            assert(list[n - 1].name == label);
        }
    }
}

proof fn lemma_users(log: Seq<(usize, Seq<char>)>, i: usize, n: int, label: Seq<char>)
    requires
        0 <= n <= log.len(),
    ensures
        users_of(log, i, n).contains(label) <==> log.take(n).contains((i, label)),
        users_of(log, i, n).len() <= n,
    decreases n,
{
    if n > 0 {
        lemma_users(log, i, n - 1, label);
        let before = users_of(log, i, n - 1);
        let now = users_of(log, i, n);
        let a = log.take(n - 1);
        let b = log.take(n);
        assert(b =~= a + seq![log[n - 1]]);
        lemma_pairs(a, seq![log[n - 1]], (i, label));
        assert(seq![log[n - 1]].contains((i, label)) <==> log[n - 1] == (i, label)) by {
            assert(seq![log[n - 1]][0] == log[n - 1]);
        }
        if now.contains(label) {
            let k = choose|k: int| 0 <= k < now.len() && now[k] == label;
            if k < before.len() {
                assert(before[k] == label);
            } else {
                assert(log[n - 1] == (i, label));
            }
        }
        if before.contains(label) {
            let k = choose|k: int| 0 <= k < before.len() && before[k] == label;
            assert(now[k] == label);
        }
        if log[n - 1] == (i, label) {
            assert(now[now.len() - 1] == label);
        }
    } else {
        assert(log.take(0) =~= Seq::<(usize, Seq<char>)>::empty());
    }
}

/// A unit's users are named in order and each once, and just the projects that
/// use it are named: by a version they declare and that is installed in it, by a
/// package they lock and that it holds, or because it keeps such packages as a
/// whole.
pub proof fn law_a_unit_names_just_its_users(w: WiringModel, list: Seq<ProjectModel>, i: usize, label: Seq<char>)
    requires
        w.units.len() <= usize::MAX,
        uses(w, list, list.len() as int).len() <= usize::MAX,
    ensures
        labels_of(uses(w, list, list.len() as int), i).contains(label) <==> named_user(
            w,
            list,
            list.len() as int,
            i,
            label,
        ),
        labels_of(uses(w, list, list.len() as int), i).no_duplicates(),
{
    let log = uses(w, list, list.len() as int);
    let n = log.len() as int;
    lemma_uses(w, list, list.len() as int, i, label);
    lemma_users(log, i, n, label);
    assert(log.take(n) =~= log);
    let users = users_of(log, i, n);
    lemma_sorted_texts(users);
    lemma_repeats_dropped(sorted_texts(users));
    let out = labels_of(log, i);
    assert forall|a: int, b: int| 0 <= a < out.len() && 0 <= b < out.len() && a != b implies out[a] != out[b] by {
        crate::order::lemma_lex_irreflexive(crate::text::codes(out[a]));
        if a < b {
            assert(crate::order::lex_less(crate::text::codes(out[a]), crate::text::codes(out[b])));
        } else {
            assert(crate::order::lex_less(crate::text::codes(out[b]), crate::text::codes(out[a])));
        }
    }
}

} // verus!
