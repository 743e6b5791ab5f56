//! What is looked up by its path is found there, and what changed is noticed.

use crate::facts::{fact_from, fact_of, resolved, resolved_from, scalar_from, FactModel, ScalarModel};
use crate::fs_events::CoverageWindow;
use crate::path::{same_path, within, PathModel};
use vstd::prelude::*;

verus! {

/// Whether fact `k` is the first at a path.
pub open spec fn is_first_at(facts: Seq<FactModel>, path: PathModel, k: int) -> bool {
    &&& 0 <= k < facts.len()
    &&& same_path(facts[k].path, path)
    &&& forall|j: int| 0 <= j < k ==> !same_path((#[trigger] facts[j]).path, path)
}

proof fn lemma_fact(facts: Seq<FactModel>, path: PathModel, i: int) -> (k: int)
    requires
        0 <= i <= facts.len(),
        forall|j: int| 0 <= j < i ==> !same_path((#[trigger] facts[j]).path, path),
    ensures
        fact_from(facts, path, i) matches Some(f) ==> is_first_at(facts, path, k) && facts[k] == f,
        fact_from(facts, path, i) is None ==> forall|j: int|
            0 <= j < facts.len() ==> !same_path((#[trigger] facts[j]).path, path),
    decreases facts.len() - i,
{
    if i >= facts.len() || same_path(facts[i].path, path) {
        i
    } else {
        lemma_fact(facts, path, i + 1)
    }
}

/// What is known of a path is the first that was read there; of a path at which
/// nothing was read, nothing is known.
pub proof fn law_what_was_read_is_known(facts: Seq<FactModel>, path: PathModel, k: int)
    ensures
        is_first_at(facts, path, k) ==> fact_of(facts, path) == Some(facts[k]),
        fact_of(facts, path) is None <==> forall|j: int|
            0 <= j < facts.len() ==> !same_path((#[trigger] facts[j]).path, path),
{
    let f = lemma_fact(facts, path, 0);
    if is_first_at(facts, path, k) {
        assert(same_path(facts[k].path, path));
        assert(f == k);
    }
}

/// Two names of one path know the same.
pub proof fn law_one_path_is_known_as_one(facts: Seq<FactModel>, p: PathModel, q: PathModel, i: int)
    requires
        same_path(p, q),
        0 <= i,
    ensures
        fact_from(facts, p, i) == fact_from(facts, q, i),
    decreases facts.len() - i,
{
    if i < facts.len() {
        law_one_path_is_known_as_one(facts, p, q, i + 1);
    }
}

/// A path resolves to what the first entry for it says, and to itself where there
/// is none.
pub proof fn law_a_path_resolves_to_what_is_said(pairs: Seq<(PathModel, PathModel)>, path: PathModel, i: int, k: int)
    requires
        0 <= i,
    ensures
        i <= k < pairs.len() && same_path(pairs[k].0, path) && (forall|j: int|
            i <= j < k ==> !same_path((#[trigger] pairs[j]).0, path)) ==> resolved_from(pairs, path, i) == pairs[k].1,
        (forall|j: int| i <= j < pairs.len() ==> !same_path((#[trigger] pairs[j]).0, path)) ==> resolved_from(
            pairs,
            path,
            i,
        ) == path,
        i == 0 ==> resolved(pairs, path) == resolved_from(pairs, path, i),
    decreases pairs.len() - i,
{
    if i < pairs.len() && !same_path(pairs[i].0, path) {
        law_a_path_resolves_to_what_is_said(pairs, path, i + 1, k);
    }
}

/// A value is found under just its own keys, the first of several.
pub proof fn law_a_value_stands_under_its_keys(s: Seq<ScalarModel>, keys: Seq<Seq<char>>, i: int, k: int)
    requires
        0 <= i,
    ensures
        i <= k < s.len() && s[k].keys == keys && (forall|j: int| i <= j < k ==> (#[trigger] s[j]).keys != keys)
            ==> scalar_from(s, keys, i) == Some(s[k].value),
        (forall|j: int| i <= j < s.len() ==> (#[trigger] s[j]).keys != keys) ==> scalar_from(s, keys, i) is None,
    decreases s.len() - i,
{
    if i < s.len() && s[i].keys != keys {
        law_a_value_stands_under_its_keys(s, keys, i + 1, k);
    }
}

/// A change at or under a path is noticed, as is a path outside what was watched
/// and a time before it was; without a watch nothing is taken as unchanged.
pub proof fn law_a_change_is_noticed(w: CoverageWindow, path: PathModel, at: u64, i: int)
    ensures
        w is Untrusted ==> !w.unchanged_since(path, at),
        w matches CoverageWindow::Trusted { root, events, since } ==> {
            &&& 0 <= i < events.len() && within(events[i], path) ==> !w.unchanged_since(path, at)
            &&& !within(path, root) ==> !w.unchanged_since(path, at)
            &&& at < since ==> !w.unchanged_since(path, at)
            &&& within(path, root) && since <= at && events.len() == 0 ==> w.unchanged_since(path, at)
        },
{
}

proof fn lemma_within(a: PathModel, b: PathModel, c: PathModel)
    requires
        within(a, b),
        within(b, c),
    ensures
        within(a, c),
{
    assert(a.parts().take(c.len() as int) =~= a.parts().take(b.len() as int).take(c.len() as int));
}

/// What lies inside an unchanged place is unchanged, and what was unchanged since
/// a time is unchanged since every later one.
pub proof fn law_what_is_inside_is_unchanged_too(w: CoverageWindow, path: PathModel, below: PathModel, at: u64, later: u64)
    requires
        w.unchanged_since(path, at),
        within(below, path),
        at <= later,
    ensures
        w.unchanged_since(below, later),
{
    match w {
        CoverageWindow::Untrusted => {},
        CoverageWindow::Trusted { root, events, since } => {
            lemma_within(below, path, root);
            assert forall|i: int| 0 <= i < events.len() implies !within(#[trigger] events[i], below) by {
                if within(events[i], below) {
                    lemma_within(events[i], below, path);
                }
            }
        },
    }
}

} // verus!
