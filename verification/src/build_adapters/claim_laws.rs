//! Which directories of a project an adapter claims: those its build tool makes,
//! where the project has that tool's manifest, and no others.

use super::adapter::{claimed, claims, part_from, part_named, BuildAdapter, PartModel};
use super::android;
use super::container::ContainerModel;
use super::go;
use super::gradle;
use super::node;
use super::python;
use super::registry::Builtin;
use super::xcode_swift;
use crate::facts::{fact_of, FactModel};
use crate::lookup_laws::law_one_path_is_known_as_one;
use crate::path::{has_path, joined_path, name_of, parent, same_path, PathModel};
use crate::text::finishes;
use vstd::prelude::*;

verus! {

/// Whether a file of this name was read directly in a directory.
pub open spec fn has_file(dir: PathModel, name: Seq<char>, facts: Seq<FactModel>) -> bool {
    let f = fact_of(facts, joined_path(dir, name));
    f is Some && f->0.is_file
}

pub open spec fn is_directory(p: PathModel, facts: Seq<FactModel>) -> bool {
    fact_of(facts, p) is Some && fact_of(facts, p)->0.is_dir
}

/// Whether one of the containers is a path.
pub open spec fn is_claimed(list: Seq<ContainerModel>, p: PathModel) -> bool {
    exists|k: int| 0 <= k < list.len() && same_path((#[trigger] list[k]).path, p)
}

/// Whether a path is what a directory has under a name.
pub open spec fn is_at(p: PathModel, root: PathModel, name: Seq<char>) -> bool {
    same_path(joined_path(root, name), p)
}

/// Whether one of the candidates is a path and fits.
pub open spec fn is_candidate(candidates: Seq<PathModel>, p: PathModel, keep: spec_fn(PathModel) -> bool) -> bool {
    exists|i: int| 0 <= i < candidates.len() && same_path(#[trigger] candidates[i], p) && keep(candidates[i])
}

proof fn lemma_filter(candidates: Seq<PathModel>, keep: spec_fn(PathModel) -> bool, p: PathModel)
    ensures
        has_path(candidates.filter(keep), p) <==> is_candidate(candidates, p, keep),
    decreases candidates.len(),
{
    reveal(Seq::filter);
    if candidates.len() > 0 {
        let head = candidates.drop_last();
        let last = candidates.last();
        lemma_filter(head, keep, p);
        let before = head.filter(keep);
        let now = candidates.filter(keep);
        if has_path(before, p) {
            let k = choose|k: int| 0 <= k < before.len() && same_path(#[trigger] before[k], p);
            assert(now[k] == before[k]);
            let i = choose|i: int| 0 <= i < head.len() && same_path(#[trigger] head[i], p) && keep(head[i]);
            assert(candidates[i] == head[i]);
        }
        if has_path(now, p) {
            let k = choose|k: int| 0 <= k < now.len() && same_path(#[trigger] now[k], p);
            if k < before.len() {
                assert(same_path(before[k], p));
            } else {
                assert(candidates[candidates.len() - 1] == now[k]);
            }
        }
        if is_candidate(candidates, p, keep) {
            let i = choose|i: int|
                0 <= i < candidates.len() && same_path(#[trigger] candidates[i], p) && keep(candidates[i]);
            if i < head.len() {
                assert(head[i] == candidates[i]);
            } else {
                assert(now[now.len() - 1] == last);
            }
        }
    }
}

proof fn lemma_either(a: Seq<PathModel>, b: Seq<PathModel>, p: PathModel)
    ensures
        has_path(a + b, p) <==> has_path(a, p) || has_path(b, p),
{
    let s = a + b;
    if has_path(s, p) {
        let k = choose|k: int| 0 <= k < s.len() && same_path(#[trigger] s[k], p);
        if k < a.len() {
            assert(same_path(a[k], p));
        } else {
            assert(same_path(b[k - a.len()], p));
        }
    }
    if has_path(a, p) {
        let k = choose|k: int| 0 <= k < a.len() && same_path(#[trigger] a[k], p);
        assert(same_path(s[k], p));
    }
    if has_path(b, p) {
        let k = choose|k: int| 0 <= k < b.len() && same_path(#[trigger] b[k], p);
        assert(same_path(s[a.len() + k], p));
    }
}

proof fn lemma_single(q: PathModel, p: PathModel)
    ensures
        has_path(seq![q], p) <==> same_path(q, p),
{
    assert(seq![q][0] == q);
}

proof fn lemma_none(p: PathModel)
    ensures
        !has_path(Seq::<PathModel>::empty(), p),
{
}

proof fn lemma_claims(id: Seq<char>, wanted: Seq<PathModel>, root: PathModel, facts: Seq<FactModel>, n: int, p: PathModel)
    requires
        0 <= n <= wanted.len(),
    ensures
        is_claimed(claims(id, wanted, root, facts, n), p) <==> has_path(wanted.take(n), p) && is_directory(p, facts),
        forall|k: int|
            0 <= k < claims(id, wanted, root, facts, n).len() ==> {
                let c = #[trigger] claims(id, wanted, root, facts, n)[k];
                c.adapter_id == id && c.project_root == Some(root) && !c.shared
            },
    decreases n,
{
    if n > 0 {
        lemma_claims(id, wanted, root, facts, n - 1, p);
        let before = claims(id, wanted, root, facts, n - 1);
        let now = claims(id, wanted, root, facts, n);
        let last = wanted[n - 1];
        assert(wanted.take(n) =~= wanted.take(n - 1) + seq![last]);
        lemma_either(wanted.take(n - 1), seq![last], p);
        lemma_single(last, p);
        if same_path(last, p) {
            law_one_path_is_known_as_one(facts, last, p, 0);
            if has_path(wanted.take(n - 1), last) {
                let w = wanted.take(n - 1);
                let k = choose|k: int| 0 <= k < w.len() && same_path(#[trigger] w[k], last);
                assert(same_path(w[k], p));
            }
        }
        if is_claimed(before, p) {
            let k = choose|k: int| 0 <= k < before.len() && same_path((#[trigger] before[k]).path, p);
            assert(now[k] == before[k]);
        }
        if is_claimed(now, p) {
            let k = choose|k: int| 0 <= k < now.len() && same_path((#[trigger] now[k]).path, p);
            if k < before.len() {
                assert(now[k] == before[k]);
            }
        }
        if same_path(last, p) && !has_path(wanted.take(n - 1), p) && is_directory(p, facts) {
            if has_path(wanted.take(n - 1), last) {
                let w = wanted.take(n - 1);
                let k = choose|k: int| 0 <= k < w.len() && same_path(#[trigger] w[k], last);
                assert(same_path(w[k], p));
            }
            assert(same_path(now[before.len() as int].path, p));
        }
    } else {
        assert(wanted.take(0) =~= Seq::<PathModel>::empty());
    }
}

proof fn lemma_claimed(id: Seq<char>, wanted: Seq<PathModel>, root: PathModel, facts: Seq<FactModel>, p: PathModel)
    ensures
        is_claimed(claimed(id, wanted, root, facts), p) <==> has_path(wanted, p) && is_directory(p, facts),
{
    lemma_claims(id, wanted, root, facts, wanted.len() as int, p);
    assert(wanted.take(wanted.len() as int) =~= wanted);
}

/// Go claims what `go` and its release tool make in a module: `vendor` and `bin`,
/// and `dist` where the module is released that way.
pub proof fn law_what_go_claims(root: PathModel, candidates: Seq<PathModel>, facts: Seq<FactModel>, p: PathModel)
    ensures
        is_claimed(Builtin::Go.containers_spec(root, candidates, facts), p) <==> is_directory(p, facts) && has_file(
            root,
            "go.mod"@,
            facts,
        ) && (is_at(p, root, "vendor"@) || is_at(p, root, "bin"@) || (is_at(p, root, "dist"@) && (has_file(
            root,
            ".goreleaser.yml"@,
            facts,
        ) || has_file(root, ".goreleaser.yaml"@, facts))) || is_candidate(
            candidates,
            p,
            |q: PathModel| name_of(q) == "vendor"@ || name_of(q) == "bin"@,
        )),
{
    let wanted = go::wanted(root, candidates, facts);
    lemma_claimed("go"@, wanted, root, facts, p);
    lemma_none(p);
    let keep = |q: PathModel| go::is_ours(q);
    lemma_filter(candidates, keep, p);
    assert(is_candidate(candidates, p, keep) <==> is_candidate(
        candidates,
        p,
        |q: PathModel| name_of(q) == "vendor"@ || name_of(q) == "bin"@,
    ));
    let a = joined_path(root, "vendor"@);
    let b = joined_path(root, "bin"@);
    let d = joined_path(root, "dist"@);
    assert(seq![a, b] =~= seq![a] + seq![b]);
    lemma_either(seq![a], seq![b], p);
    lemma_single(a, p);
    lemma_single(b, p);
    lemma_single(d, p);
    let dist = if go::releases(root, facts) {
        seq![d]
    } else {
        Seq::empty()
    };
    lemma_either(seq![a, b], dist, p);
    lemma_either(seq![a, b] + dist, candidates.filter(keep), p);
}

/// Whether a directory has one of Gradle's own files.
pub open spec fn has_gradle(root: PathModel, facts: Seq<FactModel>) -> bool {
    has_file(root, "build.gradle"@, facts) || has_file(root, "build.gradle.kts"@, facts) || has_file(
        root,
        "settings.gradle"@,
        facts,
    ) || has_file(root, "settings.gradle.kts"@, facts)
}

/// Gradle claims `build` and `.gradle` of a Gradle project.
pub proof fn law_what_gradle_claims(root: PathModel, candidates: Seq<PathModel>, facts: Seq<FactModel>, p: PathModel)
    ensures
        is_claimed(Builtin::Gradle.containers_spec(root, candidates, facts), p) <==> is_directory(p, facts) && has_gradle(
            root,
            facts,
        ) && (is_at(p, root, "build"@) || is_at(p, root, ".gradle"@) || is_candidate(
            candidates,
            p,
            |q: PathModel| name_of(q) == "build"@ || name_of(q) == ".gradle"@,
        )),
{
    let wanted = gradle::wanted(root, candidates, facts);
    lemma_claimed("gradle"@, wanted, root, facts, p);
    lemma_none(p);
    let keep = |q: PathModel| gradle::is_ours(q);
    lemma_filter(candidates, keep, p);
    assert(is_candidate(candidates, p, keep) <==> is_candidate(
        candidates,
        p,
        |q: PathModel| name_of(q) == "build"@ || name_of(q) == ".gradle"@,
    ));
    let a = joined_path(root, "build"@);
    let b = joined_path(root, ".gradle"@);
    assert(seq![a, b] =~= seq![a] + seq![b]);
    lemma_either(seq![a], seq![b], p);
    lemma_single(a, p);
    lemma_single(b, p);
    lemma_either(seq![a, b], candidates.filter(keep), p);
}

/// Whether a directory is in an Android module: the one around it has a manifest.
pub open spec fn in_module(p: PathModel, facts: Seq<FactModel>) -> bool {
    parent(p) is Some && has_file(parent(p)->0, "src/main/AndroidManifest.xml"@, facts)
}

/// Android claims the `build` directories of modules and the native build
/// directories of a Gradle project.
pub proof fn law_what_android_claims(root: PathModel, candidates: Seq<PathModel>, facts: Seq<FactModel>, p: PathModel)
    ensures
        is_claimed(Builtin::Android.containers_spec(root, candidates, facts), p) <==> is_directory(p, facts) && has_gradle(
            root,
            facts,
        ) && ((is_at(p, root, "app/build"@) && in_module(joined_path(root, "app/build"@), facts)) || (is_at(
            p,
            root,
            "build"@,
        ) && in_module(joined_path(root, "build"@), facts)) || is_candidate(
            candidates,
            p,
            |q: PathModel|
                (name_of(q) == "build"@ && in_module(q, facts)) || name_of(q) == ".cxx"@ || name_of(q)
                    == ".externalNativeBuild"@,
        )),
{
    let wanted = android::wanted(root, candidates, facts);
    lemma_claimed("android"@, wanted, root, facts, p);
    lemma_none(p);
    let keep = |q: PathModel| android::is_ours(facts, q);
    lemma_filter(candidates, keep, p);
    let told = |q: PathModel|
        (name_of(q) == "build"@ && in_module(q, facts)) || name_of(q) == ".cxx"@ || name_of(q)
            == ".externalNativeBuild"@;
    assert forall|q: PathModel| #[trigger] keep(q) == told(q) by {}
    assert(is_candidate(candidates, p, keep) <==> is_candidate(candidates, p, told)) by {
        if is_candidate(candidates, p, keep) {
            let i = choose|i: int|
                0 <= i < candidates.len() && same_path(#[trigger] candidates[i], p) && keep(candidates[i]);
            assert(keep(candidates[i]) == told(candidates[i]));
            assert(same_path(candidates[i], p) && told(candidates[i]));
        }
        if is_candidate(candidates, p, told) {
            let i = choose|i: int|
                0 <= i < candidates.len() && same_path(#[trigger] candidates[i], p) && told(candidates[i]);
            assert(keep(candidates[i]) == told(candidates[i]));
            assert(same_path(candidates[i], p) && keep(candidates[i]));
        }
    }
    let a = joined_path(root, "app/build"@);
    let b = joined_path(root, "build"@);
    lemma_single(a, p);
    lemma_single(b, p);
    let first = if android::android_module(a, facts) {
        seq![a]
    } else {
        Seq::empty()
    };
    let second = if android::android_module(b, facts) {
        seq![b]
    } else {
        Seq::empty()
    };
    lemma_either(candidates.filter(keep), first, p);
    lemma_either(candidates.filter(keep) + first, second, p);
}

/// Xcode and Swift claim `.build` where there is a Swift package, and derived data.
pub proof fn law_what_xcode_claims(root: PathModel, candidates: Seq<PathModel>, facts: Seq<FactModel>, p: PathModel)
    ensures
        is_claimed(Builtin::XcodeSwift.containers_spec(root, candidates, facts), p) <==> is_directory(p, facts) && ((is_at(
            p,
            root,
            ".build"@,
        ) && has_file(root, "Package.swift"@, facts)) || is_candidate(
            candidates,
            p,
            |q: PathModel|
                name_of(q) == "DerivedData"@ || (name_of(q) == ".build"@ && (has_file(root, "Package.swift"@, facts) || (
                parent(q) is Some && has_file(parent(q)->0, "Package.swift"@, facts)))),
        )),
{
    let wanted = xcode_swift::wanted(root, candidates, facts);
    lemma_claimed("xcode-swift"@, wanted, root, facts, p);
    lemma_none(p);
    let keep = |q: PathModel| xcode_swift::is_ours(root, facts, q);
    let told = |q: PathModel|
        name_of(q) == "DerivedData"@ || (name_of(q) == ".build"@ && (has_file(root, "Package.swift"@, facts) || (parent(
            q,
        ) is Some && has_file(parent(q)->0, "Package.swift"@, facts))));
    lemma_filter(candidates, keep, p);
    lemma_same_keep(candidates, p, keep, told);
    let a = joined_path(root, ".build"@);
    lemma_single(a, p);
    let first = if has_file(root, "Package.swift"@, facts) {
        seq![a]
    } else {
        Seq::empty()
    };
    lemma_either(first, candidates.filter(keep), p);
}

proof fn lemma_same_keep(
    candidates: Seq<PathModel>,
    p: PathModel,
    keep: spec_fn(PathModel) -> bool,
    told: spec_fn(PathModel) -> bool,
)
    requires
        forall|q: PathModel| #[trigger] keep(q) == told(q),
    ensures
        is_candidate(candidates, p, keep) <==> is_candidate(candidates, p, told),
{
    if is_candidate(candidates, p, keep) {
        let i = choose|i: int| 0 <= i < candidates.len() && same_path(#[trigger] candidates[i], p) && keep(candidates[i]);
        assert(keep(candidates[i]) == told(candidates[i]));
        assert(same_path(candidates[i], p) && told(candidates[i]));
    }
    if is_candidate(candidates, p, told) {
        let i = choose|i: int| 0 <= i < candidates.len() && same_path(#[trigger] candidates[i], p) && told(candidates[i]);
        assert(keep(candidates[i]) == told(candidates[i]));
        assert(same_path(candidates[i], p) && keep(candidates[i]));
    }
}

proof fn lemma_part(table: Seq<PartModel>, name: Seq<char>, i: int)
    requires
        0 <= i,
    ensures
        part_from(table, name, i) is Some <==> exists|k: int| i <= k < table.len() && (#[trigger] table[k]).name == name,
        part_from(table, name, i) matches Some(t) ==> t.name == name,
    decreases table.len() - i,
{
    if i < table.len() && table[i].name != name {
        lemma_part(table, name, i + 1);
    }
}

/// A name that a directory of a Node project is known by.
pub open spec fn is_node_name(n: Seq<char>) -> bool {
    ||| n == "dist"@
    ||| n == "build"@
    ||| n == "out"@
    ||| n == ".next"@
    ||| n == ".nuxt"@
    ||| n == ".svelte-kit"@
    ||| n == ".output"@
    ||| n == "storybook-static"@
    ||| n == "out-tsc"@
    ||| n == "coverage"@
    ||| n == ".nyc_output"@
    ||| n == "playwright-report"@
    ||| n == "test-results"@
    ||| n == ".turbo"@
    ||| n == ".parcel-cache"@
    ||| n == ".vite"@
    ||| n == ".cache"@
    ||| n == ".angular"@
    ||| n == ".expo"@
    ||| n == ".metro"@
    ||| n == "node_modules"@
    ||| n == "bower_components"@
    ||| n == "jspm_packages"@
    ||| n == "web_modules"@
}

/// Whether a directory has a manifest of a JVM build.
pub open spec fn has_jvm(root: PathModel, facts: Seq<FactModel>) -> bool {
    has_file(root, "pom.xml"@, facts) || has_file(root, "build.gradle"@, facts) || has_file(root, "build.gradle.kts"@, facts)
        || has_file(root, "settings.gradle"@, facts)
}

/// Whether a name may mean a Node directory of a project: it is known, and where
/// a JVM build is there too, not one that such a build uses as well.
pub open spec fn may_be_node(root: PathModel, facts: Seq<FactModel>, n: Seq<char>) -> bool {
    is_node_name(n) && (has_jvm(root, facts) ==> n != "build"@ && n != "out"@ && n != ".cache"@)
}

proof fn lemma_node_names(n: Seq<char>)
    ensures
        part_named(node::known_dirs_spec(), n) is Some <==> is_node_name(n),
{
    let t = node::known_dirs_spec();
    lemma_part(t, n, 0);
    assert(t[0].name == "dist"@);
    assert(t[1].name == "build"@);
    assert(t[2].name == "out"@);
    assert(t[3].name == ".next"@);
    assert(t[4].name == ".nuxt"@);
    assert(t[5].name == ".svelte-kit"@);
    assert(t[6].name == ".output"@);
    assert(t[7].name == "storybook-static"@);
    assert(t[8].name == "out-tsc"@);
    assert(t[9].name == "coverage"@);
    assert(t[10].name == ".nyc_output"@);
    assert(t[11].name == "playwright-report"@);
    assert(t[12].name == "test-results"@);
    assert(t[13].name == ".turbo"@);
    assert(t[14].name == ".parcel-cache"@);
    assert(t[15].name == ".vite"@);
    assert(t[16].name == ".cache"@);
    assert(t[17].name == ".angular"@);
    assert(t[18].name == ".expo"@);
    assert(t[19].name == ".metro"@);
    assert(t[20].name == "node_modules"@);
    assert(t[21].name == "bower_components"@);
    assert(t[22].name == "jspm_packages"@);
    assert(t[23].name == "web_modules"@);
}

proof fn lemma_node_paths(root: PathModel, facts: Seq<FactModel>, n: int, p: PathModel)
    requires
        0 <= n <= node::known_dirs_spec().len(),
    ensures
        has_path(node::known_paths(node::known_dirs_spec(), root, node::jvm_marked(root, facts), n), p) <==> exists|k: int|
            0 <= k < n && is_at(p, root, (#[trigger] node::known_dirs_spec()[k]).name) && may_be_node(
                root,
                facts,
                node::known_dirs_spec()[k].name,
            ),
    decreases n,
{
    let t = node::known_dirs_spec();
    let jvm = node::jvm_marked(root, facts);
    if n > 0 {
        lemma_node_paths(root, facts, n - 1, p);
        let before = node::known_paths(t, root, jvm, n - 1);
        let now = node::known_paths(t, root, jvm, n);
        let q = joined_path(root, t[n - 1].name);
        lemma_node_names(t[n - 1].name);
        lemma_part(t, t[n - 1].name, 0);
        assert(before.push(q) =~= before + seq![q]);
        lemma_either(before, seq![q], p);
        lemma_single(q, p);
        assert(is_node_name(t[n - 1].name));
    } else {
        lemma_none(p);
    }
}

/// Node claims the directories of a package that are known by their names, the
/// deployment output beside them, and the package itself where its build leaves
/// single files in it.
pub proof fn law_what_node_claims(root: PathModel, candidates: Seq<PathModel>, facts: Seq<FactModel>, p: PathModel)
    ensures
        is_claimed(Builtin::Node.containers_spec(root, candidates, facts), p) <==> has_file(root, "package.json"@, facts) && (
        (same_path(root, p) && (has_file(root, "tsconfig.tsbuildinfo"@, facts) || has_file(root, ".eslintcache"@, facts)))
            || (is_directory(p, facts) && (is_at(p, root, ".vercel/output"@) || (exists|n: Seq<char>| #[trigger]
            may_be_node(root, facts, n) && is_at(p, root, n)) || is_candidate(
            candidates,
            p,
            |q: PathModel| may_be_node(root, facts, name_of(q)),
        )))),
{
    let jvm = node::jvm_marked(root, facts);
    let t = node::known_dirs_spec();
    let wanted = node::wanted(root, candidates, facts);
    lemma_claimed("node"@, wanted, root, facts, p);
    lemma_none(p);
    let keep = |q: PathModel| node::is_ours(jvm, q);
    let told = |q: PathModel| may_be_node(root, facts, name_of(q));
    assert forall|q: PathModel| #[trigger] keep(q) == told(q) by {
        lemma_node_names(name_of(q));
    }
    lemma_filter(candidates, keep, p);
    lemma_same_keep(candidates, p, keep, told);
    let known = node::known_paths(t, root, jvm, t.len() as int);
    let output = joined_path(root, ".vercel/output"@);
    lemma_node_paths(root, facts, t.len() as int, p);
    assert(has_path(known, p) <==> exists|n: Seq<char>| #[trigger] may_be_node(root, facts, n) && is_at(p, root, n)) by {
        if exists|n: Seq<char>| #[trigger] may_be_node(root, facts, n) && is_at(p, root, n) {
            let n = choose|n: Seq<char>| #[trigger] may_be_node(root, facts, n) && is_at(p, root, n);
            lemma_node_names(n);
            lemma_part(t, n, 0);
            let k = choose|k: int| 0 <= k < t.len() && (#[trigger] t[k]).name == n;
            assert(is_at(p, root, t[k].name));
        }
        if has_path(known, p) {
            let k = choose|k: int|
                0 <= k < t.len() && is_at(p, root, (#[trigger] t[k]).name) && may_be_node(root, facts, t[k].name);
            assert(may_be_node(root, facts, t[k].name));
        }
    }
    assert(known.push(output) =~= known + seq![output]);
    lemma_either(known, seq![output], p);
    lemma_single(output, p);
    lemma_either(known.push(output), candidates.filter(keep), p);
    let all = Builtin::Node.containers_spec(root, candidates, facts);
    let a = claimed("node"@, wanted, root, facts);
    let b = node::loose_container(root, facts);
    assert(all == a + b);
    lemma_any(a, b, p);
    if b.len() > 0 {
        assert(b[0].path == root);
    }
}

proof fn lemma_any(a: Seq<ContainerModel>, b: Seq<ContainerModel>, p: PathModel)
    ensures
        is_claimed(a + b, p) <==> is_claimed(a, p) || is_claimed(b, p),
{
    let s = a + b;
    if is_claimed(s, p) {
        let k = choose|k: int| 0 <= k < s.len() && same_path((#[trigger] s[k]).path, p);
        if k < a.len() {
            assert(same_path(a[k].path, p));
        } else {
            assert(same_path(b[k - a.len()].path, p));
        }
    }
    if is_claimed(a, p) {
        let k = choose|k: int| 0 <= k < a.len() && same_path((#[trigger] a[k]).path, p);
        assert(s[k] == a[k]);
    }
    if is_claimed(b, p) {
        let k = choose|k: int| 0 <= k < b.len() && same_path((#[trigger] b[k]).path, p);
        assert(s[a.len() + k] == b[k]);
    }
}

/// A name that a directory of a Python project is known by.
pub open spec fn is_python_name(n: Seq<char>) -> bool {
    ||| n == "dist"@
    ||| n == "build"@
    ||| n == "__pycache__"@
    ||| n == ".pytest_cache"@
    ||| n == ".mypy_cache"@
    ||| n == ".ruff_cache"@
    ||| n == ".pytype"@
    ||| n == ".pyre"@
    ||| n == ".hypothesis"@
    ||| n == "htmlcov"@
    ||| n == ".tox"@
    ||| n == ".nox"@
    ||| n == ".eggs"@
    ||| n == "__pypackages__"@
}

/// Whether a directory has a manifest of a Python project.
pub open spec fn has_python(root: PathModel, facts: Seq<FactModel>) -> bool {
    ||| has_file(root, "pyproject.toml"@, facts)
    ||| has_file(root, "setup.py"@, facts)
    ||| has_file(root, "setup.cfg"@, facts)
    ||| has_file(root, "requirements.txt"@, facts)
    ||| has_file(root, "requirements-dev.txt"@, facts)
    ||| has_file(root, "requirements.in"@, facts)
    ||| has_file(root, "Pipfile"@, facts)
    ||| has_file(root, "poetry.lock"@, facts)
    ||| has_file(root, "uv.lock"@, facts)
    ||| has_file(root, "tox.ini"@, facts)
    ||| has_file(root, "noxfile.py"@, facts)
    ||| has_file(root, "environment.yml"@, facts)
}

/// Whether a directory has a manifest of another build that makes `dist` or `build`.
pub open spec fn has_other(root: PathModel, facts: Seq<FactModel>) -> bool {
    ||| has_file(root, "package.json"@, facts)
    ||| has_file(root, "Cargo.toml"@, facts)
    ||| has_jvm(root, facts)
}

pub open spec fn may_be_python(root: PathModel, facts: Seq<FactModel>, n: Seq<char>) -> bool {
    is_python_name(n) && (has_other(root, facts) ==> n != "dist"@ && n != "build"@)
}

proof fn lemma_python_names(n: Seq<char>)
    ensures
        part_named(python::known_dirs_spec(), n) is Some <==> is_python_name(n),
{
    let t = python::known_dirs_spec();
    lemma_part(t, n, 0);
    assert(t[0].name == "dist"@);
    assert(t[1].name == "build"@);
    assert(t[2].name == "__pycache__"@);
    assert(t[3].name == ".pytest_cache"@);
    assert(t[4].name == ".mypy_cache"@);
    assert(t[5].name == ".ruff_cache"@);
    assert(t[6].name == ".pytype"@);
    assert(t[7].name == ".pyre"@);
    assert(t[8].name == ".hypothesis"@);
    assert(t[9].name == "htmlcov"@);
    assert(t[10].name == ".tox"@);
    assert(t[11].name == ".nox"@);
    assert(t[12].name == ".eggs"@);
    assert(t[13].name == "__pypackages__"@);
}

proof fn lemma_python_paths(root: PathModel, facts: Seq<FactModel>, n: int, p: PathModel)
    requires
        0 <= n <= python::known_dirs_spec().len(),
    ensures
        has_path(python::known_paths(python::known_dirs_spec(), root, python::foreign(root, facts), n), p) <==> exists|
            k: int,
        |
            0 <= k < n && is_at(p, root, (#[trigger] python::known_dirs_spec()[k]).name) && may_be_python(
                root,
                facts,
                python::known_dirs_spec()[k].name,
            ),
    decreases n,
{
    let t = python::known_dirs_spec();
    let other = python::foreign(root, facts);
    if n > 0 {
        lemma_python_paths(root, facts, n - 1, p);
        let before = python::known_paths(t, root, other, n - 1);
        let q = joined_path(root, t[n - 1].name);
        lemma_python_names(t[n - 1].name);
        lemma_part(t, t[n - 1].name, 0);
        assert(before.push(q) =~= before + seq![q]);
        lemma_either(before, seq![q], p);
        lemma_single(q, p);
        assert(is_python_name(t[n - 1].name));
    } else {
        lemma_none(p);
    }
}

/// Whether a directory is a virtual environment.
pub open spec fn is_environment(p: PathModel, facts: Seq<FactModel>) -> bool {
    has_file(p, "pyvenv.cfg"@, facts)
}

/// Python claims virtual environments wherever they are, the directories of a
/// Python project that are known by their names, and the project itself where
/// its tools leave a single file in it.
pub proof fn law_what_python_claims(root: PathModel, candidates: Seq<PathModel>, facts: Seq<FactModel>, p: PathModel)
    ensures
        is_claimed(Builtin::Python.containers_spec(root, candidates, facts), p) <==> (same_path(root, p) && has_python(
            root,
            facts,
        ) && has_file(root, ".coverage"@, facts)) || (is_directory(p, facts) && ((has_python(root, facts) && exists|
            n: Seq<char>,
        | #[trigger]
            may_be_python(root, facts, n) && is_at(p, root, n)) || is_candidate(
            candidates,
            p,
            |q: PathModel|
                is_environment(q, facts) || (has_python(root, facts) && (may_be_python(root, facts, name_of(q)) || finishes(
                    name_of(q),
                    ".egg-info"@,
                ))),
        ) || (is_at(p, root, ".venv"@) && is_environment(joined_path(root, ".venv"@), facts)) || (is_at(p, root, "venv"@)
            && is_environment(joined_path(root, "venv"@), facts)) || (is_at(p, root, "env"@) && is_environment(
            joined_path(root, "env"@),
            facts,
        )))),
{
    let other = python::foreign(root, facts);
    let t = python::known_dirs_spec();
    let wanted = python::wanted(root, candidates, facts);
    lemma_claimed("python"@, wanted, root, facts, p);
    lemma_none(p);
    let keep = |q: PathModel| python::is_ours(root, facts, q);
    let told = |q: PathModel|
        is_environment(q, facts) || (has_python(root, facts) && (may_be_python(root, facts, name_of(q)) || finishes(
            name_of(q),
            ".egg-info"@,
        )));
    assert forall|q: PathModel| #[trigger] keep(q) == told(q) by {
        lemma_python_names(name_of(q));
    }
    lemma_filter(candidates, keep, p);
    lemma_same_keep(candidates, p, keep, told);
    let known = python::known_paths(t, root, other, t.len() as int);
    lemma_python_paths(root, facts, t.len() as int, p);
    assert(has_path(known, p) <==> exists|n: Seq<char>| #[trigger] may_be_python(root, facts, n) && is_at(p, root, n)) by {
        if exists|n: Seq<char>| #[trigger] may_be_python(root, facts, n) && is_at(p, root, n) {
            let n = choose|n: Seq<char>| #[trigger] may_be_python(root, facts, n) && is_at(p, root, n);
            lemma_python_names(n);
            lemma_part(t, n, 0);
            let k = choose|k: int| 0 <= k < t.len() && (#[trigger] t[k]).name == n;
            assert(is_at(p, root, t[k].name));
        }
        if has_path(known, p) {
            let k = choose|k: int|
                0 <= k < t.len() && is_at(p, root, (#[trigger] t[k]).name) && may_be_python(root, facts, t[k].name);
            assert(may_be_python(root, facts, t[k].name));
        }
    }
    let first = if python::marked(root, facts) {
        known
    } else {
        Seq::empty()
    };
    let e0 = python::env_at(root, facts, ".venv"@);
    let e1 = python::env_at(root, facts, "venv"@);
    let e2 = python::env_at(root, facts, "env"@);
    lemma_single(joined_path(root, ".venv"@), p);
    lemma_single(joined_path(root, "venv"@), p);
    lemma_single(joined_path(root, "env"@), p);
    lemma_either(first, candidates.filter(keep), p);
    lemma_either(first + candidates.filter(keep), e0, p);
    lemma_either(first + candidates.filter(keep) + e0, e1, p);
    lemma_either(first + candidates.filter(keep) + e0 + e1, e2, p);
    let a = claimed("python"@, wanted, root, facts);
    let b = python::loose_container(root, facts);
    lemma_any(a, b, p);
    if b.len() > 0 {
        assert(b[0].path == root);
    }
}

} // verus!
