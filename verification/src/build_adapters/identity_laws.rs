//! What the units of a container are named by: the names on disk, read the way
//! the tool that wrote them lays them out.

use super::adapter::{flat, BuildAdapter};
use super::arrange::{by_path, path_keys};
use super::container::{child_rows, rows_ordered, ContainerModel, DirModel};
use super::context::CtxModel;
use super::coverage_laws::{lemma_child_unit, lemma_measures, lemma_row_found, shows};
use super::go;
use super::gradle;
use super::layout::is_versionish;
use super::pieces::{directly_in, lemma_flat_holds};
use super::python;
use super::registry::Builtin;
use super::xcode_swift;
use crate::artifact::{relative, ArtifactRole};
use crate::locations::BuildStoreKind;
use crate::order::{lemma_stable_places, place_in, stable_places};
use crate::path::{
    file_name, joined_path, lemma_components_are_legal, lemma_parent_parts, name_of, part_legal, same_opt, same_path,
    PathModel,
};
use crate::text::{
    cut_last, finishes, first_piece, free_of, joined, law_split_at_a_separator,
    law_split_undoes_join, lemma_cut_first, lemma_first_at_end, split,
};
use vstd::prelude::*;

verus! {

// ---------------------------------------------------------------------
// Texts
// ---------------------------------------------------------------------

proof fn lemma_split_free(s: Seq<char>, c: char)
    requires
        free_of(s, c),
    ensures
        split(s, c) == seq![s],
{
    let one = seq![s];
    assert(joined(one, seq![c]) == s);
    law_split_undoes_join(one, c);
}

/// A text of three pieces, the first two free of the separator.
proof fn lemma_three_pieces(a: Seq<char>, b: Seq<char>, rest: Seq<char>, c: char)
    requires
        free_of(a, c),
        free_of(b, c),
    ensures
        ({
            let p = split(a + seq![c] + b + seq![c] + rest, c);
            &&& p.len() >= 3
            &&& p[0] == a
            &&& p[1] == b
            &&& p.skip(2) == split(rest, c)
        }),
{
    let s = a + seq![c] + b + seq![c] + rest;
    law_split_at_a_separator(a + seq![c] + b, rest, c);
    law_split_at_a_separator(a, b, c);
    lemma_split_free(a, c);
    lemma_split_free(b, c);
    crate::text::lemma_split_pieces(rest, c);
    assert(split(s, c) =~= seq![a] + seq![b] + split(rest, c));
    assert(split(s, c).skip(2) =~= split(rest, c));
}

// ---------------------------------------------------------------------
// Go
// ---------------------------------------------------------------------

/// A release directory `<build>_<os>_<arch>` is told by its build, its system
/// and its architecture.
pub proof fn law_a_release_is_told_by_its_target(
    c: ContainerModel,
    ctx: CtxModel,
    d: DirModel,
    build: Seq<char>,
    os: Seq<char>,
    arch: Seq<char>,
) -> (j: int)
    requires
        !c.shared,
        name_of(c.path) == "dist"@,
        rows_ordered(ctx.rows),
        ctx.rows.contains(d),
        directly_in(d, c.path),
        free_of(build, '_'),
        free_of(os, '_'),
        name_of(d.path) == build + seq!['_'] + os + seq!['_'] + arch,
    ensures
        ({
            let units = Builtin::Go.identify_spec(c, ctx);
            &&& 0 < j < units.len()
            &&& shows(units[j], d)
            &&& units[j].role == ArtifactRole::Output
            &&& units[j].variant.target == Some(build)
            &&& units[j].variant.configuration == Some(os)
            &&& units[j].variant.architecture == Some(arch)
        }),
{
    lemma_measures();
    reveal_strlit("dist");
    reveal_strlit("vendor");
    reveal_strlit("_");
    assert("dist"@.len() != "vendor"@.len());
    assert("_"@ =~= seq!['_']);
    lemma_three_pieces(build, os, arch, '_');
    crate::text::law_join_undoes_split(arch, '_');
    let f = |d: DirModel| go::dist_child(c, d);
    1 + lemma_child_unit(ctx.rows, c.path, f, d, 0)
}

/// Whether directories lead down from a path, each measured and directly in the
/// one before it, and none but the last has a name that a walk stops at.
pub open spec fn leads_down(rows: Seq<DirModel>, at: go::StopAt, path: PathModel, trail: Seq<DirModel>) -> bool {
    &&& trail.len() > 0
    &&& directly_in(trail[0], path)
    &&& forall|i: int| 0 <= i < trail.len() ==> rows.contains(#[trigger] trail[i])
    &&& forall|i: int, j: int|
        0 <= i < trail.len() && j == i + 1 && j < trail.len() ==> directly_in(#[trigger] trail[j], (#[trigger] trail[i]).path)
    &&& forall|i: int| 0 <= i < trail.len() - 1 ==> !go::stops(at, name_of((#[trigger] trail[i]).path))
    &&& go::stops(at, name_of(trail.last().path))
}

proof fn lemma_walk_all_finds(rows: Seq<DirModel>, at: go::StopAt, dirs: Seq<DirModel>, depth: nat, i: int, d: DirModel)
    requires
        0 <= i < dirs.len(),
        go::walk_dir(rows, at, dirs[i], depth).found.contains(d),
    ensures
        go::walk_all(rows, at, dirs, depth).found.contains(d),
    decreases dirs.len(),
{
    let a = go::walk_dir(rows, at, dirs.last(), depth).found;
    let b = go::walk_all(rows, at, dirs.drop_last(), depth).found;
    let all = go::walk_all(rows, at, dirs, depth).found;
    assert(all =~= a + b);
    if i == dirs.len() - 1 {
        let k = choose|k: int| 0 <= k < a.len() && a[k] == d;
        assert(all[k] == d);
    } else {
        lemma_walk_all_finds(rows, at, dirs.drop_last(), depth, i, d);
        let k = choose|k: int| 0 <= k < b.len() && b[k] == d;
        assert(all[a.len() + k] == d);
    }
}

proof fn lemma_shorter_trail(rows: Seq<DirModel>, at: go::StopAt, path: PathModel, trail: Seq<DirModel>)
    requires
        leads_down(rows, at, path, trail),
        trail.len() > 1,
    ensures
        leads_down(rows, at, trail[0].path, trail.skip(1)),
        trail.skip(1).last() == trail.last(),
{
    let rest = trail.skip(1);
    assert(rest[0] == trail[1]);
    assert(directly_in(trail[1], trail[0].path));
    assert forall|i: int| 0 <= i < rest.len() implies rows.contains(#[trigger] rest[i]) by {
        assert(rest[i] == trail[i + 1]);
    }
    assert forall|i: int, j: int| 0 <= i < rest.len() && j == i + 1 && j < rest.len() implies directly_in(
        #[trigger] rest[j],
        (#[trigger] rest[i]).path,
    ) by {
        assert(rest[i] == trail[i + 1] && rest[j] == trail[j + 1]);
    }
    assert forall|i: int| 0 <= i < rest.len() - 1 implies !go::stops(at, name_of((#[trigger] rest[i]).path)) by {
        assert(rest[i] == trail[i + 1]);
    }
}

proof fn lemma_walk_finds(rows: Seq<DirModel>, at: go::StopAt, path: PathModel, trail: Seq<DirModel>, depth: nat)
    requires
        rows_ordered(rows),
        leads_down(rows, at, path, trail),
        trail.len() <= depth + 1,
    ensures
        go::walk_all(rows, at, child_rows(rows, path), depth).found.contains(trail.last()),
    decreases depth,
{
    let d = trail.last();
    let dirs = child_rows(rows, path);
    super::pieces::lemma_ordered_apart(rows);
    super::pieces::lemma_child_rows(rows, path);
    assert(rows.contains(trail[0]));
    assert(dirs.contains(trail[0]));
    let i = choose|i: int| 0 <= i < dirs.len() && dirs[i] == trail[0];
    if trail.len() == 1 {
        assert(go::walk_dir(rows, at, dirs[i], depth).found[0] == d);
    } else {
        lemma_shorter_trail(rows, at, path, trail);
        assert(!go::stops(at, name_of(trail[0].path)));
        lemma_walk_finds(rows, at, trail[0].path, trail.skip(1), (depth - 1) as nat);
    }
    lemma_walk_all_finds(rows, at, dirs, depth, i, d);
}

proof fn lemma_cached_finds(rows: Seq<DirModel>, tops: Seq<DirModel>, i: int, d: DirModel)
    requires
        0 <= i < tops.len(),
        name_of(tops[i].path).contains('@') ==> d == tops[i],
        !name_of(tops[i].path).contains('@') ==> go::modules_under(
            rows,
            go::StopAt::Version,
            tops[i].path,
        ).found.contains(d),
    ensures
        go::cached_modules(rows, tops).found.contains(d),
    decreases tops.len(),
{
    let t = tops.last();
    let before = go::cached_modules(rows, tops.drop_last()).found;
    let all = go::cached_modules(rows, tops).found;
    if i == tops.len() - 1 {
        if name_of(t.path).contains('@') {
            assert(all =~= before + seq![t]);
            assert(all[before.len() as int] == d);
        } else {
            let more = go::modules_under(rows, go::StopAt::Version, t.path).found;
            assert(all =~= before + more);
            let k = choose|k: int| 0 <= k < more.len() && more[k] == d;
            assert(all[before.len() + k] == d);
        }
    } else {
        lemma_cached_finds(rows, tops.drop_last(), i, d);
        let k = choose|k: int| 0 <= k < before.len() && before[k] == d;
        assert(all[k] == d);
    }
}

proof fn lemma_by_path_holds(rows: Seq<DirModel>, d: DirModel)
    requires
        rows.len() <= usize::MAX,
        rows.contains(d),
    ensures
        by_path(rows).contains(d),
{
    let keys = path_keys(rows);
    lemma_stable_places(keys);
    let order = stable_places(keys);
    let k = choose|k: int| 0 <= k < rows.len() && rows[k] == d;
    assert(place_in(order, k));
    let i = choose|i: int| 0 <= i < order.len() && order[i] == k;
    assert(by_path(rows)[i] == d);
}

/// Every extracted module version of the module cache has a unit: a directory
/// whose name holds an `@`, however deep within the levels that are walked.
/// Where its path reads `<module>@<version>`, it is told by both.
pub proof fn law_every_module_version_is_told_of(c: ContainerModel, ctx: CtxModel, trail: Seq<DirModel>) -> (j: int)
    requires
        c.shared,
        c.store_kind != Some(BuildStoreKind::GoModuleDownloads),
        c.store_kind != Some(BuildStoreKind::GoBuildCache),
        rows_ordered(ctx.rows),
        leads_down(ctx.rows, go::StopAt::Version, c.path, trail),
        name_of(trail[0].path) != "cache"@,
        trail.len() <= 9,
        cut_last(relative(c.path, trail.last().path), '@') is Some,
        go::walk_all(
            ctx.rows,
            go::StopAt::Version,
            child_rows(ctx.rows, trail[0].path),
            7,
        ).found.len() <= usize::MAX,
    ensures
        ({
            let units = Builtin::Go.identify_spec(c, ctx);
            let d = trail.last();
            let (escaped, version) = cut_last(relative(c.path, d.path), '@')->0;
            &&& 0 < j < units.len()
            &&& shows(units[j], d)
            &&& go::unescaped(escaped) matches Some(module) ==> units[j].variant.package == Some(module)
                && units[j].variant.version == Some(version)
            &&& go::unescaped(escaped) is None ==> units[j].role == ArtifactRole::Residual
        }),
{
    lemma_measures();
    let rows = ctx.rows;
    let d = trail.last();
    let keep = |x: DirModel| name_of(x.path) != "cache"@;
    let tops = child_rows(rows, c.path).filter(keep);
    super::pieces::lemma_ordered_apart(rows);
    super::pieces::lemma_child_rows(rows, c.path);
    super::pieces::lemma_filter_apart(child_rows(rows, c.path), keep);
    assert(rows.contains(trail[0]));
    assert(tops.contains(trail[0]));
    let i = choose|i: int| 0 <= i < tops.len() && tops[i] == trail[0];
    if trail.len() > 1 {
        lemma_shorter_trail(rows, go::StopAt::Version, c.path, trail);
        assert(!go::stops(go::StopAt::Version, name_of(trail[0].path)));
        lemma_walk_finds(rows, go::StopAt::Version, trail[0].path, trail.skip(1), 7);
        lemma_by_path_holds(
            go::walk_all(rows, go::StopAt::Version, child_rows(rows, trail[0].path), 7).found,
            d,
        );
    }
    lemma_cached_finds(rows, tops, i, d);
    let found = go::cached_modules(rows, tops).found;
    let k = choose|k: int| 0 <= k < found.len() && found[k] == d;
    let f = |x: DirModel| go::module_unit(c, x);
    let m = lemma_flat_holds(found, f, k, 0);
    1 + go::cache_unit(c, ctx).len() as int + m
}

// ---------------------------------------------------------------------
// Gradle
// ---------------------------------------------------------------------

/// A distribution `gradle-<version>-<kind>` is told by its version.
pub proof fn law_a_distribution_is_told_by_its_version(
    c: ContainerModel,
    ctx: CtxModel,
    d: DirModel,
    version: Seq<char>,
    kind: Seq<char>,
) -> (j: int)
    requires
        c.shared,
        c.store_kind == Some(BuildStoreKind::GradleWrapperDists),
        rows_ordered(ctx.rows),
        ctx.rows.contains(d),
        directly_in(d, c.path),
        is_versionish(version),
        free_of(version, '-'),
        name_of(d.path) == "gradle-"@ + version + seq!['-'] + kind,
    ensures
        ({
            let units = Builtin::Gradle.identify_spec(c, ctx);
            &&& 0 < j < units.len()
            &&& shows(units[j], d)
            &&& units[j].variant.toolchain == Some("gradle "@ + version)
        }),
{
    lemma_measures();
    let name = name_of(d.path);
    let p = "gradle-"@;
    assert(name.take(p.len() as int) =~= p);
    assert(name.skip(p.len() as int) =~= version + seq!['-'] + kind);
    lemma_first_at_end(version, '-', kind);
    assert((version + seq!['-'] + kind).take(version.len() as int) =~= version);
    assert(first_piece(version + seq!['-'] + kind, '-') == version);
    let f = |d: DirModel| gradle::dist_unit(c, d);
    1 + lemma_child_unit(ctx.rows, c.path, f, d, 0)
}

/// The last component of a path that lies directly in another, and its name.
proof fn lemma_named(d: DirModel, path: PathModel)
    requires
        directly_in(d, path),
        file_name(d.path) is Some,
    ensures
        d.path.parts() == path.parts().push(name_of(d.path)),
        name_of(d.path).len() > 0,
        free_of(name_of(d.path), '/'),
        name_of(d.path) != "/"@,
{
    reveal_strlit("/");
    lemma_parent_parts(d.path);
    lemma_components_are_legal(d.path.text);
    assert(d.path.parts() =~= path.parts().push(d.path.parts().last()));
    let i = d.path.parts().len() - 1;
    assert(part_legal(d.path.parts(), i));
    assert(!name_of(d.path).contains('/'));
}

proof fn lemma_files_are_no_metadata(name: Seq<char>)
    requires
        crate::text::begins(name, "files-"@),
    ensures
        !crate::text::begins(name, "metadata-"@),
{
    reveal_strlit("files-");
    reveal_strlit("metadata-");
    if crate::text::begins(name, "metadata-"@) {
        assert(name.take(6)[0] == 'f');
        assert(name.take(9)[0] == 'm');
        assert(name[0] == 'f' && name[0] == 'm');
    }
}

proof fn lemma_module_unit(c: ContainerModel, files: DirModel, group: DirModel, artifact: DirModel)
    requires
        directly_in(group, files.path),
        file_name(group.path) is Some,
        directly_in(artifact, group.path),
        file_name(artifact.path) is Some,
    ensures
        ({
            let m = gradle::module_unit(c, files.path, artifact);
            &&& m.len() == 1
            &&& shows(m[0], artifact)
            &&& m[0].role == ArtifactRole::SharedStoreEntry
            &&& m[0].variant.package == Some(name_of(group.path) + ":"@ + name_of(artifact.path))
            &&& m[0].variant.version is None
        }),
{
    lemma_measures();
    reveal_strlit("/");
    let g = name_of(group.path);
    let a = name_of(artifact.path);
    lemma_named(group, files.path);
    lemma_named(artifact, group.path);
    let rest = artifact.path.parts().skip(files.path.len() as int);
    assert(rest =~= seq![g, a]);
    assert(artifact.path.parts().take(files.path.len() as int) =~= files.path.parts());
    let rel = relative(files.path, artifact.path);
    assert(rest.drop_last() =~= seq![g]);
    assert("/"@ =~= seq!['/']);
    assert(rel == joined(rest, "/"@));
    assert forall|i: int| 0 <= i < rest.len() implies free_of(#[trigger] rest[i], '/') by {}
    law_split_undoes_join(rest, '/');
}

/// A cached module is told by its coordinates: the group it lies in and its own
/// name.
pub proof fn law_a_cached_module_is_told_by_its_coordinates(
    c: ContainerModel,
    ctx: CtxModel,
    cache: DirModel,
    files: DirModel,
    group: DirModel,
    artifact: DirModel,
) -> (j: int)
    requires
        c.shared,
        c.store_kind == Some(BuildStoreKind::GradleCaches),
        rows_ordered(ctx.rows),
        ctx.rows.contains(cache),
        ctx.rows.contains(files),
        ctx.rows.contains(group),
        ctx.rows.contains(artifact),
        directly_in(cache, c.path),
        gradle::versioned_name(name_of(cache.path)).0 == "modules"@,
        directly_in(files, cache.path),
        crate::text::begins(name_of(files.path), "files-"@),
        directly_in(group, files.path),
        file_name(group.path) is Some,
        directly_in(artifact, group.path),
        file_name(artifact.path) is Some,
    ensures
        ({
            let units = Builtin::Gradle.identify_spec(c, ctx);
            &&& 0 < j < units.len()
            &&& shows(units[j], artifact)
            &&& units[j].role == ArtifactRole::SharedStoreEntry
            &&& units[j].variant.package == Some(name_of(group.path) + ":"@ + name_of(artifact.path))
            &&& units[j].variant.version is None
        }),
{
    let l = lemma_among_modules(c, ctx, cache.path, files, group, artifact);
    let of_cache = |x: DirModel| gradle::cache_child(c, ctx, x);
    assert(gradle::cache_child(c, ctx, cache) =~= seq![gradle::cache_unit(c, cache)] + gradle::modules(
        c,
        ctx,
        cache.path,
    ));
    assert(of_cache(cache)[1 + l] == gradle::module_unit(c, files.path, artifact)[0]);
    lemma_module_unit(c, files, group, artifact);
    1 + lemma_child_unit(ctx.rows, c.path, of_cache, cache, 1 + l)
}

proof fn lemma_among_modules(
    c: ContainerModel,
    ctx: CtxModel,
    dir: PathModel,
    files: DirModel,
    group: DirModel,
    artifact: DirModel,
) -> (l: int)
    requires
        rows_ordered(ctx.rows),
        ctx.rows.contains(files),
        ctx.rows.contains(group),
        ctx.rows.contains(artifact),
        directly_in(files, dir),
        crate::text::begins(name_of(files.path), "files-"@),
        directly_in(group, files.path),
        directly_in(artifact, group.path),
    ensures
        0 <= l < gradle::modules(c, ctx, dir).len(),
        gradle::modules(c, ctx, dir)[l] == gradle::module_unit(c, files.path, artifact)[0],
{
    lemma_files_are_no_metadata(name_of(files.path));
    let of_artifact = |a: DirModel| gradle::module_unit(c, files.path, a);
    let of_group = |g: DirModel| flat(child_rows(ctx.rows, g.path), |a: DirModel| gradle::module_unit(c, files.path, a));
    let of_files = |d: DirModel| gradle::modules_child(c, ctx, d);
    assert(of_artifact(artifact).len() == 1);
    let i = lemma_child_unit(ctx.rows, group.path, of_artifact, artifact, 0);
    let k = lemma_child_unit(ctx.rows, files.path, of_group, group, i);
    lemma_child_unit(ctx.rows, dir, of_files, files, k)
}

// ---------------------------------------------------------------------
// Python
// ---------------------------------------------------------------------

/// Whether a directory is the `site-packages` of an environment: in its library
/// directory, or in an interpreter's directory there.
pub open spec fn is_site(rows: Seq<DirModel>, env: PathModel, site: DirModel) -> bool {
    ||| site_in_lib(rows, joined_path(env, "lib"@), site)
    ||| site_in_lib(rows, joined_path(env, "Lib"@), site)
    ||| site_in_lib(rows, joined_path(env, "lib64"@), site)
}

pub open spec fn site_in_lib(rows: Seq<DirModel>, lib: PathModel, site: DirModel) -> bool {
    ||| same_path(site.path, joined_path(lib, "site-packages"@))
    ||| exists|py: DirModel|
        #[trigger] rows.contains(py) && directly_in(py, lib) && same_path(
            site.path,
            joined_path(py.path, "site-packages"@),
        )
}

proof fn lemma_row_at(rows: Seq<DirModel>, d: DirModel, p: PathModel)
    requires
        rows_ordered(rows),
        rows.contains(d),
        same_path(d.path, p),
    ensures
        super::container::row_of(rows, p) == Some(d),
{
    lemma_row_found(rows, d);
    lemma_same_rows(rows, d.path, p, 0);
}

proof fn lemma_same_rows(rows: Seq<DirModel>, p: PathModel, q: PathModel, i: int)
    requires
        same_path(p, q),
    ensures
        super::container::row_from(rows, p, i) == super::container::row_from(rows, q, i),
    decreases rows.len() - i,
{
    if 0 <= i < rows.len() {
        lemma_same_rows(rows, p, q, i + 1);
    }
}

proof fn lemma_site_entry_in_lib(c: ContainerModel, ctx: CtxModel, lib: PathModel, site: DirModel, d: DirModel) -> (j: int)
    requires
        rows_ordered(ctx.rows),
        ctx.rows.contains(site),
        ctx.rows.contains(d),
        directly_in(d, site.path),
        site_in_lib(ctx.rows, lib, site),
    ensures
        0 <= j < python::lib_units(c, ctx, lib).len(),
        python::lib_units(c, ctx, lib)[j] == python::site_entry(c, ctx, python::site_of(ctx, site), d)[0],
{
    lemma_site_entry(c, ctx, python::site_of(ctx, site), d);
    let of_entry = |x: DirModel| python::site_entry(c, ctx, python::site_of(ctx, site), x);
    let i = lemma_child_unit(ctx.rows, site.path, of_entry, d, 0);
    if same_path(site.path, joined_path(lib, "site-packages"@)) {
        lemma_row_at(ctx.rows, site, joined_path(lib, "site-packages"@));
        i
    } else {
        let py = choose|py: DirModel|
            #[trigger] ctx.rows.contains(py) && directly_in(py, lib) && same_path(
                site.path,
                joined_path(py.path, "site-packages"@),
            );
        lemma_row_at(ctx.rows, site, joined_path(py.path, "site-packages"@));
        let of_python = |x: DirModel| python::site_in(c, ctx, x.path);
        python::site_in(c, ctx, lib).len() as int + lemma_child_unit(ctx.rows, lib, of_python, py, i)
    }
}

proof fn lemma_site_entry(c: ContainerModel, ctx: CtxModel, s: python::SiteModel, d: DirModel)
    ensures
        python::site_entry(c, ctx, s, d).len() == 1,
        shows(python::site_entry(c, ctx, s, d)[0], d),
        name_of(d.path) != "__pycache__"@ ==> python::site_entry(c, ctx, s, d)[0].role
            == ArtifactRole::InstalledDependencies,
{
    lemma_measures();
}

/// Each directory of an environment's `site-packages` has a unit, with its size
/// and its time; all but the bytecode are installed packages.
pub proof fn law_every_installed_distribution_is_told_of(
    c: ContainerModel,
    ctx: CtxModel,
    site: DirModel,
    d: DirModel,
) -> (j: int)
    requires
        !c.shared,
        !same_opt(c.project_root, c.path),
        python::env_here(ctx.facts, c.path),
        rows_ordered(ctx.rows),
        ctx.rows.contains(site),
        ctx.rows.contains(d),
        is_site(ctx.rows, c.path, site),
        directly_in(d, site.path),
    ensures
        ({
            let units = Builtin::Python.identify_spec(c, ctx);
            &&& 0 < j < units.len()
            &&& shows(units[j], d)
            &&& name_of(d.path) != "__pycache__"@ ==> units[j].role == ArtifactRole::InstalledDependencies
        }),
{
    lemma_site_entry(c, ctx, python::site_of(ctx, site), d);
    let root = python::env_root(c, ctx, c.path, true);
    let last = python::lib_units(c, ctx, joined_path(c.path, "lib64"@));
    let a = python::lib_units(c, ctx, joined_path(c.path, "lib"@));
    let b = python::lib_units(c, ctx, joined_path(c.path, "Lib"@));
    assert(Builtin::Python.identify_spec(c, ctx) == seq![root] + (a + b + last));
    if site_in_lib(ctx.rows, joined_path(c.path, "lib"@), site) {
        1 + lemma_site_entry_in_lib(c, ctx, joined_path(c.path, "lib"@), site, d)
    } else if site_in_lib(ctx.rows, joined_path(c.path, "Lib"@), site) {
        1 + a.len() as int + lemma_site_entry_in_lib(c, ctx, joined_path(c.path, "Lib"@), site, d)
    } else {
        1 + a.len() as int + b.len() as int + lemma_site_entry_in_lib(
            c,
            ctx,
            joined_path(c.path, "lib64"@),
            site,
            d,
        )
    }
}

/// A wheel is named by its distribution, version, interpreter, ABI and platform.
pub proof fn law_a_wheel_is_told_by_its_name(
    name: Seq<char>,
    version: Seq<char>,
    python: Seq<char>,
    abi: Seq<char>,
    platform: Seq<char>,
)
    requires
        free_of(name, '-'),
        free_of(version, '-'),
        free_of(python, '-'),
        free_of(abi, '-'),
        free_of(platform, '-'),
        is_versionish(version),
    ensures
        python::distribution(joined(seq![name, version, python, abi, platform], seq!['-']) + ".whl"@) matches Some(d)
            && d.name == name && d.version == version && d.python == Some(python) && d.abi == Some(abi) && d.platform
            == Some(platform) && d.kind == "wheel"@,
{
    let p = seq![name, version, python, abi, platform];
    let stem = joined(p, seq!['-']);
    let file = stem + ".whl"@;
    assert(file.skip(file.len() - ".whl"@.len()) =~= ".whl"@);
    assert(file.take(file.len() - ".whl"@.len()) =~= stem);
    assert forall|i: int| 0 <= i < p.len() implies free_of(#[trigger] p[i], '-') by {}
    law_split_undoes_join(p, '-');
}

/// An interpreter that uv manages is told by its directory's name,
/// `<implementation>-<version>-<os>-<arch>`, and whatever follows.
pub proof fn law_a_managed_interpreter_is_told_by_its_name(
    c: ContainerModel,
    ctx: CtxModel,
    d: DirModel,
    p: Seq<Seq<char>>,
) -> (j: int)
    requires
        c.shared,
        c.store_kind == Some(BuildStoreKind::UvPythonInstallations),
        rows_ordered(ctx.rows),
        ctx.rows.contains(d),
        directly_in(d, c.path),
        p.len() >= 4,
        forall|i: int| 0 <= i < p.len() ==> free_of(#[trigger] p[i], '-'),
        is_versionish(p[1]),
        name_of(d.path) == joined(p, seq!['-']),
    ensures
        ({
            let units = Builtin::Python.identify_spec(c, ctx);
            &&& 0 < j < units.len()
            &&& shows(units[j], d)
            &&& units[j].role == ArtifactRole::Installation
            &&& units[j].variant.toolchain == Some(p[0] + " "@ + p[1])
            &&& units[j].variant.version == Some(p[1])
            &&& units[j].variant.configuration == Some(p[2])
            &&& units[j].variant.architecture == Some(p[3])
        }),
{
    lemma_measures();
    law_split_undoes_join(p, '-');
    let f = |x: DirModel| python::uv_python(c, x);
    1 + lemma_child_unit(ctx.rows, c.path, f, d, 0)
}

// ---------------------------------------------------------------------
// Xcode
// ---------------------------------------------------------------------

/// A directory of products `<configuration>-<platform>` is told by both, and so
/// is each product in it, by its own name.
pub proof fn law_products_are_told_by_configuration_and_platform(
    c: ContainerModel,
    ctx: CtxModel,
    folder: DirModel,
    d: DirModel,
    configuration: Seq<char>,
    platform: Seq<char>,
) -> (j: int)
    requires
        rows_ordered(ctx.rows),
        ctx.rows.contains(folder),
        ctx.rows.contains(d),
        directly_in(d, joined_path(folder.path, "Build/Products"@)),
        free_of(configuration, '-'),
        name_of(d.path) == configuration + seq!['-'] + platform,
    ensures
        ({
            let units = xcode_swift::project_folder(c, ctx, folder.path);
            &&& 0 < j < units.len()
            &&& shows(units[j], d)
            &&& units[j].role == ArtifactRole::Output
            &&& units[j].variant.profile == Some(configuration)
            &&& units[j].variant.configuration == Some(platform)
        }),
{
    lemma_measures();
    lemma_row_found(ctx.rows, folder);
    lemma_cut_first(configuration, '-', platform);
    let ws = xcode_swift::workspace_of(ctx, folder.path);
    let v = xcode_swift::folder_variant(ws);
    let parts = flat(
        xcode_swift::folder_parts_spec(),
        |p: super::adapter::PartModel| xcode_swift::folder_part(c, ctx, folder.path, v, p),
    );
    let f = |x: DirModel| xcode_swift::products_dir(c, ctx, v.package, x);
    let k = lemma_child_unit(ctx.rows, joined_path(folder.path, "Build/Products"@), f, d, 0);
    1 + parts.len() as int + k
}

proof fn lemma_archive_entry(rows: Seq<DirModel>, days: Seq<DirModel>, i: int, d: DirModel) -> (k: int)
    requires
        0 <= i < days.len(),
        child_rows(rows, days[i].path).contains(d),
    ensures
        0 <= k < xcode_swift::archive_entries(rows, days).len(),
        xcode_swift::archive_entries(rows, days)[k] == d,
    decreases days.len(),
{
    let before = xcode_swift::archive_entries(rows, days.drop_last());
    if i == days.len() - 1 {
        let here = child_rows(rows, days[i].path);
        before.len() as int + choose|k: int| 0 <= k < here.len() && here[k] == d
    } else {
        lemma_archive_entry(rows, days.drop_last(), i, d)
    }
}

proof fn lemma_archive_units(c: ContainerModel, ctx: CtxModel, entries: Seq<DirModel>, n: int, k: int)
    requires
        0 <= k < n <= entries.len(),
    ensures
        xcode_swift::archive_units(c, ctx, entries, n).len() == n,
        xcode_swift::archive_units(c, ctx, entries, n)[k] == xcode_swift::archive_unit(
            c,
            ctx,
            entries[k],
            xcode_swift::archives_read(entries, k),
        ),
    decreases n,
{
    if n > 1 {
        lemma_archive_units(c, ctx, entries, n - 1, if k < n - 1 {
            k
        } else {
            0
        });
    } else {
        assert(xcode_swift::archive_units(c, ctx, entries, 0).len() == 0);
    }
}

/// Each archive of each day has a unit, and is never offered.
pub proof fn law_every_archive_is_told_of(c: ContainerModel, ctx: CtxModel, day: DirModel, d: DirModel) -> (j: int)
    requires
        c.store_kind == Some(BuildStoreKind::XcodeArchives),
        rows_ordered(ctx.rows),
        ctx.rows.contains(day),
        ctx.rows.contains(d),
        directly_in(day, c.path),
        directly_in(d, day.path),
    ensures
        ({
            let units = Builtin::XcodeSwift.identify_spec(c, ctx);
            &&& 0 < j < units.len()
            &&& shows(units[j], d)
            &&& finishes(name_of(d.path), ".xcarchive"@) ==> units[j].role == ArtifactRole::Archive
        }),
{
    lemma_measures();
    super::pieces::lemma_ordered_apart(ctx.rows);
    super::pieces::lemma_child_rows(ctx.rows, c.path);
    super::pieces::lemma_child_rows(ctx.rows, day.path);
    let days = child_rows(ctx.rows, c.path);
    assert(days.contains(day));
    let i = choose|i: int| 0 <= i < days.len() && days[i] == day;
    assert(child_rows(ctx.rows, day.path).contains(d));
    let k = lemma_archive_entry(ctx.rows, days, i, d);
    let entries = xcode_swift::archive_entries(ctx.rows, days);
    lemma_archive_units(c, ctx, entries, entries.len() as int, k);
    1 + k
}

} // verus!
