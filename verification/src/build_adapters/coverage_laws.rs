//! Nothing that was measured in a container is passed over: each directory that
//! lies directly in it has a unit, with the size and the time that were
//! measured.

use super::adapter::{flat, BuildAdapter};
use super::android;
use super::container::{child_rows, lemma_row_of, row_of, rows_ordered, ContainerModel, DirModel};
use super::context::CtxModel;
use super::go;
use super::gradle;
use super::node;
use super::pieces::{directly_in, lemma_child_rows, lemma_flat_holds, lemma_ordered_apart};
use super::python;
use super::registry::Builtin;
use super::xcode_swift;
use crate::artifact::{ArtifactRole, Confidence, Membership, UnitModel, VariantModel};
use crate::facts::whole_manifest_of;
use crate::locations::BuildStoreKind;
use crate::path::{joined_path, name_of, same_opt, PathModel};
use vstd::prelude::*;

verus! {

/// Whether a unit is that of a measured directory.
pub open spec fn shows(u: UnitModel, d: DirModel) -> bool {
    &&& u.path == d.path
    &&& u.bytes == d.allocated_total
    &&& u.mtime_max == d.mtime_max
    &&& u.is_dir
}

/// Whether a step changes neither what a unit is nor what was measured of it.
pub open spec fn same_measure(a: UnitModel, b: UnitModel) -> bool {
    &&& a.path == b.path
    &&& a.bytes == b.bytes
    &&& a.mtime_max == b.mtime_max
    &&& a.is_dir == b.is_dir
    &&& a.role == b.role
}

/// What the steps of building a unit leave as it is.
pub(crate) proof fn lemma_measures()
    ensures
        forall|c: ContainerModel, r: ArtifactRole, p: PathModel|
            (#[trigger] UnitModel::blank(c, r, p)).path == p && UnitModel::blank(c, r, p).role == r,
        forall|u: UnitModel, d: DirModel| {
            &&& (#[trigger] u.folded(d)).path == u.path
            &&& u.folded(d).role == u.role
            &&& u.folded(d).variant == u.variant
            &&& u.folded(d).bytes == d.allocated_total
            &&& u.folded(d).mtime_max == d.mtime_max
            &&& u.folded(d).is_dir
        },
        forall|c: ContainerModel, r: ArtifactRole, d: DirModel, s: Seq<char>, t: Seq<char>|
            shows(#[trigger] UnitModel::known_dir(c, r, d, s, t), d) && UnitModel::known_dir(c, r, d, s, t).role == r,
        forall|c: ContainerModel, d: DirModel, s: Seq<char>|
            shows(#[trigger] UnitModel::unknown_dir(c, d, s), d) && UnitModel::unknown_dir(c, d, s).role
                == ArtifactRole::Residual,
        forall|u: UnitModel, s: Seq<char>|
            same_measure(#[trigger] u.supported(s), u) && u.supported(s).variant == u.variant,
        forall|u: UnitModel, s: Seq<char>|
            same_measure(#[trigger] u.unsupported_layout(s), u) && u.unsupported_layout(s).variant == u.variant,
        forall|u: UnitModel, s: Seq<char>| same_measure(#[trigger] u.limit(s), u) && u.limit(s).variant == u.variant,
        forall|u: UnitModel, m: Membership|
            same_measure(#[trigger] u.membership(m), u) && u.membership(m).variant == u.variant,
        forall|u: UnitModel, v: VariantModel| same_measure(#[trigger] u.variant(v), u) && u.variant(v).variant == v,
        forall|u: UnitModel, s: Seq<char>, t: Seq<char>, k: Confidence|
            same_measure(#[trigger] u.evidence(s, t, k), u) && u.evidence(s, t, k).variant == u.variant,
        forall|u: UnitModel, s: Seq<char>|
            same_measure(#[trigger] u.consequence(s), u) && u.consequence(s).variant == u.variant,
        forall|u: UnitModel, s: Seq<char>|
            same_measure(#[trigger] u.no_action_because(s), u) && u.no_action_because(s).variant == u.variant,
        forall|u: UnitModel, l: PathModel, s: Seq<char>|
            same_measure(#[trigger] u.writer_lock(l, s), u) && u.writer_lock(l, s).variant == u.variant,
{
    reveal(UnitModel::blank);
    reveal(UnitModel::known_dir);
    reveal(UnitModel::unknown_dir);
    reveal(UnitModel::folded);
    reveal(UnitModel::supported);
    reveal(UnitModel::unsupported_layout);
    reveal(UnitModel::limit);
    reveal(UnitModel::membership);
    reveal(UnitModel::variant);
    reveal(UnitModel::evidence);
    reveal(UnitModel::consequence);
    reveal(UnitModel::no_action_because);
    reveal(UnitModel::writer_lock);
}

/// Where unit `j` of a directory directly in another stands.
pub(crate) proof fn lemma_child_unit(
    rows: Seq<DirModel>,
    path: PathModel,
    f: spec_fn(DirModel) -> Seq<UnitModel>,
    d: DirModel,
    j: int,
) -> (k: int)
    requires
        rows_ordered(rows),
        rows.contains(d),
        directly_in(d, path),
        0 <= j < f(d).len(),
    ensures
        0 <= k < flat(child_rows(rows, path), f).len(),
        flat(child_rows(rows, path), f)[k] == f(d)[j],
{
    lemma_ordered_apart(rows);
    lemma_child_rows(rows, path);
    let dirs = child_rows(rows, path);
    assert(dirs.contains(d));
    let i = choose|i: int| 0 <= i < dirs.len() && dirs[i] == d;
    lemma_flat_holds(dirs, f, i, j)
}

/// A measured directory is found by its path.
pub(crate) proof fn lemma_row_found(rows: Seq<DirModel>, d: DirModel)
    requires
        rows_ordered(rows),
        rows.contains(d),
    ensures
        row_of(rows, d.path) == Some(d),
{
    let k = choose|k: int| 0 <= k < rows.len() && rows[k] == d;
    lemma_row_of(rows, k);
}

/// Whether each directory directly in a container has a unit of its own.
pub open spec fn tells_of_each(a: Builtin, c: ContainerModel, ctx: CtxModel) -> bool {
    let name = name_of(c.path);
    match a {
        Builtin::Node => c.shared,
        Builtin::Go => if c.shared {
            c.store_kind == Some(BuildStoreKind::GoBuildCache)
        } else {
            name == "dist"@
        },
        Builtin::Gradle => !(c.shared && c.store_kind == Some(BuildStoreKind::GradleNative)),
        Builtin::Python => if c.shared {
            true
        } else {
            &&& !same_opt(c.project_root, c.path)
            &&& !python::env_here(ctx.facts, c.path)
            &&& name == "build"@ || name == ".mypy_cache"@ || name == ".ruff_cache"@ || name == ".tox"@ || name
                == ".nox"@ || name == ".eggs"@
        },
        Builtin::Android => match c.store_kind {
            Some(BuildStoreKind::AndroidSdkPackages) => name != "emulator"@ && name != "platform-tools"@ && name
                != "system-images"@,
            Some(BuildStoreKind::AndroidVirtualDevices) => true,
            _ => false,
        },
        Builtin::XcodeSwift => match c.store_kind {
            Some(BuildStoreKind::XcodeArchives) => false,
            Some(BuildStoreKind::XcodeDeviceSupport) => true,
            Some(BuildStoreKind::SimulatorDevices) => true,
            Some(BuildStoreKind::SimulatorRuntimes) => true,
            Some(BuildStoreKind::SimulatorCaches) => true,
            Some(BuildStoreKind::XcodeDerivedData) => row_of(ctx.rows, joined_path(c.path, "Build"@)) is None,
            _ => name != ".build"@ && row_of(ctx.rows, joined_path(c.path, "Build"@)) is None,
        },
        _ => false,
    }
}

/// Each directory that was measured directly in such a container has a unit at
/// its path, with its size and its time.
pub proof fn law_every_directory_is_told_of(a: Builtin, c: ContainerModel, ctx: CtxModel, d: DirModel) -> (j: int)
    requires
        tells_of_each(a, c, ctx),
        rows_ordered(ctx.rows),
        ctx.rows.contains(d),
        directly_in(d, c.path),
    ensures
        0 < j < a.identify_spec(c, ctx).len(),
        shows(a.identify_spec(c, ctx)[j], d),
{
    match a {
        Builtin::Node => lemma_node(c, ctx, d),
        Builtin::Go => lemma_go(c, ctx, d),
        Builtin::Gradle => lemma_gradle(c, ctx, d),
        Builtin::Python => lemma_python(c, ctx, d),
        Builtin::Android => lemma_android(c, ctx, d),
        Builtin::XcodeSwift => lemma_xcode(c, ctx, d),
        _ => 1,
    }
}

proof fn lemma_node(c: ContainerModel, ctx: CtxModel, d: DirModel) -> (j: int)
    requires
        tells_of_each(Builtin::Node, c, ctx),
        rows_ordered(ctx.rows),
        ctx.rows.contains(d),
        directly_in(d, c.path),
    ensures
        0 < j < Builtin::Node.identify_spec(c, ctx).len(),
        shows(Builtin::Node.identify_spec(c, ctx)[j], d),
{
    lemma_measures();
    let f = |d: DirModel| node::store_child(c, d);
    assert(shows(f(d)[0], d));
    1 + lemma_child_unit(ctx.rows, c.path, f, d, 0)
}

proof fn lemma_go(c: ContainerModel, ctx: CtxModel, d: DirModel) -> (j: int)
    requires
        tells_of_each(Builtin::Go, c, ctx),
        rows_ordered(ctx.rows),
        ctx.rows.contains(d),
        directly_in(d, c.path),
    ensures
        0 < j < Builtin::Go.identify_spec(c, ctx).len(),
        shows(Builtin::Go.identify_spec(c, ctx)[j], d),
{
    lemma_measures();
    reveal_strlit("dist");
    reveal_strlit("vendor");
    if c.shared {
        let f = |d: DirModel| go::bucket_unit(c, d);
        assert(shows(f(d)[0], d));
        1 + lemma_child_unit(ctx.rows, c.path, f, d, 0)
    } else {
        assert("dist"@.len() != "vendor"@.len());
        let f = |d: DirModel| go::dist_child(c, d);
        assert(shows(f(d)[0], d));
        1 + lemma_child_unit(ctx.rows, c.path, f, d, 0)
    }
}

proof fn lemma_gradle(c: ContainerModel, ctx: CtxModel, d: DirModel) -> (j: int)
    requires
        tells_of_each(Builtin::Gradle, c, ctx),
        rows_ordered(ctx.rows),
        ctx.rows.contains(d),
        directly_in(d, c.path),
    ensures
        0 < j < Builtin::Gradle.identify_spec(c, ctx).len(),
        shows(Builtin::Gradle.identify_spec(c, ctx)[j], d),
{
    lemma_measures();
    if c.shared {
        match c.store_kind {
            Some(BuildStoreKind::GradleCaches) => {
                let f = |d: DirModel| gradle::cache_child(c, ctx, d);
                assert(shows(f(d)[0], d));
                1 + lemma_child_unit(ctx.rows, c.path, f, d, 0)
            },
            Some(BuildStoreKind::GradleWrapperDists) => {
                let f = |d: DirModel| gradle::dist_unit(c, d);
                assert(shows(f(d)[0], d));
                1 + lemma_child_unit(ctx.rows, c.path, f, d, 0)
            },
            Some(BuildStoreKind::GradleDaemon) => {
                let f = |d: DirModel| gradle::daemon_unit(c, d);
                assert(shows(f(d)[0], d));
                1 + lemma_child_unit(ctx.rows, c.path, f, d, 0)
            },
            _ => {
                let f = |d: DirModel| gradle::home_child(c, ctx, d);
                assert(shows(f(d)[0], d));
                1 + lemma_child_unit(ctx.rows, c.path, f, d, 0)
            },
        }
    } else if name_of(c.path) == ".gradle"@ {
        let f = |d: DirModel| gradle::project_cache_child(c, d);
        assert(shows(f(d)[0], d));
        1 + lemma_child_unit(ctx.rows, c.path, f, d, 0)
    } else {
        let f = |d: DirModel| gradle::build_child(c, d);
        assert(shows(f(d)[0], d));
        1 + lemma_child_unit(ctx.rows, c.path, f, d, 0)
    }
}

proof fn lemma_env_shown(c: ContainerModel, ctx: CtxModel, d: DirModel)
    requires
        rows_ordered(ctx.rows),
        ctx.rows.contains(d),
    ensures
        shows(python::env_root(c, ctx, d.path, false), d),
{
    lemma_measures();
    lemma_row_found(ctx.rows, d);
    let b = python::env_base(c, ctx, d.path, false);
    assert(shows(b, d));
    let s = b.variant(python::env_variant(ctx, d.path)).supported(
        "a virtual environment, identified by its own `pyvenv.cfg`"@,
    ).consequence(python::ENV_CONSEQUENCE@);
    assert(shows(s, d));
    let v = python::with_version_facts(s, ctx, d.path);
    assert(shows(v, d));
    let h = python::with_home_facts(v, ctx, d.path);
    assert(shows(h, d));
}

proof fn lemma_python(c: ContainerModel, ctx: CtxModel, d: DirModel) -> (j: int)
    requires
        tells_of_each(Builtin::Python, c, ctx),
        rows_ordered(ctx.rows),
        ctx.rows.contains(d),
        directly_in(d, c.path),
    ensures
        0 < j < Builtin::Python.identify_spec(c, ctx).len(),
        shows(Builtin::Python.identify_spec(c, ctx)[j], d),
{
    lemma_measures();
    lemma_env_shown(c, ctx, d);
    let name = name_of(c.path);
    if c.shared {
        match c.store_kind {
            Some(BuildStoreKind::PipCache) => {
                let f = |d: DirModel| python::pip_child(c, d);
                assert(shows(f(d)[0], d));
                1 + lemma_child_unit(ctx.rows, c.path, f, d, 0)
            },
            Some(BuildStoreKind::UvPythonInstallations) => {
                let f = |d: DirModel| python::uv_python(c, d);
                assert(shows(f(d)[0], d));
                1 + lemma_child_unit(ctx.rows, c.path, f, d, 0)
            },
            Some(BuildStoreKind::UvToolEnvironments) => {
                let f = |d: DirModel| python::uv_tool(c, ctx, d);
                assert(shows(f(d)[0], d));
                1 + lemma_child_unit(ctx.rows, c.path, f, d, 0)
            },
            _ => {
                let f = |d: DirModel| python::uv_child(c, ctx, d);
                assert(shows(f(d)[0], d));
                1 + lemma_child_unit(ctx.rows, c.path, f, d, 0)
            },
        }
    } else {
        reveal_strlit("dist");
        reveal_strlit("build");
        reveal_strlit(".mypy_cache");
        reveal_strlit(".ruff_cache");
        reveal_strlit(".tox");
        reveal_strlit(".nox");
        reveal_strlit(".eggs");
        assert("dist"@[0] == 'd' && "build"@[0] == 'b');
        assert(".mypy_cache"@[1] == 'm' && ".ruff_cache"@[1] == 'r');
        assert(".tox"@[1] == 't' && ".nox"@[1] == 'n' && ".eggs"@[1] == 'e');
        assert(".tox"@[0] == '.' && ".nox"@[0] == '.' && ".eggs"@[0] == '.' && ".mypy_cache"@[0] == '.'
            && ".ruff_cache"@[0] == '.');
        if name == "build"@ {
            let f = |d: DirModel| python::build_child(c, d);
            assert(shows(f(d)[0], d));
            1 + lemma_child_unit(ctx.rows, c.path, f, d, 0)
        } else if name == ".mypy_cache"@ || name == ".ruff_cache"@ {
            let f = |d: DirModel| python::version_child(c, name, d);
            assert(shows(f(d)[0], d));
            1 + lemma_child_unit(ctx.rows, c.path, f, d, 0)
        } else if name == ".eggs"@ {
            let f = |d: DirModel| python::egg_child(c, d);
            assert(shows(f(d)[0], d));
            1 + lemma_child_unit(ctx.rows, c.path, f, d, 0)
        } else {
            let f = |d: DirModel| python::env_child(c, ctx, name, d);
            assert(shows(f(d)[0], d));
            1 + lemma_child_unit(ctx.rows, c.path, f, d, 0)
        }
    }
}

proof fn lemma_android(c: ContainerModel, ctx: CtxModel, d: DirModel) -> (j: int)
    requires
        tells_of_each(Builtin::Android, c, ctx),
        rows_ordered(ctx.rows),
        ctx.rows.contains(d),
        directly_in(d, c.path),
    ensures
        0 < j < Builtin::Android.identify_spec(c, ctx).len(),
        shows(Builtin::Android.identify_spec(c, ctx)[j], d),
{
    lemma_measures();
    match c.store_kind {
        Some(BuildStoreKind::AndroidSdkPackages) => {
            let f = |d: DirModel| android::sdk_child(c, ctx, d);
            assert(shows(f(d)[0], d));
            1 + lemma_child_unit(ctx.rows, c.path, f, d, 0)
        },
        _ => {
            let f = |d: DirModel| android::avd_unit(c, ctx, d);
            assert(shows(f(d)[0], d));
            1 + lemma_child_unit(ctx.rows, c.path, f, d, 0)
        },
    }
}

proof fn lemma_xcode(c: ContainerModel, ctx: CtxModel, d: DirModel) -> (j: int)
    requires
        tells_of_each(Builtin::XcodeSwift, c, ctx),
        rows_ordered(ctx.rows),
        ctx.rows.contains(d),
        directly_in(d, c.path),
    ensures
        0 < j < Builtin::XcodeSwift.identify_spec(c, ctx).len(),
        shows(Builtin::XcodeSwift.identify_spec(c, ctx)[j], d),
{
    lemma_measures();
    lemma_row_found(ctx.rows, d);
    match c.store_kind {
        Some(BuildStoreKind::XcodeDeviceSupport) => {
            let f = |d: DirModel| xcode_swift::device_support_dir(c, d);
            assert(shows(f(d)[0], d));
            1 + lemma_child_unit(ctx.rows, c.path, f, d, 0)
        },
        Some(BuildStoreKind::SimulatorDevices) => {
            let f = |d: DirModel|
                xcode_swift::device_unit(
                    c,
                    d,
                    whole_manifest_of(ctx.facts, joined_path(d.path, "device.plist"@)),
                );
            assert(shows(f(d)[0], d));
            1 + lemma_child_unit(ctx.rows, c.path, f, d, 0)
        },
        Some(BuildStoreKind::SimulatorRuntimes) => {
            let f = |d: DirModel| xcode_swift::runtime_unit(c, d);
            assert(shows(f(d)[0], d));
            1 + lemma_child_unit(ctx.rows, c.path, f, d, 0)
        },
        Some(BuildStoreKind::SimulatorCaches) => {
            let f = |d: DirModel| xcode_swift::simulator_cache(c, d);
            assert(shows(f(d)[0], d));
            1 + lemma_child_unit(ctx.rows, c.path, f, d, 0)
        },
        _ => {
            let f = |d: DirModel| xcode_swift::derived_child(c, ctx, d);
            let ws = xcode_swift::workspace_of(ctx, d.path);
            assert(shows(xcode_swift::folder_unit(c, ctx, d, ws), d));
            assert(shows(f(d)[0], d));
            1 + lemma_child_unit(ctx.rows, c.path, f, d, 0)
        },
    }
}

} // verus!
