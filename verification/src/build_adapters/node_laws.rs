//! What identifying Node's directories comes to.

use super::adapter::{flat, part_named, BuildAdapter};
use super::arrange::{by_size, first_of};
use super::container::{child_rows, rows_ordered, ContainerModel, DirModel};
use super::context::CtxModel;
use super::node::{
    identity_of, node_modules, packages_at, packages_of, read_package, special_dirs_spec, special_unit, unread_package,
    Adapter, PACKAGE_IDENTITY_BUDGET,
};
use super::pieces::{
    apart, directly_in, lemma_by_size, lemma_child_rows, lemma_flat_from, lemma_flat_ones, lemma_no_longer,
    lemma_ordered_apart,
};
use crate::artifact::{ArtifactRole, UnitModel};
use crate::facts::whole_manifest_of;
use crate::json::{parsed_json, text_under};
use crate::path::{joined_path, lemma_parent_parts, name_of, same_opt, same_path, PathModel};
use crate::text::begins;
use vstd::prelude::*;

verus! {

/// Whether row `k` is a package of the `node_modules` at `path`: a directory
/// directly in it whose name begins with neither `.` nor `@`, or one directly in
/// such a directory whose name begins with `@`.
pub open spec fn is_package(rows: Seq<DirModel>, path: PathModel, k: int) -> bool {
    ||| directly_in(rows[k], path) && !begins(name_of(rows[k].path), "."@) && !begins(name_of(rows[k].path), "@"@)
    ||| exists|s: int|
        0 <= s < rows.len() && directly_in(#[trigger] rows[s], path) && begins(name_of(rows[s].path), "@"@)
            && directly_in(rows[k], rows[s].path)
}

/// Whether a unit is that of a measured package.
pub open spec fn is_unit_of(u: UnitModel, d: DirModel) -> bool {
    &&& u.role == ArtifactRole::InstalledDependencies
    &&& u.path == d.path
    &&& u.bytes == d.allocated_total
    &&& u.mtime_max == d.mtime_max
    &&& u.is_dir
}

/// The name that a package's own manifest declares.
pub open spec fn declared_name(ctx: CtxModel, path: PathModel) -> Option<Seq<char>> {
    match whole_manifest_of(ctx.facts, joined_path(path, "package.json"@)) {
        Some(m) => match parsed_json(m.text) {
            Some(n) => text_under(n.get("name"@)),
            None => None,
        },
        None => None,
    }
}

/// The version that a package's own manifest declares.
pub open spec fn declared_version(ctx: CtxModel, path: PathModel) -> Option<Seq<char>> {
    match whole_manifest_of(ctx.facts, joined_path(path, "package.json"@)) {
        Some(m) => match parsed_json(m.text) {
            Some(n) => text_under(n.get("version"@)),
            None => None,
        },
        None => None,
    }
}

spec fn package_rows(ctx: CtxModel, path: PathModel) -> Seq<DirModel> {
    let dirs = child_rows(ctx.rows, path);
    packages_of(ctx, dirs, dirs.len() as int)
}

proof fn lemma_specials(name: Seq<char>)
    ensures
        part_named(special_dirs_spec(), name) matches Some(p) ==> begins(name, "."@) && !begins(name, "@"@) && p.role
            != ArtifactRole::InstalledDependencies,
{
    reveal_strlit(".");
    reveal_strlit("@");
    reveal_strlit(".pnpm");
    reveal_strlit(".cache");
    reveal_strlit(".bin");
    reveal_strlit(".vite");
    let t = special_dirs_spec();
    reveal_with_fuel(super::adapter::part_from, 5);
    match part_named(t, name) {
        Some(p) => {
            assert(name == p.name);
            assert(name[0] == '.');
            assert(name.take(1) =~= "."@);
            assert(name.take(1)[0] == '.');
            assert("@"@[0] == '@');
            assert(!begins(name, "@"@));
        },
        None => {},
    }
}

/// Which rows the packages of the first `n` directories are.
proof fn lemma_packages(ctx: CtxModel, path: PathModel, dirs: Seq<DirModel>, n: int)
    requires
        apart(ctx.rows),
        dirs == child_rows(ctx.rows, path),
        0 <= n <= dirs.len(),
    ensures
        apart(packages_of(ctx, dirs, n)),
        forall|d: DirModel| #[trigger]
            packages_of(ctx, dirs, n).contains(d) <==> exists|i: int|
                0 <= i < n && packages_at(ctx, #[trigger] dirs[i]).contains(d),
    decreases n,
{
    if n > 0 {
        lemma_packages(ctx, path, dirs, n - 1);
        let before = packages_of(ctx, dirs, n - 1);
        let here = packages_at(ctx, dirs[n - 1]);
        let all = packages_of(ctx, dirs, n);
        lemma_child_rows(ctx.rows, path);
        lemma_child_rows(ctx.rows, dirs[n - 1].path);
        assert(all =~= before + here);
        assert forall|d: DirModel| #[trigger] all.contains(d) <==> exists|i: int|
            0 <= i < n && packages_at(ctx, #[trigger] dirs[i]).contains(d) by {
            if all.contains(d) {
                let k = choose|k: int| 0 <= k < all.len() && all[k] == d;
                if k < before.len() {
                    assert(before[k] == d);
                    assert(before.contains(d));
                    let i = choose|i: int| 0 <= i < n - 1 && packages_at(ctx, #[trigger] dirs[i]).contains(d);
                    assert(packages_at(ctx, dirs[i]).contains(d));
                } else {
                    assert(here[k - before.len()] == d);
                    assert(packages_at(ctx, dirs[n - 1]).contains(d));
                }
            }
            if exists|i: int| 0 <= i < n && packages_at(ctx, #[trigger] dirs[i]).contains(d) {
                let i = choose|i: int| 0 <= i < n && packages_at(ctx, #[trigger] dirs[i]).contains(d);
                if i < n - 1 {
                    assert(packages_at(ctx, dirs[i]).contains(d));
                    assert(before.contains(d));
                    let k = choose|k: int| 0 <= k < before.len() && before[k] == d;
                    assert(all[k] == d);
                } else {
                    let k = choose|k: int| 0 <= k < here.len() && here[k] == d;
                    assert(all[before.len() + k] == d);
                }
            }
        }
        assert forall|x: int, y: int| 0 <= x < y < all.len() implies !same_path(
            (#[trigger] all[x]).path,
            (#[trigger] all[y]).path,
        ) by {
            if y < before.len() {
                assert(all[x] == before[x] && all[y] == before[y]);
            } else if x >= before.len() {
                assert(all[x] == here[x - before.len()] && all[y] == here[y - before.len()]);
            } else {
                assert(before.contains(before[x]));
                let i = choose|i: int|
                    0 <= i < n - 1 && packages_at(ctx, #[trigger] dirs[i]).contains(before[x]);
                assert(here.contains(all[y])) by {
                    assert(here[y - before.len()] == all[y]);
                }
                lemma_packages_differ(ctx, path, dirs, i, n - 1, all[x], all[y]);
            }
        }
    }
}

proof fn lemma_packages_differ(
    ctx: CtxModel,
    path: PathModel,
    dirs: Seq<DirModel>,
    i: int,
    j: int,
    d: DirModel,
    e: DirModel,
)
    requires
        apart(ctx.rows),
        dirs == child_rows(ctx.rows, path),
        0 <= i < j < dirs.len(),
        packages_at(ctx, dirs[i]).contains(d),
        packages_at(ctx, dirs[j]).contains(e),
    ensures
        !same_path(d.path, e.path),
{
    lemma_child_rows(ctx.rows, path);
    lemma_child_rows(ctx.rows, dirs[i].path);
    lemma_child_rows(ctx.rows, dirs[j].path);
    assert(!same_path(dirs[i].path, dirs[j].path));
    assert(child_rows(ctx.rows, path).contains(dirs[i]));
    assert(child_rows(ctx.rows, path).contains(dirs[j]));
    lemma_parent_parts(dirs[i].path);
    lemma_parent_parts(dirs[j].path);
    if begins(name_of(dirs[i].path), "@"@) {
        assert(directly_in(d, dirs[i].path));
        lemma_parent_parts(d.path);
    } else {
        assert(d == dirs[i]);
    }
    if begins(name_of(dirs[j].path), "@"@) {
        assert(directly_in(e, dirs[j].path));
        lemma_parent_parts(e.path);
    } else {
        assert(e == dirs[j]);
    }
}

/// The packages are the rows that are packages.
proof fn lemma_package_rows(ctx: CtxModel, path: PathModel)
    requires
        apart(ctx.rows),
    ensures
        apart(package_rows(ctx, path)),
        package_rows(ctx, path).len() <= ctx.rows.len(),
        forall|k: int|
            0 <= k < ctx.rows.len() && is_package(ctx.rows, path, k) ==> package_rows(ctx, path).contains(
                #[trigger] ctx.rows[k],
            ),
        forall|d: DirModel| #[trigger]
            package_rows(ctx, path).contains(d) ==> exists|k: int|
                0 <= k < ctx.rows.len() && #[trigger] ctx.rows[k] == d && is_package(ctx.rows, path, k),
{
    let rows = ctx.rows;
    let dirs = child_rows(rows, path);
    let all = package_rows(ctx, path);
    let n = dirs.len() as int;
    lemma_packages(ctx, path, dirs, n);
    lemma_child_rows(rows, path);
    assert forall|k: int| 0 <= k < rows.len() && is_package(rows, path, k) implies all.contains(#[trigger] rows[k]) by {
        let d = rows[k];
        lemma_specials(name_of(d.path));
        assert(rows.contains(d));
        if directly_in(d, path) && !begins(name_of(d.path), "."@) && !begins(name_of(d.path), "@"@) {
            assert(dirs.contains(d));
            let i = choose|i: int| 0 <= i < dirs.len() && dirs[i] == d;
            assert(packages_at(ctx, dirs[i])[0] == d);
            assert(packages_at(ctx, dirs[i]).contains(d));
        } else {
            let s = choose|s: int|
                0 <= s < rows.len() && directly_in(#[trigger] rows[s], path) && begins(name_of(rows[s].path), "@"@)
                    && directly_in(rows[k], rows[s].path);
            lemma_specials(name_of(rows[s].path));
            assert(rows.contains(rows[s]));
            assert(dirs.contains(rows[s]));
            let i = choose|i: int| 0 <= i < dirs.len() && dirs[i] == rows[s];
            lemma_child_rows(rows, dirs[i].path);
            assert(packages_at(ctx, dirs[i]).contains(d));
        }
    }
    assert forall|d: DirModel| #[trigger] all.contains(d) implies exists|k: int|
        0 <= k < rows.len() && #[trigger] rows[k] == d && is_package(rows, path, k) by {
        let i = choose|i: int| 0 <= i < n && packages_at(ctx, #[trigger] dirs[i]).contains(d);
        assert(dirs.contains(dirs[i]));
        assert(rows.contains(dirs[i]) && directly_in(dirs[i], path));
        lemma_child_rows(rows, dirs[i].path);
        if begins(name_of(dirs[i].path), "@"@) {
            assert(rows.contains(d) && directly_in(d, dirs[i].path));
            let s = choose|s: int| 0 <= s < rows.len() && rows[s] == dirs[i];
            let k = choose|k: int| 0 <= k < rows.len() && rows[k] == d;
            assert(directly_in(rows[s], path) && directly_in(rows[k], rows[s].path));
            assert(is_package(rows, path, k));
        } else {
            assert(d == dirs[i]);
            let k = choose|k: int| 0 <= k < rows.len() && rows[k] == d;
            assert(is_package(rows, path, k));
        }
    }
    assert forall|d: DirModel| #[trigger] all.contains(d) implies rows.contains(d) by {
        let k = choose|k: int| 0 <= k < rows.len() && #[trigger] rows[k] == d && is_package(rows, path, k);
        assert(rows[k] == d);
    }
    lemma_no_longer(all, rows);
}

proof fn lemma_package_units(c: ContainerModel, ctx: CtxModel, d: DirModel)
    ensures
        read_package(c, d, identity_of(ctx, d.path)).len() == 1,
        is_unit_of(read_package(c, d, identity_of(ctx, d.path))[0], d),
        read_package(c, d, identity_of(ctx, d.path))[0].variant.package == declared_name(ctx, d.path),
        declared_name(ctx, d.path) is Some ==> read_package(c, d, identity_of(ctx, d.path))[0].variant.version
            == declared_version(ctx, d.path),
        unread_package(c, d).len() == 1,
        is_unit_of(unread_package(c, d)[0], d),
        unread_package(c, d)[0].variant.package is None,
{
    reveal(UnitModel::blank);
    reveal(UnitModel::folded);
    reveal(UnitModel::supported);
    reveal(UnitModel::consequence);
    reveal(UnitModel::evidence);
    reveal(UnitModel::variant);
    reveal(UnitModel::limit);
}

proof fn lemma_special_units(c: ContainerModel, d: DirModel)
    ensures
        forall|k: int|
            0 <= k < special_unit(c, d).len() ==> (#[trigger] special_unit(c, d)[k]).role
                != ArtifactRole::InstalledDependencies,
{
    reveal(UnitModel::blank);
    reveal(UnitModel::folded);
    reveal(UnitModel::supported);
    reveal(UnitModel::consequence);
    reveal(UnitModel::evidence);
    reveal(UnitModel::membership);
    reveal(UnitModel::limit);
    reveal(UnitModel::no_action_because);
    reveal(UnitModel::unsupported_layout);
    lemma_specials(name_of(d.path));
}

/// Whether a unit past the container's own is an installed package's.
pub open spec fn is_installed(units: Seq<UnitModel>, j: int) -> bool {
    1 <= j < units.len() && units[j].role == ArtifactRole::InstalledDependencies
}

/// Whether some unit is that of row `k`.
pub open spec fn has_unit(units: Seq<UnitModel>, d: DirModel) -> bool {
    exists|j: int| is_installed(units, j) && is_unit_of(#[trigger] units[j], d)
}

/// Whether a unit is that of some measured package of the tree.
pub open spec fn comes_from_a_package(u: UnitModel, rows: Seq<DirModel>, path: PathModel) -> bool {
    exists|k: int| 0 <= k < rows.len() && is_package(rows, path, k) && is_unit_of(u, #[trigger] rows[k])
}

/// Every package of a `node_modules`, scoped ones among them, has one unit, and
/// nothing else is reported as an installed package. A package is named only by
/// its own manifest, and where there are no more than are read, every one is.
pub proof fn law_every_installed_package_has_one_unit(c: ContainerModel, ctx: CtxModel)
    requires
        !c.shared,
        !same_opt(c.project_root, c.path),
        name_of(c.path) == "node_modules"@,
        rows_ordered(ctx.rows),
        ctx.rows.len() <= usize::MAX,
    ensures
        ({
            let units = Adapter.identify_spec(c, ctx);
            &&& forall|k: int|
                0 <= k < ctx.rows.len() && is_package(ctx.rows, c.path, k) ==> has_unit(units, #[trigger] ctx.rows[k])
            &&& forall|j: int|
                is_installed(units, j) ==> comes_from_a_package(#[trigger] units[j], ctx.rows, c.path)
            &&& forall|i: int, j: int|
                is_installed(units, i) && is_installed(units, j) && i < j ==> !same_path(
                    (#[trigger] units[i]).path,
                    (#[trigger] units[j]).path,
                )
            &&& forall|j: int|
                is_installed(units, j) ==> ((#[trigger] units[j]).variant.package is None || units[j].variant.package
                    == declared_name(ctx, units[j].path))
            &&& ctx.rows.len() <= 200 ==> forall|j: int|
                is_installed(units, j) ==> {
                    &&& (#[trigger] units[j]).variant.package == declared_name(ctx, units[j].path)
                    &&& declared_name(ctx, units[j].path) is Some ==> units[j].variant.version == declared_version(
                        ctx,
                        units[j].path,
                    )
                }
        }),
{
    let rows = ctx.rows;
    let path = c.path;
    lemma_ordered_apart(rows);
    lemma_package_rows(ctx, path);
    let found = package_rows(ctx, path);
    lemma_by_size(found);
    let packages = by_size(found);
    let cut = first_of(packages.len(), PACKAGE_IDENTITY_BUDGET as nat);
    let dirs = child_rows(rows, path);
    let special = |d: DirModel| special_unit(c, d);
    let read = |d: DirModel| read_package(c, d, identity_of(ctx, d.path));
    let unread = |d: DirModel| unread_package(c, d);
    let first = packages.take(cut);
    let rest = packages.skip(cut);
    assert forall|i: int| 0 <= i < first.len() implies read(#[trigger] first[i]).len() == 1 by {
        lemma_package_units(c, ctx, first[i]);
    }
    assert forall|i: int| 0 <= i < rest.len() implies unread(#[trigger] rest[i]).len() == 1 by {
        lemma_package_units(c, ctx, rest[i]);
    }
    lemma_flat_ones(first, read);
    lemma_flat_ones(rest, unread);
    let units = Adapter.identify_spec(c, ctx);
    let s = flat(dirs, special);
    let a = flat(first, read);
    let b = flat(rest, unread);
    let m = 1 + s.len() as int;
    assert(units == node_modules(c, ctx));
    assert(units =~= seq![units[0]] + s + a + b);
    assert forall|j: int| 1 <= j < m implies (#[trigger] units[j]).role != ArtifactRole::InstalledDependencies by {
        assert(units[j] == s[j - 1]);
        let (i, k) = lemma_flat_from(dirs, special, j - 1);
        lemma_special_units(c, dirs[i]);
    }
    // The unit of package `i` stands at place `m + i`.
    assert forall|i: int| 0 <= i < packages.len() implies is_unit_of(units[m + i], #[trigger] packages[i]) && (
    units[m + i].variant.package is None || units[m + i].variant.package == declared_name(ctx, packages[i].path)) && (
    i < cut ==> units[m + i].variant.package == declared_name(ctx, packages[i].path) && (declared_name(
        ctx,
        packages[i].path,
    ) is Some ==> units[m + i].variant.version == declared_version(ctx, packages[i].path))) by {
        lemma_package_units(c, ctx, packages[i]);
        if i < cut {
            assert(units[m + i] == a[i]);
            assert(first[i] == packages[i]);
        } else {
            assert(units[m + i] == b[i - cut]);
            assert(rest[i - cut] == packages[i]);
        }
    }
    assert forall|k: int| 0 <= k < rows.len() && is_package(rows, path, k) implies has_unit(units, #[trigger] rows[k]) by {
        assert(found.contains(rows[k]));
        assert(packages.contains(rows[k]));
        let i = choose|i: int| 0 <= i < packages.len() && packages[i] == rows[k];
        assert(is_unit_of(units[m + i], packages[i]));
        assert(is_installed(units, m + i));
    }
    assert forall|j: int| is_installed(units, j) implies comes_from_a_package(#[trigger] units[j], rows, path) by {
        assert(j >= m);
        let d = packages[j - m];
        assert(packages.contains(d));
        assert(found.contains(d));
        assert(is_unit_of(units[m + (j - m)], d));
        let k = choose|k: int| 0 <= k < rows.len() && #[trigger] rows[k] == d && is_package(rows, path, k);
        assert(is_unit_of(units[j], rows[k]));
    }
    assert forall|i: int, j: int| is_installed(units, i) && is_installed(units, j) && i < j implies !same_path(
        (#[trigger] units[i]).path,
        (#[trigger] units[j]).path,
    ) by {
        assert(i >= m);
        assert(is_unit_of(units[m + (i - m)], packages[i - m]));
        assert(is_unit_of(units[m + (j - m)], packages[j - m]));
    }
    assert forall|j: int| is_installed(units, j) implies ((#[trigger] units[j]).variant.package is None
        || units[j].variant.package == declared_name(ctx, units[j].path)) && (rows.len() <= 200
        ==> units[j].variant.package == declared_name(ctx, units[j].path) && (declared_name(ctx, units[j].path) is Some
        ==> units[j].variant.version == declared_version(ctx, units[j].path))) by {
        assert(j >= m);
        assert(is_unit_of(units[m + (j - m)], packages[j - m]));
    }
}

} // verus!
