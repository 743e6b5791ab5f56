//! Gradle project build directories and shared caches.
//!
//! Build scripts and plugins are never evaluated: what the conventional layout
//! does not account for is a named residual.

use super::adapter::{
    append_paths, claim_all, claimed, each_dir, filter_paths, find_part, flat, no_paths, no_units, one, part_named,
    views, BuildAdapter, BuildCapabilities, KnownPart, PartModel,
};
use super::builder::NestedUnitBuilder;
use super::container::{child_rows, row_of, BuildContainer, ContainerModel, DirModel, FoldedDir};
use super::context::{BuildCtx, CtxModel};
use super::jvm_common::{coordinates_from_relative, coordinates_of, gradle_build_entries, gradle_build_entries_spec};
use super::layout::{is_versionish, versionish};
use crate::artifact::{
    append_units, no_variant, relative, relative_path, units_view, ArtifactRole, ArtifactVariant, Confidence,
    Membership, NestedArtifact, UnitModel, VariantModel,
};
use crate::facts::{is_file_at, FactModel, FileFacts};
use crate::locations::BuildStoreKind;
use crate::number::{all_digits, char_is_digit, is_digit};
use crate::path::{joined_path, name_of, paths, push_path, FsPath, PathModel};
use crate::text::{
    after_prefix, begins, cat2, cat3, cat4, cat5, copy_opt, cut_last, drop_prefix, first_piece, opt_text, piece_before,
    same, split_last, starts,
};
use vstd::prelude::*;

verus! {

pub struct Adapter;

/// The directories of a Gradle user home.
pub open spec fn home_entries_spec() -> Seq<PartModel> {
    seq![
        PartModel {
            name: "caches"@,
            role: ArtifactRole::SharedStoreEntry,
            what: "downloaded modules, generated jars and transformed artifacts"@,
            consequence: "the next build re-downloads or regenerates these -- needs network access for the downloaded ones"@,
        },
        PartModel {
            name: "wrapper"@,
            role: ArtifactRole::SharedStoreEntry,
            what: "Gradle distributions the wrapper downloaded"@,
            consequence: "the wrapper downloads the distribution again on the next build -- needs network access"@,
        },
        PartModel {
            name: "daemon"@,
            role: ArtifactRole::Metadata,
            what: "daemon registry and logs"@,
            consequence: "the next build starts a new daemon and writes a new log"@,
        },
        PartModel {
            name: "native"@,
            role: ArtifactRole::Intermediate,
            what: "platform-native helper binaries Gradle unpacked"@,
            consequence: "Gradle unpacks them again on the next build"@,
        },
        PartModel {
            name: "jdks"@,
            role: ArtifactRole::SharedStoreEntry,
            what: "JDKs Gradle's toolchain provisioning downloaded"@,
            consequence: "toolchain provisioning downloads the JDK again -- needs network access"@,
        },
    ]
}

fn home_entries() -> (r: Vec<KnownPart>)
    ensures
        views(r@) == home_entries_spec(),
{
    let r: Vec<KnownPart> = vec![
        KnownPart {
            name: "caches",
            role: ArtifactRole::SharedStoreEntry,
            what: "downloaded modules, generated jars and transformed artifacts",
            consequence: "the next build re-downloads or regenerates these -- needs network access for the downloaded ones",
        },
        KnownPart {
            name: "wrapper",
            role: ArtifactRole::SharedStoreEntry,
            what: "Gradle distributions the wrapper downloaded",
            consequence: "the wrapper downloads the distribution again on the next build -- needs network access",
        },
        KnownPart {
            name: "daemon",
            role: ArtifactRole::Metadata,
            what: "daemon registry and logs",
            consequence: "the next build starts a new daemon and writes a new log",
        },
        KnownPart {
            name: "native",
            role: ArtifactRole::Intermediate,
            what: "platform-native helper binaries Gradle unpacked",
            consequence: "Gradle unpacks them again on the next build",
        },
        KnownPart {
            name: "jdks",
            role: ArtifactRole::SharedStoreEntry,
            what: "JDKs Gradle's toolchain provisioning downloaded",
            consequence: "toolchain provisioning downloads the JDK again -- needs network access",
        },
    ];
    assert(views(r@) =~= home_entries_spec());
    r
}

/// What a cache category holds, by its name without the layout version.
pub open spec fn cache_category(prefix: Seq<char>) -> Option<Seq<char>> {
    if prefix == "modules"@ {
        Some("the dependency cache: one directory per module coordinate"@)
    } else if prefix == "transforms"@ {
        Some("artifact transform outputs, keyed by a hash whose inputs Gradle does not record on disk"@)
    } else if prefix == "jars"@ {
        Some("instrumented and relocated jars Gradle generated"@)
    } else if prefix == "build-cache"@ {
        Some("task outputs, keyed by a cache key whose inputs Gradle does not record on disk"@)
    } else {
        None
    }
}

fn category_of(prefix: &str) -> (r: Option<&'static str>)
    ensures
        crate::json::opt_str(r) == cache_category(prefix@),
{
    if same(prefix, "modules") {
        Some("the dependency cache: one directory per module coordinate")
    } else if same(prefix, "transforms") {
        Some("artifact transform outputs, keyed by a hash whose inputs Gradle does not record on disk")
    } else if same(prefix, "jars") {
        Some("instrumented and relocated jars Gradle generated")
    } else if same(prefix, "build-cache") {
        Some("task outputs, keyed by a cache key whose inputs Gradle does not record on disk")
    } else {
        None
    }
}

/// Whether a project has a Gradle marker.
pub open spec fn has_marker(root: PathModel, facts: Seq<FactModel>) -> bool {
    is_file_at(facts, joined_path(root, "build.gradle"@)) || is_file_at(facts, joined_path(root, "build.gradle.kts"@))
        || is_file_at(facts, joined_path(root, "settings.gradle"@)) || is_file_at(
        facts,
        joined_path(root, "settings.gradle.kts"@),
    )
}

pub fn gradle_marker(root: &FsPath, facts: &FileFacts) -> (r: bool)
    ensures
        r == has_marker(root@, facts@),
{
    facts.is_file(&root.join("build.gradle")) || facts.is_file(&root.join("build.gradle.kts")) || facts.is_file(
        &root.join("settings.gradle"),
    ) || facts.is_file(&root.join("settings.gradle.kts"))
}

pub open spec fn is_ours(p: PathModel) -> bool {
    name_of(p) == "build"@ || name_of(p) == ".gradle"@
}

/// The paths this adapter wants as containers.
pub open spec fn wanted(root: PathModel, candidates: Seq<PathModel>, facts: Seq<FactModel>) -> Seq<PathModel> {
    if has_marker(root, facts) {
        seq![joined_path(root, "build"@), joined_path(root, ".gradle"@)] + candidates.filter(|p: PathModel| is_ours(p))
    } else {
        Seq::empty()
    }
}

impl BuildAdapter for Adapter {
    open spec fn trash_roles_spec(&self) -> Seq<ArtifactRole> {
        seq![ArtifactRole::Output, ArtifactRole::TestOutput, ArtifactRole::Intermediate]
    }

    open spec fn id_spec(&self) -> Seq<char> {
        "gradle"@
    }

    open spec fn name_spec(&self) -> Seq<char> {
        "Gradle"@
    }

    open spec fn capabilities_spec(&self) -> BuildCapabilities {
        BuildCapabilities {
            identifies_shared_stores: true,
            attributes_package_identity: true,
            actions_available: true,
        }
    }

    open spec fn store_kinds_spec(&self) -> Seq<BuildStoreKind> {
        seq![BuildStoreKind::GradleCaches, BuildStoreKind::GradleWrapperDists, BuildStoreKind::GradleDaemon, BuildStoreKind::GradleNative]
    }

    open spec fn containers_spec(&self, root: PathModel, candidates: Seq<PathModel>, facts: Seq<FactModel>) -> Seq<
        ContainerModel,
    > {
        claimed("gradle"@, wanted(root, candidates, facts), root, facts)
    }

    open spec fn identify_spec(&self, c: ContainerModel, ctx: CtxModel) -> Seq<UnitModel> {
        if c.shared {
            match c.store_kind {
                Some(BuildStoreKind::GradleCaches) => seq![home_part(c, ctx, "caches"@)] + caches(c, ctx, c.path),
                Some(BuildStoreKind::GradleWrapperDists) => seq![home_part(c, ctx, "wrapper"@)] + dists(c, ctx, c.path),
                Some(BuildStoreKind::GradleDaemon) => seq![home_part(c, ctx, "daemon"@)] + daemons(c, ctx, c.path),
                Some(BuildStoreKind::GradleNative) => seq![home_part(c, ctx, "native"@)],
                _ => user_home(c, ctx),
            }
        } else if name_of(c.path) == ".gradle"@ {
            project_cache(c, ctx)
        } else {
            build_dir(c, ctx)
        }
    }

    fn trash_roles(&self) -> (r: Vec<ArtifactRole>) {
        let r: Vec<ArtifactRole> = vec![ArtifactRole::Output, ArtifactRole::TestOutput, ArtifactRole::Intermediate];
        assert(r@ =~= self.trash_roles_spec());
        r
    }

    fn id(&self) -> (r: &'static str) {
        "gradle"
    }

    fn name(&self) -> (r: &'static str) {
        "Gradle"
    }

    fn capabilities(&self) -> (r: BuildCapabilities) {
        BuildCapabilities {
            identifies_shared_stores: true,
            attributes_package_identity: true,
            actions_available: true,
        }
    }

    fn store_kinds(&self) -> (r: Vec<BuildStoreKind>) {
        let r: Vec<BuildStoreKind> = vec![BuildStoreKind::GradleCaches, BuildStoreKind::GradleWrapperDists, BuildStoreKind::GradleDaemon, BuildStoreKind::GradleNative];
        assert(r@ =~= self.store_kinds_spec());
        r
    }

    fn containers(&self, project_root: &FsPath, candidates: &Vec<FsPath>, facts: &FileFacts) -> (r: Vec<
        BuildContainer,
    >) {
        let mut want = no_paths();
        if gradle_marker(project_root, facts) {
            push_path(&mut want, project_root.join("build"));
            push_path(&mut want, project_root.join(".gradle"));
            assert(paths(want@) =~= seq![
                joined_path(project_root@, "build"@),
                joined_path(project_root@, ".gradle"@),
            ]);
            append_paths(
                &mut want,
                filter_paths(
                    candidates,
                    |p: &FsPath| -> (keep: bool)
                        ensures
                            keep == is_ours(p@)
                        {
                            let name = p.name();
                            same(name.as_str(), "build") || same(name.as_str(), ".gradle")
                        },
                    Ghost(|p: PathModel| is_ours(p)),
                ),
            );
        }
        claim_all("gradle", &want, project_root, facts)
    }

    fn identify(&self, container: &BuildContainer, ctx: &BuildCtx) -> (r: Vec<NestedArtifact>) {
        if container.shared {
            match container.store_kind {
                Some(BuildStoreKind::GradleCaches) => {
                    let mut units = one(home_part_unit(container, ctx, "caches"));
                    append_units(&mut units, identify_caches(container, ctx, &container.path));
                    units
                },
                Some(BuildStoreKind::GradleWrapperDists) => {
                    let mut units = one(home_part_unit(container, ctx, "wrapper"));
                    append_units(&mut units, identify_dists(container, ctx, &container.path));
                    units
                },
                Some(BuildStoreKind::GradleDaemon) => {
                    let mut units = one(home_part_unit(container, ctx, "daemon"));
                    append_units(&mut units, identify_daemons(container, ctx, &container.path));
                    units
                },
                Some(BuildStoreKind::GradleNative) => one(home_part_unit(container, ctx, "native")),
                _ => identify_user_home(container, ctx),
            }
        } else {
            let name = container.path.name();
            if same(name.as_str(), ".gradle") {
                identify_project_cache(container, ctx)
            } else {
                identify_build_dir(container, ctx)
            }
        }
    }
}

/// A project container's own unit.
pub open spec fn project_root_unit(
    c: ContainerModel,
    ctx: CtxModel,
    role: ArtifactRole,
    reason: Seq<char>,
    consequence: Seq<char>,
) -> UnitModel {
    let b = UnitModel::blank(c, role, c.path).is_dir(true).supported(reason).evidence(
        "gradle-layout"@,
        reason,
        Confidence::Medium,
    ).consequence(consequence);
    match row_of(ctx.rows, c.path) {
        Some(d) => b.folded(d),
        None => b.limit("this directory was not measured by the walk this pass"@),
    }
}

fn root_unit(container: &BuildContainer, ctx: &BuildCtx, role: ArtifactRole, reason: &str, consequence: &str) -> (r:
    NestedArtifact)
    ensures
        r@ == project_root_unit(container@, ctx@, role, reason@, consequence@),
{
    let b = NestedUnitBuilder::new(container, role, container.path.copy()).is_dir(true).supported_with_reason(
        reason,
    ).evidence("gradle-layout", reason, Confidence::Medium).consequence(consequence);
    match ctx.folded().get(&container.path) {
        Some(d) => b.folded(d).build(),
        None => b.limit("this directory was not measured by the walk this pass").build(),
    }
}

/// One directory of a project's build directory.
pub open spec fn build_child(c: ContainerModel, d: DirModel) -> Seq<UnitModel> {
    let name = name_of(d.path);
    match part_named(gradle_build_entries_spec(), name) {
        Some(p) => seq![
            UnitModel::blank(c, p.role, d.path).folded(d).supported(
                "`build/"@ + name + "` is part of Gradle's conventional build layout"@,
            ).evidence("gradle-layout"@, "conventional build/"@ + name, Confidence::Medium).consequence(p.consequence),
        ],
        None => seq![
            UnitModel::blank(c, ArtifactRole::Residual, d.path).folded(d).unsupported_layout(
                "`build/"@ + name
                    + "` is not part of the conventional layout; a build script or plugin chose it, and swamp never evaluates either"@,
            ),
        ],
    }
}

fn identify_build_child(container: &BuildContainer, d: &FoldedDir) -> (r: Vec<NestedArtifact>)
    ensures
        units_view(r@) == build_child(container@, d@),
{
    let name = d.path.name();
    let table = gradle_build_entries();
    match find_part(&table, name.as_str()) {
        Some(p) => {
            let reason = cat3("`build/", name.as_str(), "` is part of Gradle's conventional build layout");
            let detail = cat2("conventional build/", name.as_str());
            one(
                NestedUnitBuilder::new(container, p.role, d.path.copy()).folded(d).supported_with_reason(
                    reason.as_str(),
                ).evidence("gradle-layout", detail.as_str(), Confidence::Medium).consequence(p.consequence).build(),
            )
        },
        None => {
            let limit = cat3(
                "`build/",
                name.as_str(),
                "` is not part of the conventional layout; a build script or plugin chose it, and swamp never evaluates either",
            );
            one(
                NestedUnitBuilder::new(container, ArtifactRole::Residual, d.path.copy()).folded(d).unsupported_layout(
                    limit.as_str(),
                ).build(),
            )
        },
    }
}

/// A project build directory in the conventional layout.
pub open spec fn build_dir(c: ContainerModel, ctx: CtxModel) -> Seq<UnitModel> {
    seq![
        project_root_unit(
            c,
            ctx,
            ArtifactRole::Output,
            "a Gradle project build directory, in the conventional layout"@,
            "the next `gradle build` regenerates everything it holds"@,
        ),
    ] + flat(child_rows(ctx.rows, c.path), |d: DirModel| build_child(c, d))
}

pub fn identify_build_dir(container: &BuildContainer, ctx: &BuildCtx) -> (r: Vec<NestedArtifact>)
    ensures
        units_view(r@) == build_dir(container@, ctx@),
{
    let mut units = one(
        root_unit(
            container,
            ctx,
            ArtifactRole::Output,
            "a Gradle project build directory, in the conventional layout",
            "the next `gradle build` regenerates everything it holds",
        ),
    );
    let dirs = ctx.folded().children(&container.path);
    let more = each_dir(
        &dirs,
        |d: &FoldedDir| -> (out: Vec<NestedArtifact>)
            ensures
                units_view(out@) == build_child(container@, d@)
            { identify_build_child(container, d) },
        Ghost(|d: DirModel| build_child(container@, d)),
    );
    append_units(&mut units, more);
    units
}

/// One directory of the project-local cache. A version's directory is kept
/// apart by the version.
pub open spec fn project_cache_child(c: ContainerModel, d: DirModel) -> Seq<UnitModel> {
    let name = name_of(d.path);
    let versioned = is_versionish(name);
    let v = if versioned {
        no_variant().with_toolchain("gradle "@ + name)
    } else {
        no_variant().unknown("toolchain"@)
    };
    seq![
        UnitModel::blank(c, ArtifactRole::Intermediate, d.path).folded(d).variant(v).supported(
            if versioned {
                "`.gradle/"@ + name + "` is the project cache for Gradle "@ + name
            } else {
                "`.gradle/"@ + name + "` is a project-cache subdirectory"@
            },
        ).evidence("gradle-layout"@, "project cache entry "@ + name, Confidence::Medium).consequence(
            "the next build with this Gradle version re-derives it"@,
        ),
    ]
}

fn identify_project_cache_child(container: &BuildContainer, d: &FoldedDir) -> (r: Vec<NestedArtifact>)
    ensures
        units_view(r@) == project_cache_child(container@, d@),
{
    let name = d.path.name();
    let versioned = versionish(name.as_str());
    let v = if versioned {
        let tool = cat2("gradle ", name.as_str());
        ArtifactVariant::none().with_toolchain(tool.as_str())
    } else {
        ArtifactVariant::none().unknown("toolchain")
    };
    let reason = if versioned {
        cat4("`.gradle/", name.as_str(), "` is the project cache for Gradle ", name.as_str())
    } else {
        cat3("`.gradle/", name.as_str(), "` is a project-cache subdirectory")
    };
    let detail = cat2("project cache entry ", name.as_str());
    one(
        NestedUnitBuilder::new(container, ArtifactRole::Intermediate, d.path.copy()).folded(d).variant(
            v,
        ).supported_with_reason(reason.as_str()).evidence(
            "gradle-layout",
            detail.as_str(),
            Confidence::Medium,
        ).consequence("the next build with this Gradle version re-derives it").build(),
    )
}

/// The project-local `.gradle` cache.
pub open spec fn project_cache(c: ContainerModel, ctx: CtxModel) -> Seq<UnitModel> {
    seq![
        project_root_unit(
            c,
            ctx,
            ArtifactRole::Intermediate,
            "`.gradle/` is the project-local cache Gradle keeps between builds"@,
            "the next build re-reads the build scripts and re-derives its task history; the build itself is unaffected"@,
        ),
    ] + flat(child_rows(ctx.rows, c.path), |d: DirModel| project_cache_child(c, d))
}

pub fn identify_project_cache(container: &BuildContainer, ctx: &BuildCtx) -> (r: Vec<NestedArtifact>)
    ensures
        units_view(r@) == project_cache(container@, ctx@),
{
    let mut units = one(
        root_unit(
            container,
            ctx,
            ArtifactRole::Intermediate,
            "`.gradle/` is the project-local cache Gradle keeps between builds",
            "the next build re-reads the build scripts and re-derives its task history; the build itself is unaffected",
        ),
    );
    let dirs = ctx.folded().children(&container.path);
    let more = each_dir(
        &dirs,
        |d: &FoldedDir| -> (out: Vec<NestedArtifact>)
            ensures
                units_view(out@) == project_cache_child(container@, d@)
            { identify_project_cache_child(container, d) },
        Ghost(|d: DirModel| project_cache_child(container@, d)),
    );
    append_units(&mut units, more);
    units
}

// ---------------------------------------------------------------------
// The user home
// ---------------------------------------------------------------------

/// The own unit of one part of a user home that is measured as its own store.
pub open spec fn home_part(c: ContainerModel, ctx: CtxModel, part: Seq<char>) -> UnitModel {
    let known = part_named(home_entries_spec(), part);
    let role = match known {
        Some(p) => p.role,
        None => ArtifactRole::Residual,
    };
    let b = UnitModel::blank(c, role, c.path).is_dir(true).membership(Membership::Unknown).no_action_because(
        "this directory is shared by every Gradle project on this machine"@,
    );
    let b = match known {
        Some(p) => b.supported("the Gradle user home's `"@ + part + "/` holds "@ + p.what).evidence(
            "gradle-layout"@,
            part + ": "@ + p.what,
            Confidence::Medium,
        ).consequence(p.consequence),
        None => b.unsupported_layout(
            "`"@ + part + "/` is not a Gradle user-home directory this adapter identifies"@,
        ),
    };
    match row_of(ctx.rows, c.path) {
        Some(d) => b.folded(d),
        None => b.limit("this directory was not measured by the walk this pass"@),
    }
}

pub fn home_part_unit(container: &BuildContainer, ctx: &BuildCtx, part: &str) -> (r: NestedArtifact)
    ensures
        r@ == home_part(container@, ctx@, part@),
{
    let table = home_entries();
    let known = find_part(&table, part);
    let role = match known {
        Some(p) => p.role,
        None => ArtifactRole::Residual,
    };
    let b = NestedUnitBuilder::new(container, role, container.path.copy()).is_dir(true).membership(
        Membership::Unknown,
    ).no_action_because("this directory is shared by every Gradle project on this machine");
    let b = match known {
        Some(p) => {
            let reason = cat4("the Gradle user home's `", part, "/` holds ", p.what);
            let detail = cat3(part, ": ", p.what);
            b.supported_with_reason(reason.as_str()).evidence(
                "gradle-layout",
                detail.as_str(),
                Confidence::Medium,
            ).consequence(p.consequence)
        },
        None => {
            let limit = cat3("`", part, "/` is not a Gradle user-home directory this adapter identifies");
            b.unsupported_layout(limit.as_str())
        },
    };
    match ctx.folded().get(&container.path) {
        Some(d) => b.folded(d).build(),
        None => b.limit("this directory was not measured by the walk this pass").build(),
    }
}

pub open spec fn home_root(c: ContainerModel, ctx: CtxModel) -> UnitModel {
    let b = UnitModel::blank(c, ArtifactRole::SharedStoreEntry, c.path).is_dir(true).supported(
        "a Gradle user home shared by every Gradle build on this machine"@,
    ).evidence("gradle-layout"@, "gradle user home"@, Confidence::Medium).consequence(
        "the next build re-downloads modules and distributions it needs -- needs network access"@,
    ).no_action_because("this home is shared by every Gradle project on this machine"@);
    match row_of(ctx.rows, c.path) {
        Some(d) => b.folded(d),
        None => b.limit("this Gradle user home was not measured by the walk this pass"@),
    }
}

fn identify_home_root(container: &BuildContainer, ctx: &BuildCtx) -> (r: NestedArtifact)
    ensures
        r@ == home_root(container@, ctx@),
{
    let b = NestedUnitBuilder::new(container, ArtifactRole::SharedStoreEntry, container.path.copy()).is_dir(
        true,
    ).supported_with_reason("a Gradle user home shared by every Gradle build on this machine").evidence(
        "gradle-layout",
        "gradle user home",
        Confidence::Medium,
    ).consequence("the next build re-downloads modules and distributions it needs -- needs network access").no_action_because(
        "this home is shared by every Gradle project on this machine",
    );
    match ctx.folded().get(&container.path) {
        Some(d) => b.folded(d).build(),
        None => b.limit("this Gradle user home was not measured by the walk this pass").build(),
    }
}

/// The own unit of one directory of a user home.
pub open spec fn home_child_unit(c: ContainerModel, d: DirModel) -> UnitModel {
    let name = name_of(d.path);
    match part_named(home_entries_spec(), name) {
        Some(p) => UnitModel::blank(c, p.role, d.path).folded(d).membership(Membership::Unknown).supported(
            "`"@ + name + "/` holds "@ + p.what,
        ).evidence("gradle-layout"@, name + ": "@ + p.what, Confidence::Medium).consequence(
            p.consequence,
        ).no_action_because("this directory is shared by every Gradle project"@),
        None => UnitModel::blank(c, ArtifactRole::Residual, d.path).folded(d).membership(
            Membership::Unknown,
        ).unsupported_layout("`"@ + name + "/` is not a Gradle user-home directory this adapter identifies"@),
    }
}

fn identify_home_child_unit(container: &BuildContainer, d: &FoldedDir) -> (r: NestedArtifact)
    ensures
        r@ == home_child_unit(container@, d@),
{
    let name = d.path.name();
    let table = home_entries();
    match find_part(&table, name.as_str()) {
        Some(p) => {
            let reason = cat4("`", name.as_str(), "/` holds ", p.what);
            let detail = cat3(name.as_str(), ": ", p.what);
            NestedUnitBuilder::new(container, p.role, d.path.copy()).folded(d).membership(
                Membership::Unknown,
            ).supported_with_reason(reason.as_str()).evidence(
                "gradle-layout",
                detail.as_str(),
                Confidence::Medium,
            ).consequence(p.consequence).no_action_because("this directory is shared by every Gradle project").build()
        },
        None => {
            let limit = cat3("`", name.as_str(), "/` is not a Gradle user-home directory this adapter identifies");
            NestedUnitBuilder::new(container, ArtifactRole::Residual, d.path.copy()).folded(d).membership(
                Membership::Unknown,
            ).unsupported_layout(limit.as_str()).build()
        },
    }
}

/// One directory of a user home and what is inside it.
pub open spec fn home_child(c: ContainerModel, ctx: CtxModel, d: DirModel) -> Seq<UnitModel> {
    let name = name_of(d.path);
    let inside = if name == "caches"@ {
        caches(c, ctx, d.path)
    } else if name == "wrapper"@ {
        wrapper(c, ctx, d.path)
    } else if name == "daemon"@ {
        daemons(c, ctx, d.path)
    } else {
        Seq::empty()
    };
    seq![home_child_unit(c, d)] + inside
}

fn identify_home_child(container: &BuildContainer, ctx: &BuildCtx, d: &FoldedDir) -> (r: Vec<NestedArtifact>)
    ensures
        units_view(r@) == home_child(container@, ctx@, d@),
{
    let mut units = one(identify_home_child_unit(container, d));
    let name = d.path.name();
    let inside = if same(name.as_str(), "caches") {
        identify_caches(container, ctx, &d.path)
    } else if same(name.as_str(), "wrapper") {
        identify_wrapper(container, ctx, &d.path)
    } else if same(name.as_str(), "daemon") {
        identify_daemons(container, ctx, &d.path)
    } else {
        no_units()
    };
    append_units(&mut units, inside);
    units
}

/// A Gradle user home handed in whole.
pub open spec fn user_home(c: ContainerModel, ctx: CtxModel) -> Seq<UnitModel> {
    seq![home_root(c, ctx)] + flat(child_rows(ctx.rows, c.path), |d: DirModel| home_child(c, ctx, d))
}

pub fn identify_user_home(container: &BuildContainer, ctx: &BuildCtx) -> (r: Vec<NestedArtifact>)
    ensures
        units_view(r@) == user_home(container@, ctx@),
{
    let mut units = one(identify_home_root(container, ctx));
    let dirs = ctx.folded().children(&container.path);
    let more = each_dir(
        &dirs,
        |d: &FoldedDir| -> (out: Vec<NestedArtifact>)
            ensures
                units_view(out@) == home_child(container@, ctx@, d@)
            { identify_home_child(container, ctx, d) },
        Ghost(|d: DirModel| home_child(container@, ctx@, d)),
    );
    append_units(&mut units, more);
    units
}

/// A cache directory's category and layout version: `modules-2` is the modules
/// cache in layout 2.
pub open spec fn versioned_name(name: Seq<char>) -> (Seq<char>, Option<Seq<char>>) {
    match cut_last(name, '-') {
        Some((head, tail)) => if tail.len() > 0 && all_digits(tail) {
            (head, Some(tail))
        } else {
            (name, None)
        },
        None => (name, None),
    }
}

fn only_digits(s: &str) -> (r: bool)
    ensures
        r == all_digits(s@),
{
    let v = crate::text::chars_of(s);
    let mut i: usize = 0;
    while i < v.len()
        invariant
            i <= v@.len(),
            v@ == s@,
            forall|k: int| 0 <= k < i ==> #[trigger] is_digit(s@[k]),
        decreases v@.len() - i,
    {
        if !char_is_digit(v[i]) {
            assert(!is_digit(s@[i as int]));
            return false;
        }
        i += 1;
    }
    true
}

pub fn split_versioned(name: &str) -> (r: (String, Option<String>))
    ensures
        (r.0@, opt_text(r.1)) == versioned_name(name@),
{
    match split_last(name, '-') {
        Some(p) => {
            if !p.1.as_str().is_empty() && only_digits(p.1.as_str()) {
                (p.0, Some(p.1))
            } else {
                (name.to_owned(), None)
            }
        },
        None => (name.to_owned(), None),
    }
}

/// One cache category.
pub open spec fn cache_unit(c: ContainerModel, d: DirModel) -> UnitModel {
    let name = name_of(d.path);
    let (prefix, layout) = versioned_name(name);
    let v = match layout {
        Some(n) => no_variant().with_configuration(prefix + " layout "@ + n),
        None => no_variant().unknown("configuration"@),
    };
    let b = UnitModel::blank(c, ArtifactRole::SharedStoreEntry, d.path).folded(d).variant(v).no_action_because(
        "a shared cache entry may be in use by any Gradle build"@,
    );
    match cache_category(prefix) {
        Some(what) => b.supported("`caches/"@ + name + "` is "@ + what).evidence(
            "gradle-layout"@,
            "cache category "@ + prefix,
            Confidence::Medium,
        ).limit(
            "Gradle records no retention or last-read evidence for a cache entry on disk; the timestamp is a modification time only"@,
        ).consequence(
            "the next build re-downloads or regenerates these entries -- the downloaded ones need network access"@,
        ),
        None => b.unsupported_layout("`caches/"@ + name + "` is not a cache category this adapter identifies"@),
    }
}

fn identify_cache_unit(container: &BuildContainer, d: &FoldedDir, prefix: &str, layout: &Option<String>) -> (r: NestedArtifact)
    requires
        (prefix@, opt_text(*layout)) == versioned_name(name_of(d@.path)),
    ensures
        r@ == cache_unit(container@, d@),
{
    let name = d.path.name();
    let v = match layout {
        Some(n) => {
            let config = cat3(prefix, " layout ", n.as_str());
            ArtifactVariant::none().with_configuration(config.as_str())
        },
        None => ArtifactVariant::none().unknown("configuration"),
    };
    let b = NestedUnitBuilder::new(container, ArtifactRole::SharedStoreEntry, d.path.copy()).folded(d).variant(
        v,
    ).no_action_because("a shared cache entry may be in use by any Gradle build");
    match category_of(prefix) {
        Some(what) => {
            let reason = cat4("`caches/", name.as_str(), "` is ", what);
            let detail = cat2("cache category ", prefix);
            b.supported_with_reason(reason.as_str()).evidence(
                "gradle-layout",
                detail.as_str(),
                Confidence::Medium,
            ).limit(
                "Gradle records no retention or last-read evidence for a cache entry on disk; the timestamp is a modification time only",
            ).consequence(
                "the next build re-downloads or regenerates these entries -- the downloaded ones need network access",
            ).build()
        },
        None => {
            let limit = cat3("`caches/", name.as_str(), "` is not a cache category this adapter identifies");
            b.unsupported_layout(limit.as_str()).build()
        },
    }
}

/// One cache category and, for the dependency cache, its modules.
pub open spec fn cache_child(c: ContainerModel, ctx: CtxModel, d: DirModel) -> Seq<UnitModel> {
    if versioned_name(name_of(d.path)).0 == "modules"@ {
        seq![cache_unit(c, d)] + modules(c, ctx, d.path)
    } else {
        seq![cache_unit(c, d)]
    }
}

fn identify_cache_child(container: &BuildContainer, ctx: &BuildCtx, d: &FoldedDir) -> (r: Vec<NestedArtifact>)
    ensures
        units_view(r@) == cache_child(container@, ctx@, d@),
{
    let name = d.path.name();
    let (prefix, layout) = split_versioned(name.as_str());
    let mut units = one(identify_cache_unit(container, d, prefix.as_str(), &layout));
    if same(prefix.as_str(), "modules") {
        append_units(&mut units, identify_modules(container, ctx, &d.path));
    }
    units
}

pub open spec fn caches(c: ContainerModel, ctx: CtxModel, dir: PathModel) -> Seq<UnitModel> {
    flat(child_rows(ctx.rows, dir), |d: DirModel| cache_child(c, ctx, d))
}

pub fn identify_caches(container: &BuildContainer, ctx: &BuildCtx, dir: &FsPath) -> (r: Vec<NestedArtifact>)
    ensures
        units_view(r@) == caches(container@, ctx@, dir@),
{
    let dirs = ctx.folded().children(dir);
    each_dir(
        &dirs,
        |d: &FoldedDir| -> (out: Vec<NestedArtifact>)
            ensures
                units_view(out@) == cache_child(container@, ctx@, d@)
            { identify_cache_child(container, ctx, d) },
        Ghost(|d: DirModel| cache_child(container@, ctx@, d)),
    )
}

/// One cached module, named by its coordinates.
pub open spec fn module_unit(c: ContainerModel, files: PathModel, d: DirModel) -> Seq<UnitModel> {
    let rel = relative(files, d.path);
    let coords = coordinates_of(rel);
    let v = match coords {
        Some(m) => {
            let named = VariantModel {
                package: Some(m.group + ":"@ + m.artifact),
                version: m.version,
                ..no_variant()
            };
            if m.version is None {
                named.unknown("version"@)
            } else {
                named
            }
        },
        None => no_variant().unknown("package"@).unknown("version"@),
    };
    let b = UnitModel::blank(c, ArtifactRole::SharedStoreEntry, d.path).folded(d).variant(v).no_action_because(
        "a cached module may be a dependency of any project on this machine"@,
    );
    match coords {
        Some(m) => seq![
            b.supported("`modules-2` lays modules out by coordinate; this is "@ + m.shown()).evidence(
                "gradle-modules"@,
                m.shown(),
                Confidence::High,
            ).consequence("the next build downloads this module again -- needs network access"@),
        ],
        None => seq![b.unsupported_layout("`"@ + rel + "` is not a coordinate layout this adapter can read"@)],
    }
}

fn identify_module(container: &BuildContainer, files: &FsPath, d: &FoldedDir) -> (r: Vec<NestedArtifact>)
    ensures
        units_view(r@) == module_unit(container@, files@, d@),
{
    let rel = relative_path(files, &d.path);
    let coords = coordinates_from_relative(rel.as_str());
    let v = match &coords {
        Some(m) => {
            let mut named = ArtifactVariant::none();
            named.package = Some(cat3(m.group.as_str(), ":", m.artifact.as_str()));
            named.version = copy_opt(&m.version);
            if m.version.is_none() {
                named.unknown("version")
            } else {
                named
            }
        },
        None => ArtifactVariant::none().unknown("package").unknown("version"),
    };
    let b = NestedUnitBuilder::new(container, ArtifactRole::SharedStoreEntry, d.path.copy()).folded(d).variant(
        v,
    ).no_action_because("a cached module may be a dependency of any project on this machine");
    match &coords {
        Some(m) => {
            let shown = m.display();
            let reason = cat2("`modules-2` lays modules out by coordinate; this is ", shown.as_str());
            one(
                b.supported_with_reason(reason.as_str()).evidence(
                    "gradle-modules",
                    shown.as_str(),
                    Confidence::High,
                ).consequence("the next build downloads this module again -- needs network access").build(),
            )
        },
        None => {
            let limit = cat3("`", rel.as_str(), "` is not a coordinate layout this adapter can read");
            one(b.unsupported_layout(limit.as_str()).build())
        },
    }
}

/// One directory of the dependency cache: its resolution metadata, its files by
/// group and artifact, or something else.
pub open spec fn modules_child(c: ContainerModel, ctx: CtxModel, d: DirModel) -> Seq<UnitModel> {
    let name = name_of(d.path);
    if begins(name, "metadata-"@) {
        seq![
            UnitModel::blank(c, ArtifactRole::Metadata, d.path).folded(d).variant(
                no_variant().with_configuration("module metadata "@ + name),
            ).supported("`modules-2/"@ + name + "` is the dependency cache's own resolution metadata"@).evidence(
                "gradle-modules"@,
                "module metadata "@ + name,
                Confidence::Medium,
            ).consequence("the next build re-resolves module metadata -- needs network access"@).no_action_because(
                "this metadata is shared by every Gradle build"@,
            ),
        ]
    } else if !begins(name, "files-"@) {
        seq![
            UnitModel::blank(c, ArtifactRole::Residual, d.path).folded(d).unsupported_layout(
                "`modules-2/"@ + name + "` is not a module-cache directory this adapter identifies"@,
            ),
        ]
    } else {
        flat(
            child_rows(ctx.rows, d.path),
            |g: DirModel| flat(child_rows(ctx.rows, g.path), |a: DirModel| module_unit(c, d.path, a)),
        )
    }
}

fn identify_group(container: &BuildContainer, ctx: &BuildCtx, files: &FsPath, group: &FoldedDir) -> (r: Vec<NestedArtifact>)
    ensures
        units_view(r@) == flat(
            child_rows(ctx@.rows, group@.path),
            |a: DirModel| module_unit(container@, files@, a),
        ),
{
    let dirs = ctx.folded().children(&group.path);
    each_dir(
        &dirs,
        |a: &FoldedDir| -> (out: Vec<NestedArtifact>)
            ensures
                units_view(out@) == module_unit(container@, files@, a@)
            { identify_module(container, files, a) },
        Ghost(|a: DirModel| module_unit(container@, files@, a)),
    )
}

fn identify_modules_child(container: &BuildContainer, ctx: &BuildCtx, d: &FoldedDir) -> (r: Vec<NestedArtifact>)
    ensures
        units_view(r@) == modules_child(container@, ctx@, d@),
{
    let name = d.path.name();
    if starts(name.as_str(), "metadata-") {
        let detail = cat2("module metadata ", name.as_str());
        let reason = cat3("`modules-2/", name.as_str(), "` is the dependency cache's own resolution metadata");
        one(
            NestedUnitBuilder::new(container, ArtifactRole::Metadata, d.path.copy()).folded(d).variant(
                ArtifactVariant::none().with_configuration(detail.as_str()),
            ).supported_with_reason(reason.as_str()).evidence(
                "gradle-modules",
                detail.as_str(),
                Confidence::Medium,
            ).consequence("the next build re-resolves module metadata -- needs network access").no_action_because(
                "this metadata is shared by every Gradle build",
            ).build(),
        )
    } else if !starts(name.as_str(), "files-") {
        let limit = cat3("`modules-2/", name.as_str(), "` is not a module-cache directory this adapter identifies");
        one(
            NestedUnitBuilder::new(container, ArtifactRole::Residual, d.path.copy()).folded(d).unsupported_layout(
                limit.as_str(),
            ).build(),
        )
    } else {
        let groups = ctx.folded().children(&d.path);
        let files = &d.path;
        each_dir(
            &groups,
            |g: &FoldedDir| -> (out: Vec<NestedArtifact>)
                ensures
                    units_view(out@) == flat(child_rows(ctx@.rows, g@.path), |a: DirModel| module_unit(container@, files@, a))
                { identify_group(container, ctx, files, g) },
            Ghost(|g: DirModel| flat(child_rows(ctx@.rows, g.path), |a: DirModel| module_unit(container@, files@, a))),
        )
    }
}

pub open spec fn modules(c: ContainerModel, ctx: CtxModel, dir: PathModel) -> Seq<UnitModel> {
    flat(child_rows(ctx.rows, dir), |d: DirModel| modules_child(c, ctx, d))
}

pub fn identify_modules(container: &BuildContainer, ctx: &BuildCtx, dir: &FsPath) -> (r: Vec<NestedArtifact>)
    ensures
        units_view(r@) == modules(container@, ctx@, dir@),
{
    let dirs = ctx.folded().children(dir);
    each_dir(
        &dirs,
        |d: &FoldedDir| -> (out: Vec<NestedArtifact>)
            ensures
                units_view(out@) == modules_child(container@, ctx@, d@)
            { identify_modules_child(container, ctx, d) },
        Ghost(|d: DirModel| modules_child(container@, ctx@, d)),
    )
}

/// `wrapper/dists`, and nothing else the wrapper keeps.
pub open spec fn wrapper_child(c: ContainerModel, ctx: CtxModel, d: DirModel) -> Seq<UnitModel> {
    if name_of(d.path) == "dists"@ {
        dists(c, ctx, d.path)
    } else {
        Seq::empty()
    }
}

fn identify_wrapper_child(container: &BuildContainer, ctx: &BuildCtx, d: &FoldedDir) -> (r: Vec<NestedArtifact>)
    ensures
        units_view(r@) == wrapper_child(container@, ctx@, d@),
{
    let name = d.path.name();
    if same(name.as_str(), "dists") {
        identify_dists(container, ctx, &d.path)
    } else {
        no_units()
    }
}

pub open spec fn wrapper(c: ContainerModel, ctx: CtxModel, dir: PathModel) -> Seq<UnitModel> {
    flat(child_rows(ctx.rows, dir), |d: DirModel| wrapper_child(c, ctx, d))
}

pub fn identify_wrapper(container: &BuildContainer, ctx: &BuildCtx, dir: &FsPath) -> (r: Vec<NestedArtifact>)
    ensures
        units_view(r@) == wrapper(container@, ctx@, dir@),
{
    let dirs = ctx.folded().children(dir);
    each_dir(
        &dirs,
        |d: &FoldedDir| -> (out: Vec<NestedArtifact>)
            ensures
                units_view(out@) == wrapper_child(container@, ctx@, d@)
            { identify_wrapper_child(container, ctx, d) },
        Ghost(|d: DirModel| wrapper_child(container@, ctx@, d)),
    )
}

/// The version a distribution's name carries: `gradle-8.5-bin` is 8.5.
pub open spec fn dist_version(name: Seq<char>) -> Option<Seq<char>> {
    match after_prefix(name, "gradle-"@) {
        Some(rest) => {
            let v = first_piece(rest, '-');
            if is_versionish(v) {
                Some(v)
            } else {
                None
            }
        },
        None => None,
    }
}

fn version_of_dist(name: &str) -> (r: Option<String>)
    ensures
        opt_text(r) == dist_version(name@),
{
    match drop_prefix(name, "gradle-") {
        Some(rest) => {
            let v = piece_before(rest.as_str(), '-');
            if versionish(v.as_str()) {
                Some(v)
            } else {
                None
            }
        },
        None => None,
    }
}

/// One distribution the wrapper downloaded.
pub open spec fn dist_unit(c: ContainerModel, d: DirModel) -> Seq<UnitModel> {
    let name = name_of(d.path);
    let v = match dist_version(name) {
        Some(ver) => no_variant().with_toolchain("gradle "@ + ver),
        None => no_variant().unknown("toolchain"@),
    };
    seq![
        UnitModel::blank(c, ArtifactRole::SharedStoreEntry, d.path).folded(d).variant(v).supported(
            "`wrapper/dists/"@ + name + "` is a Gradle distribution the wrapper downloaded"@,
        ).evidence("gradle-wrapper"@, "distribution "@ + name, Confidence::High).consequence(
            "a project pinned to this distribution downloads it again on its next build -- needs network access"@,
        ).no_action_because("any project's wrapper may be pinned to this distribution"@),
    ]
}

fn identify_dist(container: &BuildContainer, d: &FoldedDir) -> (r: Vec<NestedArtifact>)
    ensures
        units_view(r@) == dist_unit(container@, d@),
{
    let name = d.path.name();
    let v = match version_of_dist(name.as_str()) {
        Some(ver) => {
            let tool = cat2("gradle ", ver.as_str());
            ArtifactVariant::none().with_toolchain(tool.as_str())
        },
        None => ArtifactVariant::none().unknown("toolchain"),
    };
    let reason = cat3("`wrapper/dists/", name.as_str(), "` is a Gradle distribution the wrapper downloaded");
    let detail = cat2("distribution ", name.as_str());
    one(
        NestedUnitBuilder::new(container, ArtifactRole::SharedStoreEntry, d.path.copy()).folded(d).variant(
            v,
        ).supported_with_reason(reason.as_str()).evidence("gradle-wrapper", detail.as_str(), Confidence::High).consequence(
            "a project pinned to this distribution downloads it again on its next build -- needs network access",
        ).no_action_because("any project's wrapper may be pinned to this distribution").build(),
    )
}

pub open spec fn dists(c: ContainerModel, ctx: CtxModel, dir: PathModel) -> Seq<UnitModel> {
    flat(child_rows(ctx.rows, dir), |d: DirModel| dist_unit(c, d))
}

pub fn identify_dists(container: &BuildContainer, ctx: &BuildCtx, dir: &FsPath) -> (r: Vec<NestedArtifact>)
    ensures
        units_view(r@) == dists(container@, ctx@, dir@),
{
    let dirs = ctx.folded().children(dir);
    each_dir(
        &dirs,
        |d: &FoldedDir| -> (out: Vec<NestedArtifact>)
            ensures
                units_view(out@) == dist_unit(container@, d@)
            { identify_dist(container, d) },
        Ghost(|d: DirModel| dist_unit(container@, d)),
    )
}

/// One Gradle version's daemon registry and logs.
pub open spec fn daemon_unit(c: ContainerModel, d: DirModel) -> Seq<UnitModel> {
    let name = name_of(d.path);
    let b = UnitModel::blank(c, ArtifactRole::Metadata, d.path).folded(d);
    if is_versionish(name) {
        seq![
            b.variant(no_variant().with_toolchain("gradle "@ + name)).supported(
                "`daemon/"@ + name + "` holds the Gradle "@ + name + " daemon's registry and logs"@,
            ).evidence("gradle-layout"@, "daemon logs for gradle "@ + name, Confidence::Medium).consequence(
                "the next Gradle "@ + name + " build starts a new daemon and a new log"@,
            ),
        ]
    } else {
        seq![
            b.variant(no_variant().unknown("toolchain"@)).unsupported_layout(
                "`daemon/"@ + name + "` is not a per-version daemon directory"@,
            ),
        ]
    }
}

fn identify_daemon(container: &BuildContainer, d: &FoldedDir) -> (r: Vec<NestedArtifact>)
    ensures
        units_view(r@) == daemon_unit(container@, d@),
{
    let name = d.path.name();
    let b = NestedUnitBuilder::new(container, ArtifactRole::Metadata, d.path.copy()).folded(d);
    if versionish(name.as_str()) {
        let tool = cat2("gradle ", name.as_str());
        let reason = cat5(
            "`daemon/",
            name.as_str(),
            "` holds the Gradle ",
            name.as_str(),
            " daemon's registry and logs",
        );
        let detail = cat2("daemon logs for gradle ", name.as_str());
        let consequence = cat3("the next Gradle ", name.as_str(), " build starts a new daemon and a new log");
        one(
            b.variant(ArtifactVariant::none().with_toolchain(tool.as_str())).supported_with_reason(
                reason.as_str(),
            ).evidence("gradle-layout", detail.as_str(), Confidence::Medium).consequence(
                consequence.as_str(),
            ).build(),
        )
    } else {
        let limit = cat3("`daemon/", name.as_str(), "` is not a per-version daemon directory");
        one(
            b.variant(ArtifactVariant::none().unknown("toolchain")).unsupported_layout(limit.as_str()).build(),
        )
    }
}

pub open spec fn daemons(c: ContainerModel, ctx: CtxModel, dir: PathModel) -> Seq<UnitModel> {
    flat(child_rows(ctx.rows, dir), |d: DirModel| daemon_unit(c, d))
}

pub fn identify_daemons(container: &BuildContainer, ctx: &BuildCtx, dir: &FsPath) -> (r: Vec<NestedArtifact>)
    ensures
        units_view(r@) == daemons(container@, ctx@, dir@),
{
    let dirs = ctx.folded().children(dir);
    each_dir(
        &dirs,
        |d: &FoldedDir| -> (out: Vec<NestedArtifact>)
            ensures
                units_view(out@) == daemon_unit(container@, d@)
            { identify_daemon(container, d) },
        Ghost(|d: DirModel| daemon_unit(container@, d)),
    )
}

} // verus!
