//! Xcode and SwiftPM build storage, and the Apple developer stores beside it.
//!
//! Archives, device support, simulator runtimes and simulator devices are not
//! build output: each has its own role and its own consequence.

use super::adapter::{
    claim_all, claimed, each, each_dir, flat, no_units, one, views, BuildAdapter, BuildCapabilities, KnownPart,
    PartModel,
};
use super::builder::NestedUnitBuilder;
use super::container::{child_rows, dir_refs, row_of, BuildContainer, ContainerModel, DirModel, FoldedDir};
use super::context::{BuildCtx, CtxModel};
use crate::artifact::{
    append_units, no_variant, push_unit, relative, relative_path, units_view, ArtifactRole, ArtifactVariant, Confidence,
    Membership, NestedArtifact, UnitModel, VariantModel,
};
use crate::facts::{
    is_file_at, opt_manifest_ref, stat_of, whole_manifest_of, FactModel, FileFacts, Manifest, ManifestModel,
};
use crate::json::{
    get2, get_nested, json_models, lemma_json_models, parse_json, parsed_json, read_as, text_of_node, text_under,
    JsonModel, JsonNode,
};
use crate::locations::BuildStoreKind;
use crate::number::{char_is_digit, decimal, is_digit, write_u64};
use crate::path::{file_stem, joined_path, name_of, parent, path_of, paths, push_path, FsPath, PathModel};
use crate::text::{
    cat2, cat3, cat5, cat8, cut_first, ends, finishes, first_piece, has_char, last_piece, opt_text, piece_after,
    piece_before, same, split_first, split_words, texts, trim_suffixes, without_suffixes, words,
};
use vstd::prelude::*;

verus! {

pub struct Adapter;

/// A build folder modified this recently before the observation may have a
/// build writing into it now.
pub const RECENT_WRITE_SECS: u64 = 600;

/// How many archives get their `Info.plist` read.
pub const ARCHIVE_BUDGET: usize = 200;

/// Whether a candidate is one of this adapter's containers: a `.build` beside a
/// package manifest, or a project-local `DerivedData`.
pub open spec fn is_ours(root: PathModel, facts: Seq<FactModel>, p: PathModel) -> bool {
    let package = is_file_at(facts, joined_path(root, "Package.swift"@));
    let beside = match parent(p) {
        Some(dir) => is_file_at(facts, joined_path(dir, "Package.swift"@)),
        None => false,
    };
    (name_of(p) == ".build"@ && (package || beside)) || (name_of(p) == "DerivedData"@)
}

/// The paths this adapter wants as containers.
pub open spec fn wanted(root: PathModel, candidates: Seq<PathModel>, facts: Seq<FactModel>) -> Seq<PathModel> {
    let first = if is_file_at(facts, joined_path(root, "Package.swift"@)) {
        seq![joined_path(root, ".build"@)]
    } else {
        Seq::empty()
    };
    first + candidates.filter(|p: PathModel| is_ours(root, facts, p))
}

impl BuildAdapter for Adapter {
    open spec fn trash_roles_spec(&self) -> Seq<ArtifactRole> {
        seq![ArtifactRole::Output, ArtifactRole::TestOutput, ArtifactRole::Intermediate]
    }

    open spec fn id_spec(&self) -> Seq<char> {
        "xcode-swift"@
    }

    open spec fn name_spec(&self) -> Seq<char> {
        "Xcode / Swift"@
    }

    open spec fn capabilities_spec(&self) -> BuildCapabilities {
        BuildCapabilities {
            identifies_shared_stores: true,
            attributes_package_identity: true,
            actions_available: true,
        }
    }

    open spec fn store_kinds_spec(&self) -> Seq<BuildStoreKind> {
        seq![BuildStoreKind::XcodeDerivedData, BuildStoreKind::XcodeArchives, BuildStoreKind::XcodeDeviceSupport, BuildStoreKind::SimulatorDevices, BuildStoreKind::SimulatorRuntimes, BuildStoreKind::SimulatorCaches]
    }

    open spec fn containers_spec(&self, root: PathModel, candidates: Seq<PathModel>, facts: Seq<FactModel>) -> Seq<
        ContainerModel,
    > {
        claimed("xcode-swift"@, wanted(root, candidates, facts), root, facts)
    }

    open spec fn identify_spec(&self, c: ContainerModel, ctx: CtxModel) -> Seq<UnitModel> {
        match c.store_kind {
            Some(BuildStoreKind::XcodeArchives) => archives(c, ctx),
            Some(BuildStoreKind::XcodeDeviceSupport) => device_support(c, ctx),
            Some(BuildStoreKind::SimulatorDevices) => devices(c, ctx),
            Some(BuildStoreKind::SimulatorRuntimes) => runtimes(c, ctx),
            Some(BuildStoreKind::SimulatorCaches) => simulator_caches(c, ctx),
            Some(BuildStoreKind::XcodeDerivedData) => derived_data(c, ctx),
            _ => if name_of(c.path) == ".build"@ {
                swiftpm(c, ctx)
            } else {
                derived_data(c, ctx)
            },
        }
    }

    fn trash_roles(&self) -> (r: Vec<ArtifactRole>) {
        let r: Vec<ArtifactRole> = vec![ArtifactRole::Output, ArtifactRole::TestOutput, ArtifactRole::Intermediate];
        assert(r@ =~= self.trash_roles_spec());
        r
    }

    fn id(&self) -> (r: &'static str) {
        "xcode-swift"
    }

    fn name(&self) -> (r: &'static str) {
        "Xcode / Swift"
    }

    fn capabilities(&self) -> (r: BuildCapabilities) {
        BuildCapabilities {
            identifies_shared_stores: true,
            attributes_package_identity: true,
            actions_available: true,
        }
    }

    fn store_kinds(&self) -> (r: Vec<BuildStoreKind>) {
        let r: Vec<BuildStoreKind> = vec![BuildStoreKind::XcodeDerivedData, BuildStoreKind::XcodeArchives, BuildStoreKind::XcodeDeviceSupport, BuildStoreKind::SimulatorDevices, BuildStoreKind::SimulatorRuntimes, BuildStoreKind::SimulatorCaches];
        assert(r@ =~= self.store_kinds_spec());
        r
    }

    fn containers(&self, project_root: &FsPath, candidates: &Vec<FsPath>, facts: &FileFacts) -> (r: Vec<
        BuildContainer,
    >) {
        let package = facts.is_file(&project_root.join("Package.swift"));
        let mut want: Vec<FsPath> = Vec::new();
        assert(paths(want@) =~= Seq::<PathModel>::empty());
        if package {
            push_path(&mut want, project_root.join(".build"));
        }
        let ghost first = paths(want@);
        let ghost all = paths(candidates@);
        let ghost keep = |p: PathModel| is_ours(project_root@, facts@, p);
        assert(first =~= (if package {
            seq![joined_path(project_root@, ".build"@)]
        } else {
            Seq::empty()
        }));
        let mut i: usize = 0;
        assert(paths(want@) =~= first + all.take(0).filter(keep)) by {
            reveal(Seq::filter);
        }
        while i < candidates.len()
            invariant
                i <= candidates@.len(),
                all == paths(candidates@),
                package == is_file_at(facts@, joined_path(project_root@, "Package.swift"@)),
                keep == (|p: PathModel| is_ours(project_root@, facts@, p)),
                paths(want@) == first + all.take(i as int).filter(keep),
            decreases candidates@.len() - i,
        {
            let p = &candidates[i];
            assert(all[i as int] == p@);
            let name = p.name();
            let beside = match p.parent() {
                Some(dir) => facts.is_file(&dir.join("Package.swift")),
                None => false,
            };
            let ghost prior = paths(want@);
            if (same(name.as_str(), ".build") && (package || beside)) || same(name.as_str(), "DerivedData") {
                push_path(&mut want, p.copy());
            }
            proof {
                super::container::lemma_filter_step(all, keep, i as int);
                assert(paths(want@) =~= first + all.take(i + 1).filter(keep));
            }
            i += 1;
        }
        assert(all.take(i as int) =~= all);
        claim_all("xcode-swift", &want, project_root, facts)
    }

    fn identify(&self, container: &BuildContainer, ctx: &BuildCtx) -> (r: Vec<NestedArtifact>) {
        match container.store_kind {
            Some(BuildStoreKind::XcodeArchives) => identify_archives(container, ctx),
            Some(BuildStoreKind::XcodeDeviceSupport) => identify_device_support(container, ctx),
            Some(BuildStoreKind::SimulatorDevices) => identify_devices(container, ctx),
            Some(BuildStoreKind::SimulatorRuntimes) => identify_runtimes(container, ctx),
            Some(BuildStoreKind::SimulatorCaches) => identify_simulator_caches(container, ctx),
            Some(BuildStoreKind::XcodeDerivedData) => identify_derived_data(container, ctx),
            _ => {
                let name = container.path.name();
                if same(name.as_str(), ".build") {
                    identify_swiftpm(container, ctx)
                } else {
                    identify_derived_data(container, ctx)
                }
            },
        }
    }
}

// ---------------------------------------------------------------------
// DerivedData
// ---------------------------------------------------------------------

/// DerivedData's own unit.
pub open spec fn derived_root_unit(c: ContainerModel, ctx: CtxModel) -> UnitModel {
    let b = UnitModel::container_root(c, ctx, ArtifactRole::Output).supported(
        "Xcode's DerivedData: per-project build folders"@,
    ).consequence("Xcode rebuilds and re-indexes each project the next time it is opened or built"@);
    if c.shared {
        b.membership(Membership::Unknown).no_action_because(
            "DerivedData holds every Xcode project's builds on this machine"@,
        )
    } else {
        b
    }
}

pub fn derived_root(container: &BuildContainer, ctx: &BuildCtx) -> (r: NestedArtifact)
    ensures
        r@ == derived_root_unit(container@, ctx@),
{
    let b = NestedUnitBuilder::container_root(container, ctx, ArtifactRole::Output).supported_with_reason(
        "Xcode's DerivedData: per-project build folders",
    ).consequence("Xcode rebuilds and re-indexes each project the next time it is opened or built");
    if container.shared {
        b.membership(Membership::Unknown).no_action_because(
            "DerivedData holds every Xcode project's builds on this machine",
        ).build()
    } else {
        b.build()
    }
}

/// What one directory of DerivedData is: a shared cache, a project folder, or
/// neither.
pub open spec fn derived_child(c: ContainerModel, ctx: CtxModel, d: DirModel) -> Seq<UnitModel> {
    let name = name_of(d.path);
    if finishes(name, ".noindex"@) {
        seq![
            UnitModel::known_dir(
                c,
                ArtifactRole::Intermediate,
                d,
                "`"@ + name + "` is a cache Xcode shares across projects in this DerivedData"@,
                "Xcode rebuilds it on the next build (a slower build, same result)"@,
            ),
        ]
    } else if row_of(ctx.rows, joined_path(d.path, "Build"@)) is Some || stat_of(
        ctx.facts,
        joined_path(d.path, "info.plist"@),
    ) is Some {
        project_folder(c, ctx, d.path)
    } else {
        seq![
            UnitModel::unknown_dir(
                c,
                d,
                "`"@ + name + "` has no `Build/` or `info.plist`: not a DerivedData project folder"@,
            ),
        ]
    }
}

fn identify_derived_child(container: &BuildContainer, ctx: &BuildCtx, d: &FoldedDir) -> (r: Vec<NestedArtifact>)
    ensures
        units_view(r@) == derived_child(container@, ctx@, d@),
{
    let name = d.path.name();
    if ends(name.as_str(), ".noindex") {
        let reason = cat3(
            "`",
            name.as_str(),
            "` is a cache Xcode shares across projects in this DerivedData",
        );
        one(
            NestedUnitBuilder::known_dir(
                container,
                ArtifactRole::Intermediate,
                d,
                reason.as_str(),
                "Xcode rebuilds it on the next build (a slower build, same result)",
            ).build(),
        )
    } else if ctx.folded().get(&d.path.join("Build")).is_some() || ctx.stat(&d.path.join("info.plist")).is_some() {
        identify_project_folder(container, ctx, &d.path)
    } else {
        let limit = cat3(
            "`",
            name.as_str(),
            "` has no `Build/` or `info.plist`: not a DerivedData project folder",
        );
        one(NestedUnitBuilder::unknown_dir(container, d, limit.as_str()).build())
    }
}

/// DerivedData: its project folders, plus the caches Xcode keeps beside them. A
/// folder with a `Build` of its own is one project folder.
pub open spec fn derived_data(c: ContainerModel, ctx: CtxModel) -> Seq<UnitModel> {
    if row_of(ctx.rows, joined_path(c.path, "Build"@)) is Some {
        project_folder(c, ctx, c.path)
    } else {
        seq![derived_root_unit(c, ctx)] + flat(
            child_rows(ctx.rows, c.path),
            |d: DirModel| derived_child(c, ctx, d),
        )
    }
}

pub fn identify_derived_data(container: &BuildContainer, ctx: &BuildCtx) -> (r: Vec<NestedArtifact>)
    ensures
        units_view(r@) == derived_data(container@, ctx@),
{
    if ctx.folded().get(&container.path.join("Build")).is_some() {
        return identify_project_folder(container, ctx, &container.path);
    }
    let mut units = one(derived_root(container, ctx));
    let dirs = ctx.folded().children(&container.path);
    let more = each_dir(
        &dirs,
        |d: &FoldedDir| -> (out: Vec<NestedArtifact>)
            ensures
                units_view(out@) == derived_child(container@, ctx@, d@)
            { identify_derived_child(container, ctx, d) },
        Ghost(|d: DirModel| derived_child(container@, ctx@, d)),
    );
    append_units(&mut units, more);
    units
}

/// What a project folder is known to hold.
pub open spec fn folder_parts_spec() -> Seq<PartModel> {
    seq![
        PartModel {
            name: "Build/Intermediates.noindex"@,
            role: ArtifactRole::Intermediate,
            what: "object files, build database and per-target intermediates"@,
            consequence: "the next build recompiles every target (a slower build, same result)"@,
        },
        PartModel {
            name: "Index.noindex"@,
            role: ArtifactRole::Intermediate,
            what: "the index store (code completion, jump-to-definition)"@,
            consequence: "Xcode re-indexes the project when it is next opened"@,
        },
        PartModel {
            name: "Index"@,
            role: ArtifactRole::Intermediate,
            what: "the index store (older Xcode layout)"@,
            consequence: "Xcode re-indexes the project when it is next opened"@,
        },
        PartModel {
            name: "ModuleCache.noindex"@,
            role: ArtifactRole::Intermediate,
            what: "precompiled Clang/Swift modules"@,
            consequence: "the next build recompiles the modules it imports"@,
        },
        PartModel {
            name: "TextIndex"@,
            role: ArtifactRole::Intermediate,
            what: "the text search index"@,
            consequence: "Xcode rebuilds it on demand"@,
        },
        PartModel {
            name: "Logs/Build"@,
            role: ArtifactRole::Metadata,
            what: "build logs"@,
            consequence: "the next build writes new logs; these ones are gone"@,
        },
        PartModel {
            name: "Logs/Launch"@,
            role: ArtifactRole::Metadata,
            what: "launch logs"@,
            consequence: "the next run writes new logs"@,
        },
        PartModel {
            name: "Logs/Debug"@,
            role: ArtifactRole::Metadata,
            what: "debugger logs"@,
            consequence: "the next debug session writes new logs"@,
        },
        PartModel {
            name: "SourcePackages/repositories"@,
            role: ArtifactRole::Intermediate,
            what: "bare clones of Swift package repositories"@,
            consequence: "Xcode clones the package repositories again -- needs access to them"@,
        },
        PartModel {
            name: "SourcePackages/artifacts"@,
            role: ArtifactRole::InstalledDependencies,
            what: "downloaded binary targets of Swift packages"@,
            consequence: "Xcode downloads the binary targets again -- needs network access"@,
        },
    ]
}

fn folder_parts() -> (r: Vec<KnownPart>)
    ensures
        views(r@) == folder_parts_spec(),
{
    let r: Vec<KnownPart> = vec![
        KnownPart {
            name: "Build/Intermediates.noindex",
            role: ArtifactRole::Intermediate,
            what: "object files, build database and per-target intermediates",
            consequence: "the next build recompiles every target (a slower build, same result)",
        },
        KnownPart {
            name: "Index.noindex",
            role: ArtifactRole::Intermediate,
            what: "the index store (code completion, jump-to-definition)",
            consequence: "Xcode re-indexes the project when it is next opened",
        },
        KnownPart {
            name: "Index",
            role: ArtifactRole::Intermediate,
            what: "the index store (older Xcode layout)",
            consequence: "Xcode re-indexes the project when it is next opened",
        },
        KnownPart {
            name: "ModuleCache.noindex",
            role: ArtifactRole::Intermediate,
            what: "precompiled Clang/Swift modules",
            consequence: "the next build recompiles the modules it imports",
        },
        KnownPart {
            name: "TextIndex",
            role: ArtifactRole::Intermediate,
            what: "the text search index",
            consequence: "Xcode rebuilds it on demand",
        },
        KnownPart {
            name: "Logs/Build",
            role: ArtifactRole::Metadata,
            what: "build logs",
            consequence: "the next build writes new logs; these ones are gone",
        },
        KnownPart {
            name: "Logs/Launch",
            role: ArtifactRole::Metadata,
            what: "launch logs",
            consequence: "the next run writes new logs",
        },
        KnownPart {
            name: "Logs/Debug",
            role: ArtifactRole::Metadata,
            what: "debugger logs",
            consequence: "the next debug session writes new logs",
        },
        KnownPart {
            name: "SourcePackages/repositories",
            role: ArtifactRole::Intermediate,
            what: "bare clones of Swift package repositories",
            consequence: "Xcode clones the package repositories again -- needs access to them",
        },
        KnownPart {
            name: "SourcePackages/artifacts",
            role: ArtifactRole::InstalledDependencies,
            what: "downloaded binary targets of Swift packages",
            consequence: "Xcode downloads the binary targets again -- needs network access",
        },
    ];
    assert(views(r@) =~= folder_parts_spec());
    r
}

/// The workspace a project folder says it was built from.
pub open spec fn workspace_of(ctx: CtxModel, folder: PathModel) -> Option<Seq<char>> {
    match whole_manifest_of(ctx.facts, joined_path(folder, "info.plist"@)) {
        Some(m) => m.scalar(seq!["WorkspacePath"@]),
        None => None,
    }
}

/// The project a folder's units belong to: the workspace's own name, or an
/// unknown one.
pub open spec fn folder_variant(workspace: Option<Seq<char>>) -> VariantModel {
    match workspace {
        Some(ws) => VariantModel { package: file_stem(path_of(ws)), ..no_variant() },
        None => no_variant().unknown("package"@),
    }
}

fn variant_of_folder(workspace: &Option<String>) -> (r: ArtifactVariant)
    ensures
        r@ == folder_variant(opt_text(*workspace)),
{
    match workspace {
        Some(ws) => {
            let mut v = ArtifactVariant::none();
            v.package = FsPath::parse(ws.as_str()).file_stem();
            v
        },
        None => ArtifactVariant::none().unknown("package"),
    }
}

/// A project folder's own unit.
pub open spec fn folder_unit(c: ContainerModel, ctx: CtxModel, dir: DirModel, ws: Option<Seq<char>>) -> UnitModel {
    let name = name_of(dir.path);
    let b = UnitModel::blank(c, ArtifactRole::Output, dir.path).folded(dir);
    let identified = match ws {
        Some(w) => {
            let known = b.supported("a DerivedData project folder whose info.plist names its workspace"@).evidence(
                "xcode-info-plist"@,
                "WorkspacePath "@ + w,
                Confidence::High,
            );
            if stat_of(ctx.facts, path_of(w)) is None {
                known.limit(
                    "the workspace this build came from is not at `"@ + w
                        + "` now (moved, renamed or removed); its build output is still here"@,
                )
            } else {
                known
            }
        },
        None => b.supported("a DerivedData project folder"@).limit(
            "`"@ + name
                + "/info.plist` is missing or names no WorkspacePath: which project built this is unknown, and not guessed from the folder name"@,
        ),
    };
    writer_noted(
        identified.variant(folder_variant(ws)).consequence(
            "Xcode rebuilds and re-indexes this project the next time it is built"@,
        ),
        dir,
        ctx.observed_at,
    )
}

fn identify_folder(container: &BuildContainer, ctx: &BuildCtx, dir: &FoldedDir, workspace: &Option<String>) -> (r:
    NestedArtifact)
    ensures
        r@ == folder_unit(container@, ctx@, dir@, opt_text(*workspace)),
{
    let name = dir.path.name();
    let b = NestedUnitBuilder::new(container, ArtifactRole::Output, dir.path.copy()).folded(dir);
    let identified = match workspace {
        Some(w) => {
            let detail = cat2("WorkspacePath ", w.as_str());
            let known = b.supported_with_reason(
                "a DerivedData project folder whose info.plist names its workspace",
            ).evidence("xcode-info-plist", detail.as_str(), Confidence::High);
            if ctx.stat(&FsPath::parse(w.as_str())).is_none() {
                let limit = cat3(
                    "the workspace this build came from is not at `",
                    w.as_str(),
                    "` now (moved, renamed or removed); its build output is still here",
                );
                known.limit(limit.as_str())
            } else {
                known
            }
        },
        None => {
            let limit = cat3(
                "`",
                name.as_str(),
                "/info.plist` is missing or names no WorkspacePath: which project built this is unknown, and not guessed from the folder name",
            );
            b.supported_with_reason("a DerivedData project folder").limit(limit.as_str())
        },
    };
    let b = identified.variant(variant_of_folder(workspace)).consequence(
        "Xcode rebuilds and re-indexes this project the next time it is built",
    );
    active_writer(b, dir, ctx.now()).build()
}

/// A unit of a folder modified shortly before the observation says that a build
/// may be writing there, and offers no action.
pub open spec fn writer_noted(u: UnitModel, dir: DirModel, observed_at: u64) -> UnitModel {
    if dir.mtime_max > 0 && observed_at >= dir.mtime_max && observed_at - dir.mtime_max <= RECENT_WRITE_SECS {
        u.limit(
            "modified "@ + decimal((observed_at - dir.mtime_max) as nat)
                + " seconds before this observation: a build may be writing here now"@,
        ).no_action_because("a build may be writing here now"@)
    } else {
        u
    }
}

pub fn active_writer(b: NestedUnitBuilder, dir: &FoldedDir, observed_at: u64) -> (r: NestedUnitBuilder)
    ensures
        r@ == writer_noted(b@, dir@, observed_at),
{
    if dir.mtime_max > 0 && observed_at >= dir.mtime_max && observed_at - dir.mtime_max <= RECENT_WRITE_SECS {
        let age = write_u64(observed_at - dir.mtime_max);
        let limit = cat3(
            "modified ",
            age.as_str(),
            " seconds before this observation: a build may be writing here now",
        );
        b.limit(limit.as_str()).no_action_because("a build may be writing here now")
    } else {
        b
    }
}

/// An active build is evidence: it withholds the action and changes nothing
/// else of what the unit is.
pub proof fn law_an_active_build_is_evidence(u: UnitModel, dir: DirModel, observed_at: u64)
    ensures
        ({
            let w = writer_noted(u, dir, observed_at);
            &&& w.same_identity(u)
            &&& w.role == u.role
            &&& w.coverage.supported == u.coverage.supported
            &&& w.bytes == u.bytes
            &&& (w == u || w.action is Unsupported)
        }),
{
    reveal(UnitModel::limit);
    reveal(UnitModel::no_action_because);
}

/// One known part of a project folder, when it was measured.
pub open spec fn folder_part(c: ContainerModel, ctx: CtxModel, folder: PathModel, v: VariantModel, p: PartModel) -> Seq<
    UnitModel,
> {
    match row_of(ctx.rows, joined_path(folder, p.name)) {
        Some(d) => seq![
            UnitModel::known_dir(c, p.role, d, "`"@ + p.name + "` holds "@ + p.what, p.consequence).variant(v),
        ],
        None => Seq::empty(),
    }
}

fn identify_folder_part(
    container: &BuildContainer,
    ctx: &BuildCtx,
    folder: &FsPath,
    v: &ArtifactVariant,
    p: &KnownPart,
) -> (r: Vec<NestedArtifact>)
    ensures
        units_view(r@) == folder_part(container@, ctx@, folder@, v@, p@),
{
    match ctx.folded().get(&folder.join(p.name)) {
        Some(d) => {
            let mut reason = cat3("`", p.name, "` holds ");
            reason.append(p.what);
            one(
                NestedUnitBuilder::known_dir(container, p.role, d, reason.as_str(), p.consequence).variant(
                    v.copy(),
                ).build(),
            )
        },
        None => no_units(),
    }
}

/// One project folder: its own unit, then its known parts, its products, its
/// test results and its package checkouts. Nothing when it was not measured.
pub open spec fn project_folder(c: ContainerModel, ctx: CtxModel, folder: PathModel) -> Seq<UnitModel> {
    match row_of(ctx.rows, folder) {
        Some(dir) => {
            let ws = workspace_of(ctx, folder);
            let v = folder_variant(ws);
            seq![folder_unit(c, ctx, dir, ws)] + flat(
                folder_parts_spec(),
                |p: PartModel| folder_part(c, ctx, folder, v, p),
            ) + products(c, ctx, folder, v.package) + test_results(c, ctx, folder, v.package) + checkouts(
                c,
                ctx,
                joined_path(folder, "SourcePackages/checkouts"@),
                joined_path(folder, "SourcePackages/workspace-state.json"@),
            )
        },
        None => Seq::empty(),
    }
}

pub fn identify_project_folder(container: &BuildContainer, ctx: &BuildCtx, folder: &FsPath) -> (r: Vec<NestedArtifact>)
    ensures
        units_view(r@) == project_folder(container@, ctx@, folder@),
{
    let dir = match ctx.folded().get(folder) {
        Some(d) => d,
        None => {
            return no_units();
        },
    };
    let workspace = match ctx.whole_manifest(&folder.join("info.plist")) {
        Some(m) => m.top_scalar("WorkspacePath"),
        None => None,
    };
    let variant = variant_of_folder(&workspace);
    let mut units = one(identify_folder(container, ctx, dir, &workspace));
    let table = folder_parts();
    let parts = each(
        &table,
        |p: &KnownPart| -> (out: Vec<NestedArtifact>)
            ensures
                units_view(out@) == folder_part(container@, ctx@, folder@, variant@, p@)
            { identify_folder_part(container, ctx, folder, &variant, p) },
        Ghost(|p: PartModel| folder_part(container@, ctx@, folder@, variant@, p)),
    );
    append_units(&mut units, parts);
    append_units(&mut units, identify_products(container, ctx, folder, &variant.package));
    append_units(&mut units, identify_test_results(container, ctx, folder, &variant.package));
    append_units(
        &mut units,
        identify_checkouts(
            container,
            ctx,
            &folder.join("SourcePackages/checkouts"),
            &folder.join("SourcePackages/workspace-state.json"),
        ),
    );
    units
}

// ---------------------------------------------------------------------
// Products
// ---------------------------------------------------------------------

/// What kind of product a name is.
pub enum ProductKind {
    Known { role: ArtifactRole, what: Seq<char>, consequence: Seq<char> },
    Unknown,
}

pub open spec fn product_kind(name: Seq<char>) -> ProductKind {
    if finishes(name, ".xctest"@) {
        ProductKind::Known {
            role: ArtifactRole::TestOutput,
            what: "a test bundle"@,
            consequence: "the next test build produces it again"@,
        }
    } else if finishes(name, ".dSYM"@) {
        ProductKind::Known {
            role: ArtifactRole::Metadata,
            what: "debug symbols for this build"@,
            consequence: "the next build writes new symbols; these match only this build's binary"@,
        }
    } else if finishes(name, ".swiftmodule"@) {
        ProductKind::Known {
            role: ArtifactRole::Intermediate,
            what: "a compiled Swift module interface"@,
            consequence: "the next build compiles it again"@,
        }
    } else if finishes(name, ".app"@) || finishes(name, ".appex"@) || finishes(name, ".framework"@) || finishes(
        name,
        ".bundle"@,
    ) || finishes(name, ".xpc"@) || finishes(name, ".docc"@) {
        ProductKind::Known {
            role: ArtifactRole::Output,
            what: "a built product"@,
            consequence: "the next build produces it again"@,
        }
    } else {
        ProductKind::Unknown
    }
}

/// The configuration and platform a products directory is named for.
pub open spec fn product_target(name: Seq<char>) -> (Seq<char>, Seq<char>) {
    match cut_first(name, '-') {
        Some(p) => p,
        None => (name, "macosx"@),
    }
}

pub open spec fn product_variant(name: Seq<char>, package: Option<Seq<char>>) -> VariantModel {
    VariantModel { package, ..no_variant() }.with_profile(product_target(name).0).with_configuration(
        product_target(name).1,
    ).unknown("build-generation"@)
}

/// One item of a products directory.
pub open spec fn product_item(c: ContainerModel, v: VariantModel, d: DirModel) -> Seq<UnitModel> {
    let name = name_of(d.path);
    match product_kind(name) {
        ProductKind::Known { role, what, consequence } => seq![
            UnitModel::known_dir(c, role, d, "`"@ + name + "` is "@ + what, consequence).variant(v.with_target(name)),
        ],
        ProductKind::Unknown => seq![
            UnitModel::unknown_dir(c, d, "`"@ + name + "` is not a product type this adapter identifies"@),
        ],
    }
}

fn identify_product_item(container: &BuildContainer, v: &ArtifactVariant, d: &FoldedDir) -> (r: Vec<NestedArtifact>)
    ensures
        units_view(r@) == product_item(container@, v@, d@),
{
    let name = d.path.name();
    let n = name.as_str();
    let (role, what, consequence): (ArtifactRole, &'static str, &'static str) = if ends(n, ".xctest") {
        (ArtifactRole::TestOutput, "a test bundle", "the next test build produces it again")
    } else if ends(n, ".dSYM") {
        (
            ArtifactRole::Metadata,
            "debug symbols for this build",
            "the next build writes new symbols; these match only this build's binary",
        )
    } else if ends(n, ".swiftmodule") {
        (
            ArtifactRole::Intermediate,
            "a compiled Swift module interface",
            "the next build compiles it again",
        )
    } else if ends(n, ".app") || ends(n, ".appex") || ends(n, ".framework") || ends(n, ".bundle") || ends(n, ".xpc")
        || ends(n, ".docc") {
        (ArtifactRole::Output, "a built product", "the next build produces it again")
    } else {
        let limit = cat3("`", n, "` is not a product type this adapter identifies");
        return one(NestedUnitBuilder::unknown_dir(container, d, limit.as_str()).build());
    };
    let mut reason = cat3("`", n, "` is ");
    reason.append(what);
    one(
        NestedUnitBuilder::known_dir(container, role, d, reason.as_str(), consequence).variant(
            v.copy().with_target(n),
        ).build(),
    )
}

/// One `<Configuration>-<platform>` directory and what is inside it.
pub open spec fn products_dir(c: ContainerModel, ctx: CtxModel, package: Option<Seq<char>>, d: DirModel) -> Seq<
    UnitModel,
> {
    let name = name_of(d.path);
    let (config, platform) = product_target(name);
    let v = product_variant(name, package);
    seq![
        UnitModel::known_dir(
            c,
            ArtifactRole::Output,
            d,
            "`Build/Products/"@ + name + "` holds the "@ + config + " products for "@ + platform,
            "the next "@ + config + " build for "@ + platform + " produces them again"@,
        ).variant(v),
    ] + flat(child_rows(ctx.rows, d.path), |item: DirModel| product_item(c, v, item))
}

fn identify_products_dir(container: &BuildContainer, ctx: &BuildCtx, package: &Option<String>, d: &FoldedDir) -> (r:
    Vec<NestedArtifact>)
    ensures
        units_view(r@) == products_dir(container@, ctx@, opt_text(*package), d@),
{
    let name = d.path.name();
    let (config, platform): (String, String) = match split_first(name.as_str(), '-') {
        Some(p) => p,
        None => (name.clone(), "macosx".to_owned()),
    };
    let mut v = ArtifactVariant::none();
    v.package = crate::text::copy_opt(package);
    let v = v.with_profile(config.as_str()).with_configuration(platform.as_str()).unknown("build-generation");
    let reason = crate::text::cat6(
        "`Build/Products/",
        name.as_str(),
        "` holds the ",
        config.as_str(),
        " products for ",
        platform.as_str(),
    );
    let consequence = cat5(
        "the next ",
        config.as_str(),
        " build for ",
        platform.as_str(),
        " produces them again",
    );
    let mut units = one(
        NestedUnitBuilder::known_dir(
            container,
            ArtifactRole::Output,
            d,
            reason.as_str(),
            consequence.as_str(),
        ).variant(v.copy()).build(),
    );
    let items = ctx.folded().children(&d.path);
    let more = each_dir(
        &items,
        |item: &FoldedDir| -> (out: Vec<NestedArtifact>)
            ensures
                units_view(out@) == product_item(container@, v@, item@)
            { identify_product_item(container, &v, item) },
        Ghost(|item: DirModel| product_item(container@, v@, item)),
    );
    append_units(&mut units, more);
    units
}

pub open spec fn products(c: ContainerModel, ctx: CtxModel, folder: PathModel, package: Option<Seq<char>>) -> Seq<
    UnitModel,
> {
    flat(
        child_rows(ctx.rows, joined_path(folder, "Build/Products"@)),
        |d: DirModel| products_dir(c, ctx, package, d),
    )
}

pub fn identify_products(container: &BuildContainer, ctx: &BuildCtx, folder: &FsPath, package: &Option<String>) -> (r:
    Vec<NestedArtifact>)
    ensures
        units_view(r@) == products(container@, ctx@, folder@, opt_text(*package)),
{
    let dirs = ctx.folded().children(&folder.join("Build/Products"));
    each_dir(
        &dirs,
        |d: &FoldedDir| -> (out: Vec<NestedArtifact>)
            ensures
                units_view(out@) == products_dir(container@, ctx@, opt_text(*package), d@)
            { identify_products_dir(container, ctx, package, d) },
        Ghost(|d: DirModel| products_dir(container@, ctx@, opt_text(*package), d)),
    )
}

// ---------------------------------------------------------------------
// Test results
// ---------------------------------------------------------------------

pub open spec fn test_result(c: ContainerModel, package: Option<Seq<char>>, d: DirModel) -> Seq<UnitModel> {
    let name = name_of(d.path);
    if finishes(name, ".xcresult"@) {
        seq![
            UnitModel::known_dir(
                c,
                ArtifactRole::TestOutput,
                d,
                "an `.xcresult` bundle: one test run's results, logs and attachments"@,
                "these results are gone; a test rerun produces new ones, not these"@,
            ).variant(VariantModel { package, ..no_variant() }.with_target(name)),
        ]
    } else {
        seq![UnitModel::unknown_dir(c, d, "`Logs/Test/"@ + name + "` is not an .xcresult bundle"@)]
    }
}

fn identify_test_result(container: &BuildContainer, package: &Option<String>, d: &FoldedDir) -> (r: Vec<NestedArtifact>)
    ensures
        units_view(r@) == test_result(container@, opt_text(*package), d@),
{
    let name = d.path.name();
    if ends(name.as_str(), ".xcresult") {
        let mut v = ArtifactVariant::none();
        v.package = crate::text::copy_opt(package);
        one(
            NestedUnitBuilder::known_dir(
                container,
                ArtifactRole::TestOutput,
                d,
                "an `.xcresult` bundle: one test run's results, logs and attachments",
                "these results are gone; a test rerun produces new ones, not these",
            ).variant(v.with_target(name.as_str())).build(),
        )
    } else {
        let limit = cat3("`Logs/Test/", name.as_str(), "` is not an .xcresult bundle");
        one(NestedUnitBuilder::unknown_dir(container, d, limit.as_str()).build())
    }
}

/// One unit per entry of `Logs/Test`.
pub open spec fn test_results(c: ContainerModel, ctx: CtxModel, folder: PathModel, package: Option<Seq<char>>) -> Seq<
    UnitModel,
> {
    flat(
        child_rows(ctx.rows, joined_path(folder, "Logs/Test"@)),
        |d: DirModel| test_result(c, package, d),
    )
}

pub fn identify_test_results(
    container: &BuildContainer,
    ctx: &BuildCtx,
    folder: &FsPath,
    package: &Option<String>,
) -> (r: Vec<NestedArtifact>)
    ensures
        units_view(r@) == test_results(container@, ctx@, folder@, opt_text(*package)),
{
    let dirs = ctx.folded().children(&folder.join("Logs/Test"));
    each_dir(
        &dirs,
        |d: &FoldedDir| -> (out: Vec<NestedArtifact>)
            ensures
                units_view(out@) == test_result(container@, opt_text(*package), d@)
            { identify_test_result(container, package, d) },
        Ghost(|d: DirModel| test_result(container@, opt_text(*package), d)),
    )
}

// ---------------------------------------------------------------------
// Package checkouts
// ---------------------------------------------------------------------

/// The dependencies a workspace state lists.
pub open spec fn state_dependencies(state: Option<JsonModel>) -> Seq<JsonModel> {
    match state {
        Some(n) => match get2(n, "object"@, "dependencies"@) {
            Some(d) => match d.as_list() {
                Some(list) => list,
                None => Seq::empty(),
            },
            None => Seq::empty(),
        },
        None => Seq::empty(),
    }
}

pub open spec fn dependency_identity(d: JsonModel) -> Option<Seq<char>> {
    text_under(get2(d, "packageRef"@, "identity"@))
}

/// Where a dependency is checked out: where it says, or under its identity.
pub open spec fn dependency_subpath(d: JsonModel) -> Option<Seq<char>> {
    match text_under(d.get("subpath"@)) {
        Some(s) => Some(s),
        None => dependency_identity(d),
    }
}

/// The version a dependency is checked out at, or else the revision.
pub open spec fn dependency_version(d: JsonModel) -> Option<Seq<char>> {
    match get2(d, "state"@, "checkoutState"@) {
        Some(s) => match text_under(s.get("version"@)) {
            Some(v) => Some(v),
            None => text_under(s.get("revision"@)),
        },
        None => None,
    }
}

/// What the first `n` dependencies say of the checkout `name`: the last one
/// with an identity and that place decides.
pub open spec fn checkout_among(deps: Seq<JsonModel>, name: Seq<char>, n: int) -> Option<
    (Seq<char>, Option<Seq<char>>),
>
    decreases n,
{
    if n <= 0 {
        None
    } else {
        let d = deps[n - 1];
        match dependency_identity(d) {
            Some(identity) => if dependency_subpath(d) == Some(name) {
                Some((identity, dependency_version(d)))
            } else {
                checkout_among(deps, name, n - 1)
            },
            None => checkout_among(deps, name, n - 1),
        }
    }
}

/// The identity and version a workspace state gives the checkout `name`.
pub open spec fn checkout_in(state: Option<JsonModel>, name: Seq<char>) -> Option<(Seq<char>, Option<Seq<char>>)> {
    let deps = state_dependencies(state);
    checkout_among(deps, name, deps.len() as int)
}

pub open spec fn checkout_text(o: Option<(String, Option<String>)>) -> Option<(Seq<char>, Option<Seq<char>>)> {
    match o {
        Some(p) => Some((p.0@, opt_text(p.1))),
        None => None,
    }
}

fn version_of(d: &JsonNode) -> (r: Option<String>)
    ensures
        opt_text(r) == dependency_version(d@),
{
    match get_nested(d, "state", "checkoutState") {
        Some(s) => match text_of_node(s.get("version")) {
            Some(v) => Some(v),
            None => text_of_node(s.get("revision")),
        },
        None => None,
    }
}

fn subpath_of(d: &JsonNode) -> (r: Option<String>)
    ensures
        opt_text(r) == dependency_subpath(d@),
{
    match text_of_node(d.get("subpath")) {
        Some(s) => Some(s),
        None => text_of_node(get_nested(d, "packageRef", "identity")),
    }
}

/// The identity and version a workspace state gives the checkout `name`.
pub fn checkout_identity(state: &Option<JsonNode>, name: &str) -> (r: Option<(String, Option<String>)>)
    ensures
        checkout_text(r) == checkout_in(read_as(*state), name@),
{
    let root = match state {
        Some(n) => n,
        None => {
            return None;
        },
    };
    let deps = match get_nested(root, "object", "dependencies") {
        Some(d) => match d.as_list() {
            Some(list) => list,
            None => {
                return None;
            },
        },
        None => {
            return None;
        },
    };
    let ghost all = json_models(deps@);
    proof {
        lemma_json_models(deps@);
    }
    let mut n: usize = deps.len();
    while n > 0
        invariant
            n <= deps@.len(),
            forall|k: int| 0 <= k < deps@.len() ==> #[trigger] all[k] == deps@[k]@,
            checkout_in(read_as(*state), name@) == checkout_among(all, name@, n as int),
        decreases n,
    {
        let d = &deps[n - 1];
        assert(all[n - 1] == d@);
        match text_of_node(get_nested(d, "packageRef", "identity")) {
            Some(identity) => {
                let here = match subpath_of(d) {
                    Some(s) => same(s.as_str(), name),
                    None => false,
                };
                if here {
                    return Some((identity, version_of(d)));
                }
            },
            None => {},
        }
        n -= 1;
    }
    None
}

/// One Swift package checkout, named only by what the state file says of it.
pub open spec fn checkout_unit(
    c: ContainerModel,
    d: DirModel,
    state_read: bool,
    found: Option<(Seq<char>, Option<Seq<char>>)>,
) -> UnitModel {
    let b = UnitModel::known_dir(
        c,
        ArtifactRole::InstalledDependencies,
        d,
        "a Swift package checkout"@,
        "the package is checked out again on the next resolve -- needs access to its repository"@,
    );
    match found {
        Some((identity, version)) => b.evidence(
            "swiftpm-workspace-state"@,
            identity + " "@ + (match version {
                Some(v) => v,
                None => "(unpinned)"@,
            }),
            Confidence::High,
        ).variant(VariantModel { package: Some(identity), version, ..no_variant() }),
        None => b.limit(
            if state_read {
                "workspace-state.json does not describe this checkout; its identity is not guessed from the directory name"@
            } else {
                "workspace-state.json is missing or unreadable: the checkout's identity is unknown"@
            },
        ).variant(no_variant().unknown("package"@).unknown("version"@)),
    }
}

pub fn identify_checkout(
    container: &BuildContainer,
    d: &FoldedDir,
    state_read: bool,
    found: Option<(String, Option<String>)>,
) -> (r: NestedArtifact)
    ensures
        r@ == checkout_unit(container@, d@, state_read, checkout_text(found)),
{
    let b = NestedUnitBuilder::known_dir(
        container,
        ArtifactRole::InstalledDependencies,
        d,
        "a Swift package checkout",
        "the package is checked out again on the next resolve -- needs access to its repository",
    );
    match found {
        Some((identity, version)) => {
            let pinned = match &version {
                Some(v) => v.as_str(),
                None => "(unpinned)",
            };
            let detail = cat3(identity.as_str(), " ", pinned);
            let b = b.evidence("swiftpm-workspace-state", detail.as_str(), Confidence::High);
            let mut v = ArtifactVariant::none();
            v.package = Some(identity);
            v.version = version;
            b.variant(v).build()
        },
        None => {
            let limit = if state_read {
                "workspace-state.json does not describe this checkout; its identity is not guessed from the directory name"
            } else {
                "workspace-state.json is missing or unreadable: the checkout's identity is unknown"
            };
            b.limit(limit).variant(ArtifactVariant::none().unknown("package").unknown("version")).build()
        },
    }
}

/// What a workspace state file reads as.
pub open spec fn state_of(m: Option<ManifestModel>) -> Option<JsonModel> {
    match m {
        Some(m) => parsed_json(m.text),
        None => None,
    }
}

/// Swift package checkouts, with identity and version from the workspace state.
pub open spec fn checkouts(c: ContainerModel, ctx: CtxModel, dir: PathModel, state_file: PathModel) -> Seq<UnitModel> {
    let m = whole_manifest_of(ctx.facts, state_file);
    flat(
        child_rows(ctx.rows, dir),
        |d: DirModel| seq![checkout_unit(c, d, m is Some, checkout_in(state_of(m), name_of(d.path)))],
    )
}

pub fn identify_checkouts(container: &BuildContainer, ctx: &BuildCtx, dir: &FsPath, state_file: &FsPath) -> (r: Vec<
    NestedArtifact,
>)
    ensures
        units_view(r@) == checkouts(container@, ctx@, dir@, state_file@),
{
    let dirs = ctx.folded().children(dir);
    let m = ctx.whole_manifest(state_file);
    let read = m.is_some();
    let state = match m {
        Some(m) => parse_json(m.text.as_str()),
        None => None,
    };
    let ghost file = whole_manifest_of(ctx@.facts, state_file@);
    each_dir(
        &dirs,
        |d: &FoldedDir| -> (out: Vec<NestedArtifact>)
            ensures
                units_view(out@) == seq![
                    checkout_unit(container@, d@, file is Some, checkout_in(state_of(file), name_of(d@.path))),
                ]
            {
                let name = d.path.name();
                one(identify_checkout(container, d, read, checkout_identity(&state, name.as_str())))
            },
        Ghost(
            |d: DirModel|
                seq![checkout_unit(container@, d, file is Some, checkout_in(state_of(file), name_of(d.path)))],
        ),
    )
}

// ---------------------------------------------------------------------
// SwiftPM
// ---------------------------------------------------------------------

/// The `.build` directory's own unit.
pub open spec fn swiftpm_root(c: ContainerModel, ctx: CtxModel) -> UnitModel {
    let b = UnitModel::container_root(c, ctx, ArtifactRole::Output).supported("SwiftPM's `.build/` directory"@).consequence(
        "the next `swift build` rebuilds it and resolves dependencies again"@,
    );
    let lock = joined_path(c.path, ".lock"@);
    let locked = if stat_of(ctx.facts, lock) is Some {
        b.writer_lock(lock, "SwiftPM"@)
    } else {
        b
    };
    match row_of(ctx.rows, c.path) {
        Some(d) => writer_noted(locked, d, ctx.observed_at),
        None => locked,
    }
}

fn identify_swiftpm_root(container: &BuildContainer, ctx: &BuildCtx) -> (r: NestedArtifact)
    ensures
        r@ == swiftpm_root(container@, ctx@),
{
    let b = NestedUnitBuilder::container_root(container, ctx, ArtifactRole::Output).supported_with_reason(
        "SwiftPM's `.build/` directory",
    ).consequence("the next `swift build` rebuilds it and resolves dependencies again");
    let lock = container.path.join(".lock");
    let locked = if ctx.stat(&lock).is_some() {
        b.writer_lock(lock, "SwiftPM")
    } else {
        b
    };
    match ctx.folded().get(&container.path) {
        Some(d) => active_writer(locked, d, ctx.now()).build(),
        None => locked.build(),
    }
}

pub open spec fn is_config(d: DirModel) -> bool {
    name_of(d.path) == "debug"@ || name_of(d.path) == "release"@
}

pub open spec fn has_config(rows: Seq<DirModel>) -> bool {
    exists|i: int| 0 <= i < rows.len() && is_config(#[trigger] rows[i])
}

fn any_config(dirs: &Vec<&FoldedDir>) -> (r: bool)
    ensures
        r == has_config(dir_refs(dirs@)),
{
    let mut i: usize = 0;
    while i < dirs.len()
        invariant
            i <= dirs@.len(),
            forall|k: int| 0 <= k < i ==> !is_config(#[trigger] dir_refs(dirs@)[k]),
        decreases dirs@.len() - i,
    {
        let name = dirs[i].path.name();
        assert(dir_refs(dirs@)[i as int] == dirs@[i as int]@);
        if same(name.as_str(), "debug") || same(name.as_str(), "release") {
            assert(is_config(dir_refs(dirs@)[i as int]));
            return true;
        }
        i += 1;
    }
    false
}

/// One `<triple>/<configuration>` directory.
pub open spec fn triple_config(c: ContainerModel, triple: Seq<char>, d: DirModel) -> Seq<UnitModel> {
    let config = name_of(d.path);
    if is_config(d) {
        seq![
            UnitModel::known_dir(
                c,
                ArtifactRole::Output,
                d,
                "`.build/"@ + triple + "/"@ + config + "` holds the "@ + config + " build for "@ + triple,
                "the next `swift build -c "@ + config + "` rebuilds it"@,
            ).variant(
                no_variant().with_profile(config).with_target(triple).with_architecture(
                    first_piece(triple, '-'),
                ).unknown("build-generation"@),
            ),
        ]
    } else {
        Seq::empty()
    }
}

fn identify_triple_config(container: &BuildContainer, triple: &str, d: &FoldedDir) -> (r: Vec<NestedArtifact>)
    ensures
        units_view(r@) == triple_config(container@, triple@, d@),
{
    let config = d.path.name();
    if same(config.as_str(), "debug") || same(config.as_str(), "release") {
        let reason = cat8(
            "`.build/",
            triple,
            "/",
            config.as_str(),
            "` holds the ",
            config.as_str(),
            " build for ",
            triple,
        );
        let consequence = cat3("the next `swift build -c ", config.as_str(), "` rebuilds it");
        let arch = piece_before(triple, '-');
        one(
            NestedUnitBuilder::known_dir(
                container,
                ArtifactRole::Output,
                d,
                reason.as_str(),
                consequence.as_str(),
            ).variant(
                ArtifactVariant::none().with_profile(config.as_str()).with_target(triple).with_architecture(
                    arch.as_str(),
                ).unknown("build-generation"),
            ).build(),
        )
    } else {
        no_units()
    }
}

/// One directory of `.build`.
pub open spec fn swiftpm_child(c: ContainerModel, ctx: CtxModel, d: DirModel) -> Seq<UnitModel> {
    let name = name_of(d.path);
    let inside = child_rows(ctx.rows, d.path);
    if name == "checkouts"@ {
        checkouts(c, ctx, d.path, joined_path(c.path, "workspace-state.json"@))
    } else if name == "repositories"@ {
        seq![
            UnitModel::known_dir(
                c,
                ArtifactRole::Intermediate,
                d,
                "`.build/repositories` holds bare clones of dependency repositories"@,
                "SwiftPM clones them again -- needs access to them"@,
            ),
        ]
    } else if name == "artifacts"@ {
        seq![
            UnitModel::known_dir(
                c,
                ArtifactRole::InstalledDependencies,
                d,
                "`.build/artifacts` holds downloaded binary targets"@,
                "SwiftPM downloads them again -- needs network access"@,
            ),
        ]
    } else if name == "plugins"@ || name == "index-build"@ || name == "prebuilts"@ {
        seq![
            UnitModel::known_dir(
                c,
                ArtifactRole::Intermediate,
                d,
                "`.build/"@ + name + "` is SwiftPM's own build state"@,
                "SwiftPM regenerates it on the next build"@,
            ),
        ]
    } else if name.contains('-') && has_config(inside) {
        flat(inside, |x: DirModel| triple_config(c, name, x))
    } else {
        seq![
            UnitModel::unknown_dir(
                c,
                d,
                "`.build/"@ + name + "` is not a SwiftPM directory this adapter identifies"@,
            ),
        ]
    }
}

fn identify_swiftpm_child(container: &BuildContainer, ctx: &BuildCtx, d: &FoldedDir) -> (r: Vec<NestedArtifact>)
    ensures
        units_view(r@) == swiftpm_child(container@, ctx@, d@),
{
    let owned = d.path.name();
    let name = owned.as_str();
    if same(name, "checkouts") {
        identify_checkouts(container, ctx, &d.path, &container.path.join("workspace-state.json"))
    } else if same(name, "repositories") {
        one(
            NestedUnitBuilder::known_dir(
                container,
                ArtifactRole::Intermediate,
                d,
                "`.build/repositories` holds bare clones of dependency repositories",
                "SwiftPM clones them again -- needs access to them",
            ).build(),
        )
    } else if same(name, "artifacts") {
        one(
            NestedUnitBuilder::known_dir(
                container,
                ArtifactRole::InstalledDependencies,
                d,
                "`.build/artifacts` holds downloaded binary targets",
                "SwiftPM downloads them again -- needs network access",
            ).build(),
        )
    } else if same(name, "plugins") || same(name, "index-build") || same(name, "prebuilts") {
        let reason = cat3("`.build/", name, "` is SwiftPM's own build state");
        one(
            NestedUnitBuilder::known_dir(
                container,
                ArtifactRole::Intermediate,
                d,
                reason.as_str(),
                "SwiftPM regenerates it on the next build",
            ).build(),
        )
    } else {
        let inside = ctx.folded().children(&d.path);
        if has_char(name, '-') && any_config(&inside) {
            each_dir(
                &inside,
                |x: &FoldedDir| -> (out: Vec<NestedArtifact>)
                    ensures
                        units_view(out@) == triple_config(container@, name@, x@)
                    { identify_triple_config(container, name, x) },
                Ghost(|x: DirModel| triple_config(container@, name@, x)),
            )
        } else {
            let limit = cat3("`.build/", name, "` is not a SwiftPM directory this adapter identifies");
            one(NestedUnitBuilder::unknown_dir(container, d, limit.as_str()).build())
        }
    }
}

/// SwiftPM's `.build`: per-triple, per-configuration outputs, the dependency
/// checkouts, and the lock SwiftPM holds while it runs.
pub open spec fn swiftpm(c: ContainerModel, ctx: CtxModel) -> Seq<UnitModel> {
    seq![swiftpm_root(c, ctx)] + flat(child_rows(ctx.rows, c.path), |d: DirModel| swiftpm_child(c, ctx, d))
}

pub fn identify_swiftpm(container: &BuildContainer, ctx: &BuildCtx) -> (r: Vec<NestedArtifact>)
    ensures
        units_view(r@) == swiftpm(container@, ctx@),
{
    let mut units = one(identify_swiftpm_root(container, ctx));
    let dirs = ctx.folded().children(&container.path);
    let more = each_dir(
        &dirs,
        |d: &FoldedDir| -> (out: Vec<NestedArtifact>)
            ensures
                units_view(out@) == swiftpm_child(container@, ctx@, d@)
            { identify_swiftpm_child(container, ctx, d) },
        Ghost(|d: DirModel| swiftpm_child(container@, ctx@, d)),
    );
    append_units(&mut units, more);
    units
}

// ---------------------------------------------------------------------
// Stores that are not build output
// ---------------------------------------------------------------------

pub open spec fn store_root_unit(
    c: ContainerModel,
    ctx: CtxModel,
    role: ArtifactRole,
    what: Seq<char>,
    consequence: Seq<char>,
    why_no_action: Seq<char>,
) -> UnitModel {
    UnitModel::container_root(c, ctx, role).supported(what).membership(Membership::Unknown).consequence(
        consequence,
    ).no_action_because(why_no_action)
}

pub fn store_root(
    container: &BuildContainer,
    ctx: &BuildCtx,
    role: ArtifactRole,
    what: &str,
    consequence: &str,
    why_no_action: &str,
) -> (r: NestedArtifact)
    ensures
        r@ == store_root_unit(container@, ctx@, role, what@, consequence@, why_no_action@),
{
    NestedUnitBuilder::container_root(container, ctx, role).supported_with_reason(what).membership(
        Membership::Unknown,
    ).consequence(consequence).no_action_because(why_no_action).build()
}

/// What one archive's `Info.plist` says of it.
pub open spec fn archive_variant(m: Option<ManifestModel>) -> VariantModel {
    match m {
        Some(m) => VariantModel {
            package: m.scalar(seq!["Name"@]),
            version: m.scalar(seq!["ApplicationProperties"@, "CFBundleShortVersionString"@]),
            target: m.scalar(seq!["ApplicationProperties"@, "CFBundleIdentifier"@]),
            ..no_variant()
        },
        None => no_variant(),
    }
}

fn variant_of_archive(m: Option<&Manifest>) -> (r: ArtifactVariant)
    ensures
        r@ == archive_variant(opt_manifest_ref(m)),
{
    let mut v = ArtifactVariant::none();
    match m {
        Some(m) => {
            v.package = m.top_scalar("Name");
            v.version = m.nested_scalar("ApplicationProperties", "CFBundleShortVersionString");
            v.target = m.nested_scalar("ApplicationProperties", "CFBundleIdentifier");
        },
        None => {},
    }
    v
}

/// One entry of an archive day, when `read` archives came before it.
pub open spec fn archive_unit(c: ContainerModel, ctx: CtxModel, d: DirModel, read: int) -> UnitModel {
    if !finishes(name_of(d.path), ".xcarchive"@) {
        UnitModel::unknown_dir(c, d, "`"@ + relative(c.path, d.path) + "` is not an .xcarchive"@)
    } else {
        let b = UnitModel::known_dir(
            c,
            ArtifactRole::Archive,
            d,
            "an Xcode archive"@,
            "this archived build and its symbols are not regenerated by anything; a rebuild makes a different binary"@,
        ).no_action_because("an archive may be the only copy of a released build's symbols"@);
        if read < ARCHIVE_BUDGET {
            let v = archive_variant(whole_manifest_of(ctx.facts, joined_path(d.path, "Info.plist"@)));
            if v.package is None {
                b.limit("the archive's Info.plist is missing or names no Name"@).variant(v.unknown("package"@))
            } else {
                b.variant(v)
            }
        } else {
            b.limit(
                "identity not read: only "@ + decimal(ARCHIVE_BUDGET as nat) + " archives get an Info.plist read"@,
            ).variant(no_variant().unknown("package"@))
        }
    }
}

/// How many of the first `n` entries had their `Info.plist` read.
pub open spec fn archives_read(entries: Seq<DirModel>, n: int) -> int
    decreases n,
{
    if n <= 0 {
        0
    } else {
        let before = archives_read(entries, n - 1);
        if finishes(name_of(entries[n - 1].path), ".xcarchive"@) && before < ARCHIVE_BUDGET {
            before + 1
        } else {
            before
        }
    }
}

fn identify_archive(container: &BuildContainer, ctx: &BuildCtx, d: &FoldedDir, read: usize) -> (r: NestedArtifact)
    ensures
        r@ == archive_unit(container@, ctx@, d@, read as int),
{
    let name = d.path.name();
    if !ends(name.as_str(), ".xcarchive") {
        let rel = relative_path(&container.path, &d.path);
        let limit = cat3("`", rel.as_str(), "` is not an .xcarchive");
        return NestedUnitBuilder::unknown_dir(container, d, limit.as_str()).build();
    }
    let b = NestedUnitBuilder::known_dir(
        container,
        ArtifactRole::Archive,
        d,
        "an Xcode archive",
        "this archived build and its symbols are not regenerated by anything; a rebuild makes a different binary",
    ).no_action_because("an archive may be the only copy of a released build's symbols");
    if read < ARCHIVE_BUDGET {
        let v = variant_of_archive(ctx.whole_manifest(&d.path.join("Info.plist")));
        if v.package.is_none() {
            b.limit("the archive's Info.plist is missing or names no Name").variant(v.unknown("package")).build()
        } else {
            b.variant(v).build()
        }
    } else {
        let budget = write_u64(ARCHIVE_BUDGET as u64);
        let limit = cat3("identity not read: only ", budget.as_str(), " archives get an Info.plist read");
        b.limit(limit.as_str()).variant(ArtifactVariant::none().unknown("package")).build()
    }
}

/// The entries of every archive day, in order.
pub open spec fn archive_entries(rows: Seq<DirModel>, days: Seq<DirModel>) -> Seq<DirModel>
    decreases days.len(),
{
    if days.len() == 0 {
        Seq::empty()
    } else {
        archive_entries(rows, days.drop_last()) + child_rows(rows, days.last().path)
    }
}

/// The units of the first `n` entries.
pub open spec fn archive_units(c: ContainerModel, ctx: CtxModel, entries: Seq<DirModel>, n: int) -> Seq<UnitModel>
    decreases n,
{
    if n <= 0 {
        Seq::empty()
    } else {
        archive_units(c, ctx, entries, n - 1).push(
            archive_unit(c, ctx, entries[n - 1], archives_read(entries, n - 1)),
        )
    }
}

/// `Archives/<date>/*.xcarchive`: retained releases, named by their own
/// `Info.plist`.
pub open spec fn archives(c: ContainerModel, ctx: CtxModel) -> Seq<UnitModel> {
    let entries = archive_entries(ctx.rows, child_rows(ctx.rows, c.path));
    seq![
        store_root_unit(
            c,
            ctx,
            ArtifactRole::Archive,
            "Xcode's archives: builds a person archived for distribution"@,
            "an archive holds the exact binary and debug symbols that were distributed; a rebuild makes a different binary, and these symbols may be the only ones for that release"@,
            "an archive may be the only copy of a released build's symbols"@,
        ),
    ] + archive_units(c, ctx, entries, entries.len() as int)
}

pub fn identify_archives(container: &BuildContainer, ctx: &BuildCtx) -> (r: Vec<NestedArtifact>)
    ensures
        units_view(r@) == archives(container@, ctx@),
{
    let mut units = one(
        store_root(
            container,
            ctx,
            ArtifactRole::Archive,
            "Xcode's archives: builds a person archived for distribution",
            "an archive holds the exact binary and debug symbols that were distributed; a rebuild makes a different binary, and these symbols may be the only ones for that release",
            "an archive may be the only copy of a released build's symbols",
        ),
    );
    let ghost root = units_view(units@);
    let days = ctx.folded().children(&container.path);
    let ghost rows = dir_refs(days@);
    let mut entries: Vec<&FoldedDir> = Vec::new();
    let mut i: usize = 0;
    assert(dir_refs(entries@) =~= archive_entries(ctx@.rows, rows.take(0)));
    while i < days.len()
        invariant
            i <= days@.len(),
            rows == dir_refs(days@),
            dir_refs(entries@) == archive_entries(ctx@.rows, rows.take(i as int)),
        decreases days@.len() - i,
    {
        let ghost prior = entries@;
        let mut inside = ctx.folded().children(&days[i].path);
        let ghost more = inside@;
        entries.append(&mut inside);
        assert(dir_refs(entries@) =~= dir_refs(prior) + dir_refs(more));
        assert(rows.take(i + 1).drop_last() =~= rows.take(i as int));
        assert(rows[i as int] == days@[i as int]@);
        i += 1;
    }
    assert(rows.take(i as int) =~= rows);
    let ghost es = dir_refs(entries@);
    let mut read: usize = 0;
    let mut k: usize = 0;
    assert(units_view(units@) =~= root + archive_units(container@, ctx@, es, 0));
    while k < entries.len()
        invariant
            k <= entries@.len(),
            es == dir_refs(entries@),
            read == archives_read(es, k as int),
            read <= ARCHIVE_BUDGET,
            units_view(units@) == root + archive_units(container@, ctx@, es, k as int),
        decreases entries@.len() - k,
    {
        let d = entries[k];
        assert(es[k as int] == d@);
        let ghost prior = units_view(units@);
        push_unit(&mut units, identify_archive(container, ctx, d, read));
        let name = d.path.name();
        if ends(name.as_str(), ".xcarchive") && read < ARCHIVE_BUDGET {
            read += 1;
        }
        assert(units_view(units@) =~= root + archive_units(container@, ctx@, es, k + 1));
        k += 1;
    }
    units
}

/// Whether a word is a device OS version: a digit first and a dot somewhere.
pub open spec fn versioned_word(w: Seq<char>) -> bool {
    w.len() > 0 && is_digit(w[0]) && w.contains('.')
}

/// The first such word, from place `i` on.
pub open spec fn version_word(ws: Seq<Seq<char>>, i: int) -> Option<Seq<char>>
    decreases ws.len() - i,
{
    if i < 0 || i >= ws.len() {
        None
    } else if versioned_word(ws[i]) {
        Some(ws[i])
    } else {
        version_word(ws, i + 1)
    }
}

/// What stands in the first pair of brackets.
pub open spec fn bracketed(s: Seq<char>) -> Option<Seq<char>> {
    match cut_first(s, '(') {
        Some((_, rest)) => match cut_first(rest, ')') {
            Some((b, _)) => Some(b),
            None => None,
        },
        None => None,
    }
}

fn find_version_word(name: &str) -> (r: Option<String>)
    ensures
        opt_text(r) == version_word(words(name@), 0),
{
    let ws = split_words(name);
    let mut i: usize = 0;
    while i < ws.len()
        invariant
            i <= ws@.len(),
            texts(ws@) == words(name@),
            version_word(words(name@), 0) == version_word(words(name@), i as int),
        decreases ws@.len() - i,
    {
        let w = ws[i].as_str();
        assert(words(name@)[i as int] == w@);
        let v = crate::text::chars_of(w);
        if v.len() > 0 && char_is_digit(v[0]) && has_char(w, '.') {
            return Some(w.to_owned());
        }
        i += 1;
    }
    None
}

fn find_bracketed(name: &str) -> (r: Option<String>)
    ensures
        opt_text(r) == bracketed(name@),
{
    match split_first(name, '(') {
        Some(p) => match split_first(p.1.as_str(), ')') {
            Some(b) => Some(b.0),
            None => None,
        },
        None => None,
    }
}

pub open spec fn device_support_dir(c: ContainerModel, d: DirModel) -> Seq<UnitModel> {
    let name = name_of(d.path);
    match version_word(words(name), 0) {
        Some(ver) => seq![
            UnitModel::known_dir(
                c,
                ArtifactRole::Installation,
                d,
                "`"@ + name + "` holds the symbols of one device OS version"@,
                "Xcode copies these again the next time such a device is connected"@,
            ).variant(VariantModel { toolchain: Some(ver), version: bracketed(name), ..no_variant() }),
        ],
        None => seq![UnitModel::unknown_dir(c, d, "`"@ + name + "` is not named `<version> (<build>)`"@)],
    }
}

fn identify_device_support_dir(container: &BuildContainer, d: &FoldedDir) -> (r: Vec<NestedArtifact>)
    ensures
        units_view(r@) == device_support_dir(container@, d@),
{
    let name = d.path.name();
    match find_version_word(name.as_str()) {
        Some(ver) => {
            let reason = cat3("`", name.as_str(), "` holds the symbols of one device OS version");
            let mut v = ArtifactVariant::none();
            v.toolchain = Some(ver);
            v.version = find_bracketed(name.as_str());
            one(
                NestedUnitBuilder::known_dir(
                    container,
                    ArtifactRole::Installation,
                    d,
                    reason.as_str(),
                    "Xcode copies these again the next time such a device is connected",
                ).variant(v).build(),
            )
        },
        None => {
            let limit = cat3("`", name.as_str(), "` is not named `<version> (<build>)`");
            one(NestedUnitBuilder::unknown_dir(container, d, limit.as_str()).build())
        },
    }
}

/// `iOS DeviceSupport/<version (build)>`: symbols copied from a connected
/// device, by OS version.
pub open spec fn device_support(c: ContainerModel, ctx: CtxModel) -> Seq<UnitModel> {
    seq![
        store_root_unit(
            c,
            ctx,
            ArtifactRole::Installation,
            "device support: OS symbols Xcode copied from connected devices"@,
            "Xcode copies the symbols again the next time a device on that OS version is connected -- needs the device"@,
            "device support is shared by every project debugging on that OS version"@,
        ),
    ] + flat(child_rows(ctx.rows, c.path), |d: DirModel| device_support_dir(c, d))
}

pub fn identify_device_support(container: &BuildContainer, ctx: &BuildCtx) -> (r: Vec<NestedArtifact>)
    ensures
        units_view(r@) == device_support(container@, ctx@),
{
    let mut units = one(
        store_root(
            container,
            ctx,
            ArtifactRole::Installation,
            "device support: OS symbols Xcode copied from connected devices",
            "Xcode copies the symbols again the next time a device on that OS version is connected -- needs the device",
            "device support is shared by every project debugging on that OS version",
        ),
    );
    let dirs = ctx.folded().children(&container.path);
    let more = each_dir(
        &dirs,
        |d: &FoldedDir| -> (out: Vec<NestedArtifact>)
            ensures
                units_view(out@) == device_support_dir(container@, d@)
            { identify_device_support_dir(container, d) },
        Ghost(|d: DirModel| device_support_dir(container@, d)),
    );
    append_units(&mut units, more);
    units
}

/// One simulator device, from its `device.plist`.
pub open spec fn device_unit(c: ContainerModel, d: DirModel, m: Option<ManifestModel>) -> Seq<UnitModel> {
    let udid = name_of(d.path);
    match m {
        None => seq![
            UnitModel::unknown_dir(
                c,
                d,
                "`"@ + udid + "` has no readable device.plist: not identified as a device"@,
            ),
        ],
        Some(m) => {
            let b = UnitModel::known_dir(
                c,
                ArtifactRole::DeviceState,
                d,
                "a simulator device, identified by its device.plist"@,
                "this device's apps and data are gone; a recreated device starts empty"@,
            ).variant(
                VariantModel {
                    configuration: m.scalar(seq!["name"@]),
                    toolchain: match m.scalar(seq!["runtime"@]) {
                        Some(rt) => Some(last_piece(rt, '.')),
                        None => None,
                    },
                    target: Some(udid),
                    ..no_variant()
                },
            ).no_action_because("a simulator device holds data nothing regenerates"@);
            if m.scalar(seq!["state"@]) == Some("3"@) {
                seq![b.limit("device.plist records this device as booted: it may be running now"@)]
            } else {
                seq![b]
            }
        },
    }
}

fn identify_device(container: &BuildContainer, d: &FoldedDir, m: Option<&Manifest>) -> (r: Vec<NestedArtifact>)
    ensures
        units_view(r@) == device_unit(container@, d@, opt_manifest_ref(m)),
{
    let udid = d.path.name();
    match m {
        None => {
            let limit = cat3("`", udid.as_str(), "` has no readable device.plist: not identified as a device");
            one(NestedUnitBuilder::unknown_dir(container, d, limit.as_str()).build())
        },
        Some(m) => {
            let mut v = ArtifactVariant::none();
            v.configuration = m.top_scalar("name");
            v.toolchain = match m.top_scalar("runtime") {
                Some(rt) => Some(piece_after(rt.as_str(), '.')),
                None => None,
            };
            v.target = Some(udid);
            let b = NestedUnitBuilder::known_dir(
                container,
                ArtifactRole::DeviceState,
                d,
                "a simulator device, identified by its device.plist",
                "this device's apps and data are gone; a recreated device starts empty",
            ).variant(v).no_action_because("a simulator device holds data nothing regenerates");
            let state = m.top_scalar("state");
            if crate::text::opt_is(&state, "3") {
                one(b.limit("device.plist records this device as booted: it may be running now").build())
            } else {
                one(b.build())
            }
        },
    }
}

/// `CoreSimulator/Devices/<UDID>`: mutable device state.
pub open spec fn devices(c: ContainerModel, ctx: CtxModel) -> Seq<UnitModel> {
    seq![
        store_root_unit(
            c,
            ctx,
            ArtifactRole::DeviceState,
            "simulator devices: each device's installed apps and data"@,
            "a removed simulator device loses every app and every byte of data installed in it; recreating it gives an empty device"@,
            "simulator devices hold data nothing regenerates"@,
        ),
    ] + flat(
        child_rows(ctx.rows, c.path),
        |d: DirModel| device_unit(c, d, whole_manifest_of(ctx.facts, joined_path(d.path, "device.plist"@))),
    )
}

pub fn identify_devices(container: &BuildContainer, ctx: &BuildCtx) -> (r: Vec<NestedArtifact>)
    ensures
        units_view(r@) == devices(container@, ctx@),
{
    let mut units = one(
        store_root(
            container,
            ctx,
            ArtifactRole::DeviceState,
            "simulator devices: each device's installed apps and data",
            "a removed simulator device loses every app and every byte of data installed in it; recreating it gives an empty device",
            "simulator devices hold data nothing regenerates",
        ),
    );
    let dirs = ctx.folded().children(&container.path);
    let more = each_dir(
        &dirs,
        |d: &FoldedDir| -> (out: Vec<NestedArtifact>)
            ensures
                units_view(out@) == device_unit(
                    container@,
                    d@,
                    whole_manifest_of(ctx@.facts, joined_path(d@.path, "device.plist"@)),
                )
            { identify_device(container, d, ctx.whole_manifest(&d.path.join("device.plist"))) },
        Ghost(
            |d: DirModel|
                device_unit(container@, d, whole_manifest_of(ctx@.facts, joined_path(d.path, "device.plist"@))),
        ),
    );
    append_units(&mut units, more);
    units
}

pub open spec fn runtime_unit(c: ContainerModel, d: DirModel) -> Seq<UnitModel> {
    let name = name_of(d.path);
    let label = without_suffixes(name, ".simruntime"@);
    seq![
        UnitModel::known_dir(
            c,
            ArtifactRole::Installation,
            d,
            "`"@ + name + "` is an installed simulator runtime"@,
            label + " is downloaded again when a simulator needs it"@,
        ).variant(no_variant().with_toolchain(label)).no_action_because(
            "simulator devices boot from this runtime"@,
        ),
    ]
}

fn identify_runtime(container: &BuildContainer, d: &FoldedDir) -> (r: Vec<NestedArtifact>)
    ensures
        units_view(r@) == runtime_unit(container@, d@),
{
    let name = d.path.name();
    let label = trim_suffixes(name.as_str(), ".simruntime");
    let reason = cat3("`", name.as_str(), "` is an installed simulator runtime");
    let consequence = cat2(label.as_str(), " is downloaded again when a simulator needs it");
    one(
        NestedUnitBuilder::known_dir(
            container,
            ArtifactRole::Installation,
            d,
            reason.as_str(),
            consequence.as_str(),
        ).variant(ArtifactVariant::none().with_toolchain(label.as_str())).no_action_because(
            "simulator devices boot from this runtime",
        ).build(),
    )
}

/// Simulator runtimes: installations, by name.
pub open spec fn runtimes(c: ContainerModel, ctx: CtxModel) -> Seq<UnitModel> {
    seq![
        store_root_unit(
            c,
            ctx,
            ArtifactRole::Installation,
            "simulator runtimes: installed simulator OS versions"@,
            "a removed runtime is downloaded again from Xcode's platform settings -- a multi-gigabyte download; simulators on it stop booting until then"@,
            "simulator devices boot from these runtimes"@,
        ),
    ] + flat(child_rows(ctx.rows, c.path), |d: DirModel| runtime_unit(c, d))
}

pub fn identify_runtimes(container: &BuildContainer, ctx: &BuildCtx) -> (r: Vec<NestedArtifact>)
    ensures
        units_view(r@) == runtimes(container@, ctx@),
{
    let mut units = one(
        store_root(
            container,
            ctx,
            ArtifactRole::Installation,
            "simulator runtimes: installed simulator OS versions",
            "a removed runtime is downloaded again from Xcode's platform settings -- a multi-gigabyte download; simulators on it stop booting until then",
            "simulator devices boot from these runtimes",
        ),
    );
    let dirs = ctx.folded().children(&container.path);
    let more = each_dir(
        &dirs,
        |d: &FoldedDir| -> (out: Vec<NestedArtifact>)
            ensures
                units_view(out@) == runtime_unit(container@, d@)
            { identify_runtime(container, d) },
        Ghost(|d: DirModel| runtime_unit(container@, d)),
    );
    append_units(&mut units, more);
    units
}

pub open spec fn simulator_cache(c: ContainerModel, d: DirModel) -> Seq<UnitModel> {
    seq![
        UnitModel::known_dir(
            c,
            ArtifactRole::Intermediate,
            d,
            "`"@ + name_of(d.path) + "` is part of CoreSimulator's cache"@,
            "the next simulator boot rebuilds it"@,
        ),
    ]
}

fn identify_simulator_cache(container: &BuildContainer, d: &FoldedDir) -> (r: Vec<NestedArtifact>)
    ensures
        units_view(r@) == simulator_cache(container@, d@),
{
    let name = d.path.name();
    let reason = cat3("`", name.as_str(), "` is part of CoreSimulator's cache");
    one(
        NestedUnitBuilder::known_dir(
            container,
            ArtifactRole::Intermediate,
            d,
            reason.as_str(),
            "the next simulator boot rebuilds it",
        ).build(),
    )
}

/// CoreSimulator's own cache.
pub open spec fn simulator_caches(c: ContainerModel, ctx: CtxModel) -> Seq<UnitModel> {
    seq![
        UnitModel::container_root(c, ctx, ArtifactRole::Intermediate).supported("CoreSimulator's cache"@).consequence(
            "the next simulator boot rebuilds what it needs (a slower boot)"@,
        ),
    ] + flat(child_rows(ctx.rows, c.path), |d: DirModel| simulator_cache(c, d))
}

pub fn identify_simulator_caches(container: &BuildContainer, ctx: &BuildCtx) -> (r: Vec<NestedArtifact>)
    ensures
        units_view(r@) == simulator_caches(container@, ctx@),
{
    let mut units = one(
        NestedUnitBuilder::container_root(container, ctx, ArtifactRole::Intermediate).supported_with_reason(
            "CoreSimulator's cache",
        ).consequence("the next simulator boot rebuilds what it needs (a slower boot)").build(),
    );
    let dirs = ctx.folded().children(&container.path);
    let more = each_dir(
        &dirs,
        |d: &FoldedDir| -> (out: Vec<NestedArtifact>)
            ensures
                units_view(out@) == simulator_cache(container@, d@)
            { identify_simulator_cache(container, d) },
        Ghost(|d: DirModel| simulator_cache(container@, d)),
    );
    append_units(&mut units, more);
    units
}

} // verus!
