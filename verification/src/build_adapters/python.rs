//! Python generated artifacts, installed environments and shared package caches.
//!
//! Three things that all look like Python storage are kept apart, because
//! removing each costs something different: generated output is a rebuild, an
//! installed environment is a reinstall, a shared cache is a re-download, and
//! other environments may link to the same bytes.
//!
//! No package is imported, no `setup.py` runs and no interpreter is started.
//! Identity comes from the names the packaging conventions define and from
//! small metadata files read bounded; where that runs out, the unit says so.

use super::adapter::{
    append_paths, claim_all, claimed, each, each_dir, filter_paths, find_part, flat, no_paths, no_units, one,
    part_named, views, BuildAdapter, BuildCapabilities, KnownPart, PartModel,
};
use super::arrange::{by_path, filter_dirs, first_of, sort_by_path, split_dirs};
use super::builder::NestedUnitBuilder;
use super::container::{
    child_rows, containers_view, dir_refs, push_container, row_of, BuildContainer, ContainerModel, DirModel, FoldedDir,
};
use super::context::{BuildCtx, CtxModel};
use super::layout::{
    header, header_of, is_versionish, name_and_version, property, property_of, split_name_version, versionish,
};
use crate::artifact::{
    append_units, no_variant, relative, relative_path, units_view, ArtifactRole, ArtifactVariant, Confidence,
    Membership, NestedArtifact, UnitModel, VariantModel,
};
use crate::facts::{
    entries_view, is_file_at, listing_of, stat_of, whole_manifest_of, EntryModel, FactModel, FileFacts, FileKind,
    ShallowEntry,
};
use crate::json::{parse_json, parsed_json, read_as, text_of_node, text_under, JsonModel, JsonNode};
use crate::locations::BuildStoreKind;
use crate::number::{all_digits, char_is_digit, decimal, is_digit, write_u64};
use crate::path::{joined_path, name_of, parent, path_of, paths, push_path, same_opt, FsPath, PathModel};
use crate::text::{
    before_suffix, begins, cat2, cat3, cat4, cat5, cat6, cat7, cat8, copy_opt, cut_at_last, cut_first, drop_suffix,
    ends, finishes, join_texts, joined, lines, lowercased, opt_text, pair_text, same, split, split_at_last, split_first,
    split_lines, split_text, starts, texts, texts_from, texts_to, to_lowercase, trim, trim_prefixes, trim_suffixes,
    trimmed, without_prefixes, without_suffixes,
};
use vstd::prelude::*;

verus! {

pub struct Adapter;

/// How many `*.dist-info` directories of one environment get their files read.
pub const DIST_INFO_BUDGET: usize = 400;

/// The consequence of losing an installed environment.
pub const ENV_CONSEQUENCE: &'static str =
    "recreate the environment and reinstall its packages -- needs index access, or the local sources editable packages were installed from";

pub const UV_SHARED: &'static str = "the cache is shared by every uv environment on this machine";

/// The directories this adapter identifies inside a Python project, each with its tool.
pub open spec fn known_dirs_spec() -> Seq<PartModel> {
    seq![
        PartModel {
            name: "dist"@,
            role: ArtifactRole::Output,
            what: "a build frontend (python -m build, uv build, hatch, poetry)"@,
            consequence: "rebuild the distributions with this project's build frontend"@,
        },
        PartModel {
            name: "build"@,
            role: ArtifactRole::Intermediate,
            what: "setuptools"@,
            consequence: "the next setuptools build recompiles and recopies what it holds"@,
        },
        PartModel {
            name: "__pycache__"@,
            role: ArtifactRole::Intermediate,
            what: "the CPython interpreter"@,
            consequence: "the interpreter recompiles the bytecode on the next import"@,
        },
        PartModel {
            name: ".pytest_cache"@,
            role: ArtifactRole::Intermediate,
            what: "pytest"@,
            consequence: "pytest forgets its last-failed set (`--lf`, `--ff` start from scratch)"@,
        },
        PartModel {
            name: ".mypy_cache"@,
            role: ArtifactRole::Intermediate,
            what: "mypy"@,
            consequence: "the next mypy run type-checks every module instead of the changed ones"@,
        },
        PartModel {
            name: ".ruff_cache"@,
            role: ArtifactRole::Intermediate,
            what: "Ruff"@,
            consequence: "the next ruff run re-lints every file instead of the changed ones"@,
        },
        PartModel {
            name: ".pytype"@,
            role: ArtifactRole::Intermediate,
            what: "pytype"@,
            consequence: "the next pytype run re-analyses every module"@,
        },
        PartModel {
            name: ".pyre"@,
            role: ArtifactRole::Intermediate,
            what: "Pyre"@,
            consequence: "the next Pyre run rebuilds its state"@,
        },
        PartModel {
            name: ".hypothesis"@,
            role: ArtifactRole::Intermediate,
            what: "Hypothesis"@,
            consequence: "Hypothesis forgets the failing examples it saved and must find them again"@,
        },
        PartModel {
            name: "htmlcov"@,
            role: ArtifactRole::TestOutput,
            what: "coverage.py"@,
            consequence: "a test run with `coverage html` regenerates it"@,
        },
        PartModel {
            name: ".tox"@,
            role: ArtifactRole::InstalledDependencies,
            what: "tox"@,
            consequence: "tox recreates each environment on its next run -- needs index access"@,
        },
        PartModel {
            name: ".nox"@,
            role: ArtifactRole::InstalledDependencies,
            what: "nox"@,
            consequence: "nox recreates each session environment on its next run -- needs index access"@,
        },
        PartModel {
            name: ".eggs"@,
            role: ArtifactRole::InstalledDependencies,
            what: "setuptools (setup_requires)"@,
            consequence: "setuptools fetches the build requirements again -- needs index access"@,
        },
        PartModel {
            name: "__pypackages__"@,
            role: ArtifactRole::InstalledDependencies,
            what: "PEP 582 (pdm)"@,
            consequence: "reinstall with the project's installer -- needs index access"@,
        },
    ]
}

fn known_dirs() -> (r: Vec<KnownPart>)
    ensures
        views(r@) == known_dirs_spec(),
{
    let r: Vec<KnownPart> = vec![
        KnownPart {
            name: "dist",
            role: ArtifactRole::Output,
            what: "a build frontend (python -m build, uv build, hatch, poetry)",
            consequence: "rebuild the distributions with this project's build frontend",
        },
        KnownPart {
            name: "build",
            role: ArtifactRole::Intermediate,
            what: "setuptools",
            consequence: "the next setuptools build recompiles and recopies what it holds",
        },
        KnownPart {
            name: "__pycache__",
            role: ArtifactRole::Intermediate,
            what: "the CPython interpreter",
            consequence: "the interpreter recompiles the bytecode on the next import",
        },
        KnownPart {
            name: ".pytest_cache",
            role: ArtifactRole::Intermediate,
            what: "pytest",
            consequence: "pytest forgets its last-failed set (`--lf`, `--ff` start from scratch)",
        },
        KnownPart {
            name: ".mypy_cache",
            role: ArtifactRole::Intermediate,
            what: "mypy",
            consequence: "the next mypy run type-checks every module instead of the changed ones",
        },
        KnownPart {
            name: ".ruff_cache",
            role: ArtifactRole::Intermediate,
            what: "Ruff",
            consequence: "the next ruff run re-lints every file instead of the changed ones",
        },
        KnownPart {
            name: ".pytype",
            role: ArtifactRole::Intermediate,
            what: "pytype",
            consequence: "the next pytype run re-analyses every module",
        },
        KnownPart {
            name: ".pyre",
            role: ArtifactRole::Intermediate,
            what: "Pyre",
            consequence: "the next Pyre run rebuilds its state",
        },
        KnownPart {
            name: ".hypothesis",
            role: ArtifactRole::Intermediate,
            what: "Hypothesis",
            consequence: "Hypothesis forgets the failing examples it saved and must find them again",
        },
        KnownPart {
            name: "htmlcov",
            role: ArtifactRole::TestOutput,
            what: "coverage.py",
            consequence: "a test run with `coverage html` regenerates it",
        },
        KnownPart {
            name: ".tox",
            role: ArtifactRole::InstalledDependencies,
            what: "tox",
            consequence: "tox recreates each environment on its next run -- needs index access",
        },
        KnownPart {
            name: ".nox",
            role: ArtifactRole::InstalledDependencies,
            what: "nox",
            consequence: "nox recreates each session environment on its next run -- needs index access",
        },
        KnownPart {
            name: ".eggs",
            role: ArtifactRole::InstalledDependencies,
            what: "setuptools (setup_requires)",
            consequence: "setuptools fetches the build requirements again -- needs index access",
        },
        KnownPart {
            name: "__pypackages__",
            role: ArtifactRole::InstalledDependencies,
            what: "PEP 582 (pdm)",
            consequence: "reinstall with the project's installer -- needs index access",
        },
    ];
    assert(views(r@) =~= known_dirs_spec());
    r
}

/// Whether a file at a project's root marks a Python project.
pub open spec fn marked(root: PathModel, facts: Seq<FactModel>) -> bool {
    is_file_at(facts, joined_path(root, "pyproject.toml"@))
        || is_file_at(facts, joined_path(root, "setup.py"@))
        || is_file_at(facts, joined_path(root, "setup.cfg"@))
        || is_file_at(facts, joined_path(root, "requirements.txt"@))
        || is_file_at(facts, joined_path(root, "requirements-dev.txt"@))
        || is_file_at(facts, joined_path(root, "requirements.in"@))
        || is_file_at(facts, joined_path(root, "Pipfile"@))
        || is_file_at(facts, joined_path(root, "poetry.lock"@))
        || is_file_at(facts, joined_path(root, "uv.lock"@))
        || is_file_at(facts, joined_path(root, "tox.ini"@))
        || is_file_at(facts, joined_path(root, "noxfile.py"@))
        || is_file_at(facts, joined_path(root, "environment.yml"@))
}

fn is_marked(root: &FsPath, facts: &FileFacts) -> (r: bool)
    ensures
        r == marked(root@, facts@),
{
    facts.is_file(&root.join("pyproject.toml"))
        || facts.is_file(&root.join("setup.py"))
        || facts.is_file(&root.join("setup.cfg"))
        || facts.is_file(&root.join("requirements.txt"))
        || facts.is_file(&root.join("requirements-dev.txt"))
        || facts.is_file(&root.join("requirements.in"))
        || facts.is_file(&root.join("Pipfile"))
        || facts.is_file(&root.join("poetry.lock"))
        || facts.is_file(&root.join("uv.lock"))
        || facts.is_file(&root.join("tox.ini"))
        || facts.is_file(&root.join("noxfile.py"))
        || facts.is_file(&root.join("environment.yml"))
}

/// Whether another ecosystem's marker is at a project's root.
pub open spec fn foreign(root: PathModel, facts: Seq<FactModel>) -> bool {
    is_file_at(facts, joined_path(root, "package.json"@))
        || is_file_at(facts, joined_path(root, "pom.xml"@))
        || is_file_at(facts, joined_path(root, "build.gradle"@))
        || is_file_at(facts, joined_path(root, "build.gradle.kts"@))
        || is_file_at(facts, joined_path(root, "settings.gradle"@))
        || is_file_at(facts, joined_path(root, "Cargo.toml"@))
}

fn is_foreign(root: &FsPath, facts: &FileFacts) -> (r: bool)
    ensures
        r == foreign(root@, facts@),
{
    facts.is_file(&root.join("package.json"))
        || facts.is_file(&root.join("pom.xml"))
        || facts.is_file(&root.join("build.gradle"))
        || facts.is_file(&root.join("build.gradle.kts"))
        || facts.is_file(&root.join("settings.gradle"))
        || facts.is_file(&root.join("Cargo.toml"))
}

/// Names that other ecosystems produce too: claimed only where no other
/// ecosystem's marker is at the root.
pub open spec fn ambiguous(name: Seq<char>) -> bool {
    name == "dist"@ || name == "build"@
}

/// Whether a known name is claimed, `other` being whether another ecosystem
/// marks the root.
pub open spec fn name_claimed(name: Seq<char>, other: bool) -> bool {
    (part_named(known_dirs_spec(), name) is Some && !(ambiguous(name) && other)) || finishes(name, ".egg-info"@)
}

fn claims_name(name: &str, other: bool) -> (r: bool)
    ensures
        r == name_claimed(name@, other),
{
    let table = known_dirs();
    (find_part(&table, name).is_some() && !((same(name, "dist") || same(name, "build")) && other)) || ends(
        name,
        ".egg-info",
    )
}

/// The known directories of the first `n` rows of the table, under `root`.
pub open spec fn known_paths(table: Seq<PartModel>, root: PathModel, other: bool, n: int) -> Seq<PathModel>
    decreases n,
{
    if n <= 0 {
        Seq::empty()
    } else if ambiguous(table[n - 1].name) && other {
        known_paths(table, root, other, n - 1)
    } else {
        known_paths(table, root, other, n - 1).push(joined_path(root, table[n - 1].name))
    }
}

fn find_known_paths(root: &FsPath, other: bool) -> (r: Vec<FsPath>)
    ensures
        paths(r@) == known_paths(known_dirs_spec(), root@, other, known_dirs_spec().len() as int),
{
    let table = known_dirs();
    let ghost rows = known_dirs_spec();
    let mut out = no_paths();
    let mut i: usize = 0;
    while i < table.len()
        invariant
            i <= table@.len(),
            views(table@) == rows,
            paths(out@) == known_paths(rows, root@, other, i as int),
        decreases table@.len() - i,
    {
        let name = table[i].name;
        assert(rows[i as int] == table@[i as int]@);
        if !((same(name, "dist") || same(name, "build")) && other) {
            push_path(&mut out, root.join(name));
        }
        i += 1;
    }
    assert(rows.len() == table@.len());
    out
}

/// Whether a directory is a virtual environment.
pub open spec fn is_env(facts: Seq<FactModel>, p: PathModel) -> bool {
    is_file_at(facts, joined_path(p, "pyvenv.cfg"@))
}

pub open spec fn is_ours(root: PathModel, facts: Seq<FactModel>, p: PathModel) -> bool {
    is_env(facts, p) || (marked(root, facts) && name_claimed(name_of(p), foreign(root, facts)))
}

pub open spec fn env_at(root: PathModel, facts: Seq<FactModel>, name: Seq<char>) -> Seq<PathModel> {
    if is_env(facts, joined_path(root, name)) {
        seq![joined_path(root, name)]
    } else {
        Seq::empty()
    }
}

fn find_env_at(root: &FsPath, facts: &FileFacts, name: &str) -> (r: Vec<FsPath>)
    ensures
        paths(r@) == env_at(root@, facts@, name@),
{
    let mut v = no_paths();
    let p = root.join(name);
    if facts.is_file(&p.join("pyvenv.cfg")) {
        push_path(&mut v, p);
        assert(paths(v@) =~= seq![joined_path(root@, name@)]);
    }
    v
}

/// The paths this adapter wants as containers.
pub open spec fn wanted(root: PathModel, candidates: Seq<PathModel>, facts: Seq<FactModel>) -> Seq<PathModel> {
    (if marked(root, facts) {
        known_paths(known_dirs_spec(), root, foreign(root, facts), known_dirs_spec().len() as int)
    } else {
        Seq::empty()
    }) + candidates.filter(|p: PathModel| is_ours(root, facts, p)) + env_at(root, facts, ".venv"@) + env_at(
        root,
        facts,
        "venv"@,
    ) + env_at(root, facts, "env"@)
}

fn wanted_paths(root: &FsPath, candidates: &Vec<FsPath>, facts: &FileFacts) -> (r: Vec<FsPath>)
    ensures
        paths(r@) == wanted(root@, paths(candidates@), facts@),
{
    let python = is_marked(root, facts);
    let other = is_foreign(root, facts);
    let mut want = if python {
        find_known_paths(root, other)
    } else {
        no_paths()
    };
    let named = filter_paths(
        candidates,
        |p: &FsPath| -> (keep: bool)
            ensures
                keep == is_ours(root@, facts@, p@)
            {
                let name = p.name();
                facts.is_file(&p.join("pyvenv.cfg")) || (python && claims_name(name.as_str(), other))
            },
        Ghost(|p: PathModel| is_ours(root@, facts@, p)),
    );
    append_paths(&mut want, named);
    append_paths(&mut want, find_env_at(root, facts, ".venv"));
    append_paths(&mut want, find_env_at(root, facts, "venv"));
    append_paths(&mut want, find_env_at(root, facts, "env"));
    want
}

/// The project root itself, where coverage data lies loose in it.
pub open spec fn loose_container(root: PathModel, facts: Seq<FactModel>) -> Seq<ContainerModel> {
    if marked(root, facts) && is_file_at(facts, joined_path(root, ".coverage"@)) {
        seq![ContainerModel::of_project("python"@, root, root)]
    } else {
        Seq::empty()
    }
}

impl BuildAdapter for Adapter {
    open spec fn trash_roles_spec(&self) -> Seq<ArtifactRole> {
        seq![ArtifactRole::Output, ArtifactRole::TestOutput, ArtifactRole::Intermediate]
    }

    open spec fn id_spec(&self) -> Seq<char> {
        "python"@
    }

    open spec fn name_spec(&self) -> Seq<char> {
        "Python"@
    }

    open spec fn capabilities_spec(&self) -> BuildCapabilities {
        BuildCapabilities {
            identifies_shared_stores: true,
            attributes_package_identity: true,
            actions_available: true,
        }
    }

    open spec fn store_kinds_spec(&self) -> Seq<BuildStoreKind> {
        seq![BuildStoreKind::PipCache, BuildStoreKind::UvCache, BuildStoreKind::UvPythonInstallations, BuildStoreKind::UvToolEnvironments]
    }

    open spec fn containers_spec(&self, root: PathModel, candidates: Seq<PathModel>, facts: Seq<FactModel>) -> Seq<
        ContainerModel,
    > {
        claimed("python"@, wanted(root, candidates, facts), root, facts) + loose_container(root, facts)
    }

    open spec fn identify_spec(&self, c: ContainerModel, ctx: CtxModel) -> Seq<UnitModel> {
        let name = name_of(c.path);
        if c.shared {
            match c.store_kind {
                Some(BuildStoreKind::PipCache) => pip_cache(c, ctx),
                Some(BuildStoreKind::UvPythonInstallations) => uv_pythons(c, ctx),
                Some(BuildStoreKind::UvToolEnvironments) => uv_tools(c, ctx),
                _ => uv_cache(c, ctx),
            }
        } else if same_opt(c.project_root, c.path) {
            loose_metadata(c, ctx)
        } else if env_here(ctx.facts, c.path) {
            env_units(c, ctx, c.path, true)
        } else if name == "dist"@ {
            dist(c, ctx)
        } else if name == "build"@ {
            setuptools_build(c, ctx)
        } else if name == ".mypy_cache"@ || name == ".ruff_cache"@ {
            versioned_cache(c, ctx, name)
        } else if name == ".tox"@ || name == ".nox"@ {
            env_dir(c, ctx, name)
        } else if name == ".eggs"@ {
            eggs(c, ctx)
        } else if finishes(name, ".egg-info"@) {
            egg_info(c, ctx)
        } else {
            seq![project_unit(c, ctx)]
        }
    }

    fn trash_roles(&self) -> (r: Vec<ArtifactRole>) {
        let r: Vec<ArtifactRole> = vec![ArtifactRole::Output, ArtifactRole::TestOutput, ArtifactRole::Intermediate];
        assert(r@ =~= self.trash_roles_spec());
        r
    }

    fn id(&self) -> (r: &'static str) {
        "python"
    }

    fn name(&self) -> (r: &'static str) {
        "Python"
    }

    fn capabilities(&self) -> (r: BuildCapabilities) {
        BuildCapabilities {
            identifies_shared_stores: true,
            attributes_package_identity: true,
            actions_available: true,
        }
    }

    fn store_kinds(&self) -> (r: Vec<BuildStoreKind>) {
        let r: Vec<BuildStoreKind> = vec![BuildStoreKind::PipCache, BuildStoreKind::UvCache, BuildStoreKind::UvPythonInstallations, BuildStoreKind::UvToolEnvironments];
        assert(r@ =~= self.store_kinds_spec());
        r
    }

    fn containers(&self, project_root: &FsPath, candidates: &Vec<FsPath>, facts: &FileFacts) -> (r: Vec<
        BuildContainer,
    >) {
        let want = wanted_paths(project_root, candidates, facts);
        let mut out = claim_all("python", &want, project_root, facts);
        if is_marked(project_root, facts) && facts.is_file(&project_root.join(".coverage")) {
            push_container(
                &mut out,
                BuildContainer::project("python", project_root.copy(), project_root.copy()),
            );
        }
        assert(containers_view(out@) =~= self.containers_spec(project_root@, paths(candidates@), facts@));
        out
    }

    fn identify(&self, container: &BuildContainer, ctx: &BuildCtx) -> (r: Vec<NestedArtifact>) {
        if container.shared {
            return match container.store_kind {
                Some(BuildStoreKind::PipCache) => identify_pip_cache(container, ctx),
                Some(BuildStoreKind::UvPythonInstallations) => identify_uv_pythons(container, ctx),
                Some(BuildStoreKind::UvToolEnvironments) => identify_uv_tools(container, ctx),
                _ => identify_uv_cache(container, ctx),
            };
        }
        let at_root = match &container.project_root {
            Some(root) => root.same(&container.path),
            None => false,
        };
        if at_root {
            return identify_loose_metadata(container, ctx);
        }
        if has_env_marker(ctx, &container.path) {
            return identify_env(container, ctx, &container.path, true);
        }
        let owned = container.path.name();
        let name = owned.as_str();
        if same(name, "dist") {
            identify_dist(container, ctx)
        } else if same(name, "build") {
            identify_setuptools_build(container, ctx)
        } else if same(name, ".mypy_cache") || same(name, ".ruff_cache") {
            identify_versioned_cache(container, ctx, name)
        } else if same(name, ".tox") || same(name, ".nox") {
            identify_env_dir(container, ctx, name)
        } else if same(name, ".eggs") {
            identify_eggs(container, ctx)
        } else if ends(name, ".egg-info") {
            identify_egg_info(container, ctx)
        } else {
            one(identify_project_unit(container, ctx))
        }
    }
}

/// Whether a directory holds a `pyvenv.cfg` of its own, no link.
pub open spec fn env_here(facts: Seq<FactModel>, p: PathModel) -> bool {
    stat_of(facts, joined_path(p, "pyvenv.cfg"@)) matches Some(m) && m.kind == FileKind::File
}

fn has_env_marker(ctx: &BuildCtx, p: &FsPath) -> (r: bool)
    ensures
        r == env_here(ctx@.facts, p@),
{
    match ctx.stat(&p.join("pyvenv.cfg")) {
        Some(m) => m.is_file(),
        None => false,
    }
}

/// The container's own row, identified by its name.
pub open spec fn project_unit(c: ContainerModel, ctx: CtxModel) -> UnitModel {
    let name = name_of(c.path);
    match part_named(known_dirs_spec(), name) {
        Some(k) => UnitModel::container_root(c, ctx, k.role).supported(
            "`"@ + k.name + "` is "@ + k.what + "'s documented directory"@,
        ).evidence("python-layout"@, "produced by "@ + k.what, Confidence::Medium).consequence(k.consequence),
        None => {
            let b = UnitModel::container_root(c, ctx, ArtifactRole::Metadata);
            if finishes(name, ".egg-info"@) {
                b.supported("`*.egg-info` is setuptools' project metadata directory"@).consequence(
                    "the next setuptools build or editable install rewrites it"@,
                )
            } else {
                b.unsupported_layout("`"@ + name + "` is not a directory name this adapter identifies"@)
            }
        },
    }
}

fn identify_project_unit(container: &BuildContainer, ctx: &BuildCtx) -> (r: NestedArtifact)
    ensures
        r@ == project_unit(container@, ctx@),
{
    let owned = container.path.name();
    let name = owned.as_str();
    let table = known_dirs();
    match find_part(&table, name) {
        Some(k) => {
            let reason = cat4("`", k.name, "` is ", cat2(k.what, "'s documented directory").as_str());
            let detail = cat2("produced by ", k.what);
            proof {
                assert("`"@ + k.name@ + "` is "@ + (k.what@ + "'s documented directory"@) =~= "`"@ + k.name@
                    + "` is "@ + k.what@ + "'s documented directory"@);
            }
            NestedUnitBuilder::container_root(container, ctx, k.role).supported_with_reason(
                reason.as_str(),
            ).evidence("python-layout", detail.as_str(), Confidence::Medium).consequence(k.consequence).build()
        },
        None => {
            let b = NestedUnitBuilder::container_root(container, ctx, ArtifactRole::Metadata);
            if ends(name, ".egg-info") {
                b.supported_with_reason("`*.egg-info` is setuptools' project metadata directory").consequence(
                    "the next setuptools build or editable install rewrites it",
                ).build()
            } else {
                let limit = cat3("`", name, "` is not a directory name this adapter identifies");
                b.unsupported_layout(limit.as_str()).build()
            }
        },
    }
}

/// `.coverage` at the project root.
pub open spec fn loose_metadata(c: ContainerModel, ctx: CtxModel) -> Seq<UnitModel> {
    let path = joined_path(c.path, ".coverage"@);
    match stat_of(ctx.facts, path) {
        Some(meta) => if meta.kind == FileKind::File {
            seq![
                UnitModel::blank(c, ArtifactRole::TestOutput, path).file_metadata(meta).supported(
                    "`.coverage` is coverage.py's data file"@,
                ).evidence("python-layout"@, "written by coverage.py"@, Confidence::High).consequence(
                    "a test run under coverage writes it again"@,
                ),
            ]
        } else {
            Seq::empty()
        },
        None => Seq::empty(),
    }
}

pub fn identify_loose_metadata(container: &BuildContainer, ctx: &BuildCtx) -> (r: Vec<NestedArtifact>)
    ensures
        units_view(r@) == loose_metadata(container@, ctx@),
{
    let path = container.path.join(".coverage");
    match ctx.stat(&path) {
        Some(meta) => if meta.is_file() {
            one(
                NestedUnitBuilder::new(container, ArtifactRole::TestOutput, path).from_file_metadata(
                    &meta,
                ).supported_with_reason("`.coverage` is coverage.py's data file").evidence(
                    "python-layout",
                    "written by coverage.py",
                    Confidence::High,
                ).consequence("a test run under coverage writes it again").build(),
            )
        } else {
            no_units()
        },
        None => no_units(),
    }
}

// ---------------------------------------------------------------------
// Distributions
// ---------------------------------------------------------------------

/// What a distribution's file name establishes, by the wheel and source
/// distribution naming conventions. Nothing else is read from the name.
#[derive(Debug, Clone, PartialEq, Eq)]
pub struct DistName {
    pub name: String,
    pub version: String,
    pub kind: &'static str,
    pub python: Option<String>,
    pub abi: Option<String>,
    pub platform: Option<String>,
}

pub struct DistModel {
    pub name: Seq<char>,
    pub version: Seq<char>,
    pub kind: Seq<char>,
    pub python: Option<Seq<char>>,
    pub abi: Option<Seq<char>>,
    pub platform: Option<Seq<char>>,
}

impl View for DistName {
    type V = DistModel;

    open spec fn view(&self) -> DistModel {
        DistModel {
            name: self.name@,
            version: self.version@,
            kind: self.kind@,
            python: opt_text(self.python),
            abi: opt_text(self.abi),
            platform: opt_text(self.platform),
        }
    }
}

pub open spec fn opt_dist(o: Option<DistName>) -> Option<DistModel> {
    match o {
        Some(d) => Some(d@),
        None => None,
    }
}

/// `{name}-{version}(-{build})?-{python}-{abi}-{platform}.whl`.
pub open spec fn wheel_name(stem: Seq<char>) -> Option<DistModel> {
    let p = split(stem, '-');
    if (p.len() == 5 || p.len() == 6) && is_versionish(p[1]) {
        Some(
            DistModel {
                name: p[0],
                version: p[1],
                kind: "wheel"@,
                python: Some(p[p.len() - 3]),
                abi: Some(p[p.len() - 2]),
                platform: Some(p[p.len() - 1]),
            },
        )
    } else {
        None
    }
}

/// `{name}-{version}.tar.gz` or `{name}-{version}.zip`.
pub open spec fn sdist_name(stem: Seq<char>) -> Option<DistModel> {
    match name_and_version(stem) {
        Some((name, version)) => Some(
            DistModel { name, version, kind: "sdist"@, python: None, abi: None, platform: None },
        ),
        None => None,
    }
}

pub open spec fn distribution(file: Seq<char>) -> Option<DistModel> {
    match before_suffix(file, ".whl"@) {
        Some(stem) => wheel_name(stem),
        None => match before_suffix(file, ".tar.gz"@) {
            Some(stem) => sdist_name(stem),
            None => match before_suffix(file, ".zip"@) {
                Some(stem) => sdist_name(stem),
                None => None,
            },
        },
    }
}

fn parse_wheel(stem: &str) -> (r: Option<DistName>)
    ensures
        opt_dist(r) == wheel_name(stem@),
{
    let p = split_text(stem, '-');
    let n: usize = p.len();
    assert(texts(p@).len() == n);
    if n != 5 && n != 6 {
        return None;
    }
    assert(texts(p@)[0] == p@[0]@ && texts(p@)[1] == p@[1]@);
    assert(texts(p@)[n - 3] == p@[n - 3]@ && texts(p@)[n - 2] == p@[n - 2]@ && texts(p@)[n - 1] == p@[n - 1]@);
    if !versionish(p[1].as_str()) {
        return None;
    }
    Some(
        DistName {
            name: p[0].as_str().to_owned(),
            version: p[1].as_str().to_owned(),
            kind: "wheel",
            python: Some(p[n - 3].as_str().to_owned()),
            abi: Some(p[n - 2].as_str().to_owned()),
            platform: Some(p[n - 1].as_str().to_owned()),
        },
    )
}

fn parse_sdist(stem: &str) -> (r: Option<DistName>)
    ensures
        opt_dist(r) == sdist_name(stem@),
{
    match split_name_version(stem) {
        Some((name, version)) => Some(
            DistName { name, version, kind: "sdist", python: None, abi: None, platform: None },
        ),
        None => None,
    }
}

pub fn parse_distribution(file: &str) -> (r: Option<DistName>)
    ensures
        opt_dist(r) == distribution(file@),
{
    match drop_suffix(file, ".whl") {
        Some(stem) => parse_wheel(stem.as_str()),
        None => match drop_suffix(file, ".tar.gz") {
            Some(stem) => parse_sdist(stem.as_str()),
            None => match drop_suffix(file, ".zip") {
                Some(stem) => parse_sdist(stem.as_str()),
                None => None,
            },
        },
    }
}

/// What a distribution's name makes of a unit.
pub open spec fn dist_variant(d: DistModel) -> VariantModel {
    VariantModel {
        package: Some(d.name),
        version: Some(d.version),
        toolchain: d.python,
        architecture: d.platform,
        configuration: Some(
            match d.abi {
                Some(abi) => d.kind + " ("@ + abi + ")"@,
                None => d.kind,
            },
        ),
        ..no_variant()
    }.unknown("build-generation"@)
}

fn variant_of_dist(d: &DistName) -> (r: ArtifactVariant)
    ensures
        r@ == dist_variant(d@),
{
    let mut v = ArtifactVariant::none();
    v.package = Some(d.name.as_str().to_owned());
    v.version = Some(d.version.as_str().to_owned());
    v.toolchain = copy_opt(&d.python);
    v.architecture = copy_opt(&d.platform);
    v.configuration = Some(
        match &d.abi {
            Some(abi) => cat4(d.kind, " (", abi.as_str(), ")"),
            None => d.kind.to_owned(),
        },
    );
    v.unknown("build-generation")
}

/// One entry of `dist/`.
pub open spec fn dist_entry(c: ContainerModel, ctx: CtxModel, e: EntryModel) -> Seq<UnitModel> {
    let path = joined_path(c.path, e.name);
    if e.is_dir {
        match row_of(ctx.rows, path) {
            Some(d) => seq![UnitModel::unknown_dir(c, d, "`dist/"@ + e.name + "` is not a distribution file"@)],
            None => Seq::empty(),
        }
    } else {
        match stat_of(ctx.facts, path) {
            None => Seq::empty(),
            Some(meta) => {
                let b = UnitModel::blank(c, ArtifactRole::Output, path).file_metadata(meta);
                match distribution(e.name) {
                    Some(d) => seq![
                        b.variant(dist_variant(d)).supported(
                            "`"@ + e.name + "` is a "@ + d.kind + " named by the packaging convention"@,
                        ).evidence(
                            "python-distribution-name"@,
                            d.name + "=="@ + d.version + " ("@ + d.kind + ")"@,
                            Confidence::High,
                        ).limit(
                            "identity is read from the filename the packaging convention defines; the archive's own METADATA is inside it and is not opened"@,
                        ).consequence("rebuild with this project's build frontend"@),
                    ],
                    None => seq![
                        b.unsupported_layout(
                            "`"@ + e.name + "` is not named like a wheel or a source distribution"@,
                        ),
                    ],
                }
            },
        }
    }
}

fn identify_dist_entry(container: &BuildContainer, ctx: &BuildCtx, e: &ShallowEntry) -> (r: Vec<NestedArtifact>)
    ensures
        units_view(r@) == dist_entry(container@, ctx@, e@),
{
    let name = e.name.as_str();
    let path = container.path.join(name);
    if e.is_dir {
        return match ctx.folded().get(&path) {
            Some(d) => {
                let limit = cat3("`dist/", name, "` is not a distribution file");
                one(NestedUnitBuilder::unknown_dir(container, d, limit.as_str()).build())
            },
            None => no_units(),
        };
    }
    match ctx.stat(&path) {
        None => no_units(),
        Some(meta) => {
            let b = NestedUnitBuilder::new(container, ArtifactRole::Output, path).from_file_metadata(&meta);
            match parse_distribution(name) {
                Some(d) => {
                    let reason = cat5("`", name, "` is a ", d.kind, " named by the packaging convention");
                    let detail = cat6(d.name.as_str(), "==", d.version.as_str(), " (", d.kind, ")");
                    one(
                        b.variant(variant_of_dist(&d)).supported_with_reason(reason.as_str()).evidence(
                            "python-distribution-name",
                            detail.as_str(),
                            Confidence::High,
                        ).limit(
                            "identity is read from the filename the packaging convention defines; the archive's own METADATA is inside it and is not opened",
                        ).consequence("rebuild with this project's build frontend").build(),
                    )
                },
                None => {
                    let limit = cat3("`", name, "` is not named like a wheel or a source distribution");
                    one(b.unsupported_layout(limit.as_str()).build())
                },
            }
        },
    }
}

pub open spec fn dist(c: ContainerModel, ctx: CtxModel) -> Seq<UnitModel> {
    seq![project_unit(c, ctx)] + flat(listing_of(ctx.facts, c.path), |e: EntryModel| dist_entry(c, ctx, e))
}

pub fn identify_dist(container: &BuildContainer, ctx: &BuildCtx) -> (r: Vec<NestedArtifact>)
    ensures
        units_view(r@) == dist(container@, ctx@),
{
    let mut units = one(identify_project_unit(container, ctx));
    let entries = ctx.list(&container.path);
    assert(views(entries@) =~= entries_view(entries@));
    let more = each(
        &entries,
        |e: &ShallowEntry| -> (out: Vec<NestedArtifact>)
            ensures
                units_view(out@) == dist_entry(container@, ctx@, e@)
            { identify_dist_entry(container, ctx, e) },
        Ghost(|e: EntryModel| dist_entry(container@, ctx@, e)),
    );
    append_units(&mut units, more);
    units
}

// ---------------------------------------------------------------------
// setuptools' build tree
// ---------------------------------------------------------------------

/// The directories of a setuptools build tree, by what stands before the first dot of their names.
pub open spec fn build_parts_spec() -> Seq<PartModel> {
    seq![
        PartModel {
            name: "lib"@,
            role: ArtifactRole::Output,
            what: "the pure and compiled modules staged for a wheel"@,
            consequence: "the next build stages them again"@,
        },
        PartModel {
            name: "temp"@,
            role: ArtifactRole::Intermediate,
            what: "object files from compiling extension modules"@,
            consequence: "the next build recompiles the extension modules"@,
        },
        PartModel {
            name: "bdist"@,
            role: ArtifactRole::Intermediate,
            what: "the staging tree of a binary distribution"@,
            consequence: "the next bdist build restages it"@,
        },
        PartModel {
            name: "scripts"@,
            role: ArtifactRole::Output,
            what: "console scripts staged for installation"@,
            consequence: "the next build stages them again"@,
        },
    ]
}

fn build_parts() -> (r: Vec<KnownPart>)
    ensures
        views(r@) == build_parts_spec(),
{
    let r: Vec<KnownPart> = vec![
        KnownPart {
            name: "lib",
            role: ArtifactRole::Output,
            what: "the pure and compiled modules staged for a wheel",
            consequence: "the next build stages them again",
        },
        KnownPart {
            name: "temp",
            role: ArtifactRole::Intermediate,
            what: "object files from compiling extension modules",
            consequence: "the next build recompiles the extension modules",
        },
        KnownPart {
            name: "bdist",
            role: ArtifactRole::Intermediate,
            what: "the staging tree of a binary distribution",
            consequence: "the next bdist build restages it",
        },
        KnownPart {
            name: "scripts",
            role: ArtifactRole::Output,
            what: "console scripts staged for installation",
            consequence: "the next build stages them again",
        },
    ];
    assert(views(r@) =~= build_parts_spec());
    r
}

/// What the tag of a build directory's name says: `<platform>-<impl>-<nodot>`,
/// or a platform alone.
pub open spec fn tag_variant(tag: Option<Seq<char>>) -> VariantModel {
    match tag {
        Some(t) => {
            let p = split(t, '-');
            if p.len() >= 2 && all_digits(p[p.len() - 1]) {
                no_variant().with_toolchain(joined(p.skip(p.len() - 2), "-"@)).with_architecture(
                    joined(p.take(p.len() - 2), "-"@),
                )
            } else {
                no_variant().with_architecture(t).unknown("toolchain"@)
            }
        },
        None => no_variant().unknown("toolchain"@),
    }
}

fn variant_of_tag(tag: Option<String>) -> (r: ArtifactVariant)
    ensures
        r@ == tag_variant(opt_text(tag)),
{
    match tag {
        Some(t) => {
            let p = split_text(t.as_str(), '-');
            let n: usize = p.len();
            assert(texts(p@).len() == n);
            if n >= 2 {
                assert(texts(p@)[n - 1] == p@[n - 1]@);
                if only_digits(p[n - 1].as_str()) {
                    let tool = join_texts(&texts_from(&p, n - 2), "-");
                    let arch = join_texts(&texts_to(&p, n - 2), "-");
                    return ArtifactVariant::none().with_toolchain(tool.as_str()).with_architecture(arch.as_str());
                }
            }
            ArtifactVariant::none().with_architecture(t.as_str()).unknown("toolchain")
        },
        None => ArtifactVariant::none().unknown("toolchain"),
    }
}

fn only_digits(s: &str) -> (r: bool)
    ensures
        r == all_digits(s@),
{
    let v = crate::text::chars_of(s);
    let mut i: usize = 0;
    while i < v.len()
        invariant
            i <= v@.len(),
            v@ == s@,
            forall|k: int| 0 <= k < i ==> #[trigger] is_digit(s@[k]),
        decreases v@.len() - i,
    {
        if !char_is_digit(v[i]) {
            assert(!is_digit(s@[i as int]));
            return false;
        }
        i += 1;
    }
    true
}

/// One directory of a setuptools build tree.
pub open spec fn build_child(c: ContainerModel, d: DirModel) -> Seq<UnitModel> {
    let name = name_of(d.path);
    let (head, tag) = match cut_first(name, '.') {
        Some((h, t)) => (h, Some(t)),
        None => (name, None),
    };
    match part_named(build_parts_spec(), head) {
        Some(p) => seq![
            UnitModel::known_dir(c, p.role, d, "`build/"@ + name + "` holds "@ + p.what, p.consequence).variant(
                tag_variant(tag),
            ),
        ],
        None => seq![
            UnitModel::unknown_dir(c, d, "`build/"@ + name + "` is not a setuptools build directory"@),
        ],
    }
}

fn identify_build_child(container: &BuildContainer, d: &FoldedDir) -> (r: Vec<NestedArtifact>)
    ensures
        units_view(r@) == build_child(container@, d@),
{
    let name = d.path.name();
    let (head, tag): (String, Option<String>) = match split_first(name.as_str(), '.') {
        Some((h, t)) => (h, Some(t)),
        None => (name.as_str().to_owned(), None),
    };
    let table = build_parts();
    match find_part(&table, head.as_str()) {
        Some(p) => {
            let reason = cat4("`build/", name.as_str(), "` holds ", p.what);
            one(
                NestedUnitBuilder::known_dir(container, p.role, d, reason.as_str(), p.consequence).variant(
                    variant_of_tag(tag),
                ).build(),
            )
        },
        None => {
            let limit = cat3("`build/", name.as_str(), "` is not a setuptools build directory");
            one(NestedUnitBuilder::unknown_dir(container, d, limit.as_str()).build())
        },
    }
}

/// setuptools' `build/`: two interpreters' trees never collapse.
pub open spec fn setuptools_build(c: ContainerModel, ctx: CtxModel) -> Seq<UnitModel> {
    seq![project_unit(c, ctx)] + flat(child_rows(ctx.rows, c.path), |d: DirModel| build_child(c, d))
}

pub fn identify_setuptools_build(container: &BuildContainer, ctx: &BuildCtx) -> (r: Vec<NestedArtifact>)
    ensures
        units_view(r@) == setuptools_build(container@, ctx@),
{
    let mut units = one(identify_project_unit(container, ctx));
    let dirs = ctx.folded().children(&container.path);
    let more = each_dir(
        &dirs,
        |d: &FoldedDir| -> (out: Vec<NestedArtifact>)
            ensures
                units_view(out@) == build_child(container@, d@)
            { identify_build_child(container, d) },
        Ghost(|d: DirModel| build_child(container@, d)),
    );
    append_units(&mut units, more);
    units
}

// ---------------------------------------------------------------------
// Tool caches by version
// ---------------------------------------------------------------------

pub open spec fn tool_of(name: Seq<char>) -> Seq<char> {
    if name == ".mypy_cache"@ {
        "python"@
    } else {
        "ruff"@
    }
}

pub open spec fn known_consequence(name: Seq<char>) -> Seq<char> {
    match part_named(known_dirs_spec(), name) {
        Some(k) => k.consequence,
        None => Seq::empty(),
    }
}

/// One version's directory of a tool's cache.
pub open spec fn version_child(c: ContainerModel, name: Seq<char>, d: DirModel) -> Seq<UnitModel> {
    let v = name_of(d.path);
    if is_versionish(v) {
        seq![
            UnitModel::known_dir(
                c,
                ArtifactRole::Intermediate,
                d,
                "`"@ + name + "/"@ + v + "` is the cache for "@ + tool_of(name) + " "@ + v,
                known_consequence(name),
            ).variant(no_variant().with_toolchain(tool_of(name) + " "@ + v)),
        ]
    } else {
        seq![
            UnitModel::unknown_dir(c, d, "`"@ + name + "/"@ + v + "` is not a per-version cache directory"@),
        ]
    }
}

fn identify_version_child(container: &BuildContainer, name: &str, d: &FoldedDir) -> (r: Vec<NestedArtifact>)
    ensures
        units_view(r@) == version_child(container@, name@, d@),
{
    let v = d.path.name();
    let tool: &str = if same(name, ".mypy_cache") {
        "python"
    } else {
        "ruff"
    };
    if versionish(v.as_str()) {
        let reason = cat8("`", name, "/", v.as_str(), "` is the cache for ", tool, " ", v.as_str());
        let table = known_dirs();
        let consequence: &str = match find_part(&table, name) {
            Some(k) => k.consequence,
            None => "",
        };
        proof {
            reveal_strlit("");
            assert(""@ =~= Seq::<char>::empty());
        }
        let version = cat3(tool, " ", v.as_str());
        one(
            NestedUnitBuilder::known_dir(
                container,
                ArtifactRole::Intermediate,
                d,
                reason.as_str(),
                consequence,
            ).variant(ArtifactVariant::none().with_toolchain(version.as_str())).build(),
        )
    } else {
        let limit = cat5("`", name, "/", v.as_str(), "` is not a per-version cache directory");
        one(NestedUnitBuilder::unknown_dir(container, d, limit.as_str()).build())
    }
}

/// `.mypy_cache` and `.ruff_cache`: one unit per version.
pub open spec fn versioned_cache(c: ContainerModel, ctx: CtxModel, name: Seq<char>) -> Seq<UnitModel> {
    seq![project_unit(c, ctx)] + flat(child_rows(ctx.rows, c.path), |d: DirModel| version_child(c, name, d))
}

pub fn identify_versioned_cache(container: &BuildContainer, ctx: &BuildCtx, name: &str) -> (r: Vec<NestedArtifact>)
    ensures
        units_view(r@) == versioned_cache(container@, ctx@, name@),
{
    let mut units = one(identify_project_unit(container, ctx));
    let dirs = ctx.folded().children(&container.path);
    let more = each_dir(
        &dirs,
        |d: &FoldedDir| -> (out: Vec<NestedArtifact>)
            ensures
                units_view(out@) == version_child(container@, name@, d@)
            { identify_version_child(container, name, d) },
        Ghost(|d: DirModel| version_child(container@, name@, d)),
    );
    append_units(&mut units, more);
    units
}

// ---------------------------------------------------------------------
// Environments
// ---------------------------------------------------------------------

/// What `pyvenv.cfg` sets a key to; nothing where it cannot be read whole.
pub open spec fn env_property(ctx: CtxModel, env: PathModel, key: Seq<char>) -> Option<Seq<char>> {
    match whole_manifest_of(ctx.facts, joined_path(env, "pyvenv.cfg"@)) {
        Some(m) => property_of(m.text, key),
        None => None,
    }
}

pub open spec fn env_readable(ctx: CtxModel, env: PathModel) -> bool {
    whole_manifest_of(ctx.facts, joined_path(env, "pyvenv.cfg"@)) is Some
}

pub open spec fn env_version(ctx: CtxModel, env: PathModel) -> Option<Seq<char>> {
    match env_property(ctx, env, "version"@) {
        Some(v) => Some(v),
        None => env_property(ctx, env, "version_info"@),
    }
}

fn read_env_property(ctx: &BuildCtx, env: &FsPath, key: &str) -> (r: Option<String>)
    ensures
        opt_text(r) == env_property(ctx@, env@, key@),
{
    match ctx.whole_manifest(&env.join("pyvenv.cfg")) {
        Some(m) => property(m.text.as_str(), key),
        None => None,
    }
}

fn read_env_version(ctx: &BuildCtx, env: &FsPath) -> (r: Option<String>)
    ensures
        opt_text(r) == env_version(ctx@, env@),
{
    match read_env_property(ctx, env, "version") {
        Some(v) => Some(v),
        None => read_env_property(ctx, env, "version_info"),
    }
}

/// An environment's interpreter.
pub open spec fn env_variant(ctx: CtxModel, env: PathModel) -> VariantModel {
    let v = match env_version(ctx, env) {
        Some(v) => no_variant().with_toolchain(
            (match env_property(ctx, env, "implementation"@) {
                Some(i) => lowercased(i),
                None => "python"@,
            }) + " "@ + v,
        ),
        None => no_variant().unknown("toolchain"@),
    };
    v.unknown("build-generation"@)
}

fn variant_of_env(ctx: &BuildCtx, env: &FsPath) -> (r: ArtifactVariant)
    ensures
        r@ == env_variant(ctx@, env@),
{
    let v = match read_env_version(ctx, env) {
        Some(v) => {
            let implementation = match read_env_property(ctx, env, "implementation") {
                Some(i) => to_lowercase(i.as_str()),
                None => "python".to_owned(),
            };
            let tool = cat3(implementation.as_str(), " ", v.as_str());
            ArtifactVariant::none().with_toolchain(tool.as_str())
        },
        None => ArtifactVariant::none().unknown("toolchain"),
    };
    v.unknown("build-generation")
}

/// Where an environment's row comes from: the container's, or the walk's.
pub open spec fn env_base(c: ContainerModel, ctx: CtxModel, env: PathModel, is_container: bool) -> UnitModel {
    if is_container {
        UnitModel::container_root(c, ctx, ArtifactRole::InstalledDependencies)
    } else {
        match row_of(ctx.rows, env) {
            Some(d) => UnitModel::blank(c, ArtifactRole::InstalledDependencies, env).folded(d),
            None => UnitModel::blank(c, ArtifactRole::InstalledDependencies, env).is_dir(true).limit(
                "this environment was not measured by the walk this pass"@,
            ),
        }
    }
}

fn identify_env_base(container: &BuildContainer, ctx: &BuildCtx, env: &FsPath, is_container: bool) -> (r: NestedUnitBuilder)
    ensures
        r@ == env_base(container@, ctx@, env@, is_container),
{
    if is_container {
        NestedUnitBuilder::container_root(container, ctx, ArtifactRole::InstalledDependencies)
    } else {
        match ctx.folded().get(env) {
            Some(d) => NestedUnitBuilder::new(container, ArtifactRole::InstalledDependencies, env.copy()).folded(d),
            None => NestedUnitBuilder::new(container, ArtifactRole::InstalledDependencies, env.copy()).is_dir(
                true,
            ).limit("this environment was not measured by the walk this pass"),
        }
    }
}

/// What `pyvenv.cfg` says of the interpreter's version, or that it does not.
pub open spec fn with_version_facts(u: UnitModel, ctx: CtxModel, env: PathModel) -> UnitModel {
    if !env_readable(ctx, env) {
        u.limit(
            "`pyvenv.cfg` could not be read (or is larger than the manifest cap): the interpreter is unknown"@,
        )
    } else {
        match env_version(ctx, env) {
            Some(v) => u.evidence("python-pyvenv-cfg"@, "created with Python "@ + v, Confidence::High),
            None => u.evidence("python-pyvenv-cfg"@, "pyvenv.cfg names no version"@, Confidence::High).limit(
                "`pyvenv.cfg` names no interpreter version"@,
            ),
        }
    }
}

fn add_version_facts(b: NestedUnitBuilder, ctx: &BuildCtx, env: &FsPath) -> (r: NestedUnitBuilder)
    ensures
        r@ == with_version_facts(b@, ctx@, env@),
{
    if ctx.whole_manifest(&env.join("pyvenv.cfg")).is_none() {
        b.limit(
            "`pyvenv.cfg` could not be read (or is larger than the manifest cap): the interpreter is unknown",
        )
    } else {
        match read_env_version(ctx, env) {
            Some(v) => {
                let detail = cat2("created with Python ", v.as_str());
                b.evidence("python-pyvenv-cfg", detail.as_str(), Confidence::High)
            },
            None => b.evidence("python-pyvenv-cfg", "pyvenv.cfg names no version", Confidence::High).limit(
                "`pyvenv.cfg` names no interpreter version",
            ),
        }
    }
}

/// A missing interpreter means that the environment no longer starts: a fact to
/// show, not a reason to call it disposable.
pub open spec fn with_home_facts(u: UnitModel, ctx: CtxModel, env: PathModel) -> UnitModel {
    match env_property(ctx, env, "home"@) {
        Some(home) => if stat_of(ctx.facts, path_of(home)) is None {
            u.limit(
                "the interpreter this environment was created from is not at `"@ + home
                    + "` now; the environment cannot start until it is recreated"@,
            )
        } else {
            u
        },
        None => u,
    }
}

fn add_home_facts(b: NestedUnitBuilder, ctx: &BuildCtx, env: &FsPath) -> (r: NestedUnitBuilder)
    ensures
        r@ == with_home_facts(b@, ctx@, env@),
{
    match read_env_property(ctx, env, "home") {
        Some(home) => if ctx.stat(&FsPath::parse(home.as_str())).is_none() {
            let limit = cat3(
                "the interpreter this environment was created from is not at `",
                home.as_str(),
                "` now; the environment cannot start until it is recreated",
            );
            b.limit(limit.as_str())
        } else {
            b
        },
        None => b,
    }
}

/// An environment uv made may share bytes with its cache.
pub open spec fn with_uv_facts(u: UnitModel, ctx: CtxModel, env: PathModel) -> UnitModel {
    match env_property(ctx, env, "uv"@) {
        Some(uv) => u.evidence("python-pyvenv-cfg"@, "created by uv "@ + uv, Confidence::High).membership(
            Membership::Unknown,
        ).limit(
            "uv links packages from its cache into this environment (hardlink or copy-on-write clone, per its link mode); bytes shared with the cache are charged once, where the walk first met them"@,
        ),
        None => u,
    }
}

fn add_uv_facts(b: NestedUnitBuilder, ctx: &BuildCtx, env: &FsPath) -> (r: NestedUnitBuilder)
    ensures
        r@ == with_uv_facts(b@, ctx@, env@),
{
    match read_env_property(ctx, env, "uv") {
        Some(uv) => {
            let detail = cat2("created by uv ", uv.as_str());
            b.evidence("python-pyvenv-cfg", detail.as_str(), Confidence::High).membership(
                Membership::Unknown,
            ).limit(
                "uv links packages from its cache into this environment (hardlink or copy-on-write clone, per its link mode); bytes shared with the cache are charged once, where the walk first met them",
            )
        },
        None => b,
    }
}

/// The row of one environment.
pub open spec fn env_root(c: ContainerModel, ctx: CtxModel, env: PathModel, is_container: bool) -> UnitModel {
    let b = env_base(c, ctx, env, is_container).variant(env_variant(ctx, env)).supported(
        "a virtual environment, identified by its own `pyvenv.cfg`"@,
    ).consequence(ENV_CONSEQUENCE@);
    with_uv_facts(with_home_facts(with_version_facts(b, ctx, env), ctx, env), ctx, env)
}

fn identify_env_root(container: &BuildContainer, ctx: &BuildCtx, env: &FsPath, is_container: bool) -> (r: NestedArtifact)
    ensures
        r@ == env_root(container@, ctx@, env@, is_container),
{
    let b = identify_env_base(container, ctx, env, is_container).variant(
        variant_of_env(ctx, env),
    ).supported_with_reason("a virtual environment, identified by its own `pyvenv.cfg`").consequence(
        ENV_CONSEQUENCE,
    );
    add_uv_facts(add_home_facts(add_version_facts(b, ctx, env), ctx, env), ctx, env).build()
}

/// One environment: its interpreter, and its installed packages.
pub open spec fn env_units(c: ContainerModel, ctx: CtxModel, env: PathModel, is_container: bool) -> Seq<UnitModel> {
    seq![env_root(c, ctx, env, is_container)] + site_packages(c, ctx, env)
}

pub fn identify_env(container: &BuildContainer, ctx: &BuildCtx, env: &FsPath, is_container: bool) -> (r: Vec<
    NestedArtifact,
>)
    ensures
        units_view(r@) == env_units(container@, ctx@, env@, is_container),
{
    let mut units = one(identify_env_root(container, ctx, env, is_container));
    append_units(&mut units, identify_site_packages(container, ctx, env));
    units
}

/// One child of `.tox` or `.nox`.
pub open spec fn env_child(c: ContainerModel, ctx: CtxModel, name: Seq<char>, d: DirModel) -> Seq<UnitModel> {
    let child = name_of(d.path);
    if env_here(ctx.facts, d.path) {
        env_units(c, ctx, d.path, false)
    } else if child == "log"@ || child == ".pkg"@ || child == ".tmp"@ {
        seq![
            UnitModel::known_dir(
                c,
                ArtifactRole::Metadata,
                d,
                "`"@ + name + "/"@ + child + "` is "@ + name + "'s own bookkeeping"@,
                "the next run rewrites it"@,
            ),
        ]
    } else {
        seq![
            UnitModel::unknown_dir(c, d, "`"@ + name + "/"@ + child + "` has no pyvenv.cfg: not an environment"@),
        ]
    }
}

fn identify_env_child(container: &BuildContainer, ctx: &BuildCtx, name: &str, d: &FoldedDir) -> (r: Vec<NestedArtifact>)
    ensures
        units_view(r@) == env_child(container@, ctx@, name@, d@),
{
    let owned = d.path.name();
    let child = owned.as_str();
    if has_env_marker(ctx, &d.path) {
        identify_env(container, ctx, &d.path, false)
    } else if same(child, "log") || same(child, ".pkg") || same(child, ".tmp") {
        let reason = cat7("`", name, "/", child, "` is ", name, "'s own bookkeeping");
        one(
            NestedUnitBuilder::known_dir(
                container,
                ArtifactRole::Metadata,
                d,
                reason.as_str(),
                "the next run rewrites it",
            ).build(),
        )
    } else {
        let limit = cat5("`", name, "/", child, "` has no pyvenv.cfg: not an environment");
        one(NestedUnitBuilder::unknown_dir(container, d, limit.as_str()).build())
    }
}

/// `.tox` and `.nox`: one environment per child.
pub open spec fn env_dir(c: ContainerModel, ctx: CtxModel, name: Seq<char>) -> Seq<UnitModel> {
    seq![project_unit(c, ctx)] + flat(child_rows(ctx.rows, c.path), |d: DirModel| env_child(c, ctx, name, d))
}

pub fn identify_env_dir(container: &BuildContainer, ctx: &BuildCtx, name: &str) -> (r: Vec<NestedArtifact>)
    ensures
        units_view(r@) == env_dir(container@, ctx@, name@),
{
    let mut units = one(identify_project_unit(container, ctx));
    let dirs = ctx.folded().children(&container.path);
    let more = each_dir(
        &dirs,
        |d: &FoldedDir| -> (out: Vec<NestedArtifact>)
            ensures
                units_view(out@) == env_child(container@, ctx@, name@, d@)
            { identify_env_child(container, ctx, name, d) },
        Ghost(|d: DirModel| env_child(container@, ctx@, name@, d)),
    );
    append_units(&mut units, more);
    units
}

// ---------------------------------------------------------------------
// Installed packages
// ---------------------------------------------------------------------

/// The distribution a `*.dist-info` directory's name carries.
pub open spec fn info_identity(d: DirModel) -> Option<(Seq<char>, Seq<char>)> {
    name_and_version(without_suffixes(name_of(d.path), ".dist-info"@))
}

fn read_info_identity(d: &FoldedDir) -> (r: Option<(String, String)>)
    ensures
        pair_text(r) == info_identity(d@),
{
    let name = d.path.name();
    let stem = trim_suffixes(name.as_str(), ".dist-info");
    split_name_version(stem.as_str())
}

/// Whether one of the lines, trimmed, is `entry`.
pub open spec fn lists_entry(ls: Seq<Seq<char>>, entry: Seq<char>) -> bool {
    entry.len() > 0 && exists|i: int| 0 <= i < ls.len() && trimmed(#[trigger] ls[i]) == entry
}

/// Whether a distribution's `top_level.txt` names a top-level entry.
pub open spec fn owns_entry(ctx: CtxModel, d: DirModel, entry: Seq<char>) -> bool {
    match whole_manifest_of(ctx.facts, joined_path(d.path, "top_level.txt"@)) {
        Some(m) => lists_entry(lines(m.text), entry),
        None => false,
    }
}

fn has_entry(ctx: &BuildCtx, d: &FoldedDir, entry: &str) -> (r: bool)
    ensures
        r == owns_entry(ctx@, d@, entry@),
{
    match ctx.whole_manifest(&d.path.join("top_level.txt")) {
        None => false,
        Some(m) => {
            let ls = split_lines(m.text.as_str());
            let ghost all = lines(m.text@);
            if entry.is_empty() {
                return false;
            }
            let mut i: usize = 0;
            while i < ls.len()
                invariant
                    i <= ls@.len(),
                    texts(ls@) == all,
                    entry@.len() > 0,
                    owns_entry(ctx@, d@, entry@) == lists_entry(all, entry@),
                    forall|k: int| 0 <= k < i ==> trimmed(#[trigger] all[k]) != entry@,
                decreases ls@.len() - i,
            {
                assert(all[i as int] == ls@[i as int]@);
                let t = trim(ls[i].as_str());
                if same(t.as_str(), entry) {
                    assert(trimmed(all[i as int]) == entry@);
                    return true;
                }
                i += 1;
            }
            false
        },
    }
}

/// The distribution that owns a top-level entry, among the first `n` that were
/// read: the last that names it.
pub open spec fn owner_of(ctx: CtxModel, infos: Seq<DirModel>, entry: Seq<char>, n: int) -> Option<
    (Seq<char>, Seq<char>),
>
    decreases n,
{
    if n <= 0 {
        None
    } else if info_identity(infos[n - 1]) is Some && owns_entry(ctx, infos[n - 1], entry) {
        info_identity(infos[n - 1])
    } else {
        owner_of(ctx, infos, entry, n - 1)
    }
}

fn find_owner(ctx: &BuildCtx, infos: &Vec<&FoldedDir>, entry: &str) -> (r: Option<(String, String)>)
    ensures
        pair_text(r) == owner_of(ctx@, dir_refs(infos@), entry@, infos@.len() as int),
{
    let ghost rows = dir_refs(infos@);
    let mut n: usize = infos.len();
    while n > 0
        invariant
            n <= infos@.len(),
            rows == dir_refs(infos@),
            owner_of(ctx@, rows, entry@, infos@.len() as int) == owner_of(ctx@, rows, entry@, n as int),
        decreases n,
    {
        let d = infos[n - 1];
        assert(rows[n - 1] == d@);
        match read_info_identity(d) {
            Some(p) => {
                if has_entry(ctx, d, entry) {
                    return Some(p);
                }
            },
            None => {},
        }
        n -= 1;
    }
    None
}

/// The local source that a `direct_url.json` names, if it names one.
pub open spec fn local_url(v: Option<JsonModel>) -> Option<Seq<char>> {
    match v {
        Some(n) => match text_under(n.get("url"@)) {
            Some(url) => if begins(url, "file://"@) {
                Some(without_prefixes(url, "file://"@))
            } else {
                None
            },
            None => None,
        },
        None => None,
    }
}

pub fn local_path_of(v: &Option<JsonNode>) -> (r: Option<String>)
    ensures
        opt_text(r) == local_url(read_as(*v)),
{
    match v {
        Some(n) => match text_of_node(n.get("url")) {
            Some(url) => if starts(url.as_str(), "file://") {
                Some(trim_prefixes(url.as_str(), "file://"))
            } else {
                None
            },
            None => None,
        },
        None => None,
    }
}

/// The local source a distribution was installed from.
pub open spec fn installed_from(ctx: CtxModel, d: DirModel) -> Option<Seq<char>> {
    match whole_manifest_of(ctx.facts, joined_path(d.path, "direct_url.json"@)) {
        Some(m) => local_url(parsed_json(m.text)),
        None => None,
    }
}

fn read_installed_from(ctx: &BuildCtx, d: &FoldedDir) -> (r: Option<String>)
    ensures
        opt_text(r) == installed_from(ctx@, d@),
{
    match ctx.whole_manifest(&d.path.join("direct_url.json")) {
        Some(m) => {
            let v = parse_json(m.text.as_str());
            local_path_of(&v)
        },
        None => None,
    }
}

/// The local source of a named distribution, among the first `n` that were
/// read: the last that has one.
pub open spec fn local_source(ctx: CtxModel, infos: Seq<DirModel>, name: Seq<char>, n: int) -> Option<Seq<char>>
    decreases n,
{
    if n <= 0 {
        None
    } else {
        let d = infos[n - 1];
        match info_identity(d) {
            Some((own, _)) => if own == name && installed_from(ctx, d) is Some {
                installed_from(ctx, d)
            } else {
                local_source(ctx, infos, name, n - 1)
            },
            None => local_source(ctx, infos, name, n - 1),
        }
    }
}

fn find_local_source(ctx: &BuildCtx, infos: &Vec<&FoldedDir>, name: &str) -> (r: Option<String>)
    ensures
        opt_text(r) == local_source(ctx@, dir_refs(infos@), name@, infos@.len() as int),
{
    let ghost rows = dir_refs(infos@);
    let mut n: usize = infos.len();
    while n > 0
        invariant
            n <= infos@.len(),
            rows == dir_refs(infos@),
            local_source(ctx@, rows, name@, infos@.len() as int) == local_source(ctx@, rows, name@, n as int),
        decreases n,
    {
        let d = infos[n - 1];
        assert(rows[n - 1] == d@);
        match read_info_identity(d) {
            Some(p) => {
                if same(p.0.as_str(), name) {
                    match read_installed_from(ctx, d) {
                        Some(src) => {
                            return Some(src);
                        },
                        None => {},
                    }
                }
            },
            None => {},
        }
        n -= 1;
    }
    None
}

/// What is read of one `site-packages` directory before its entries are named.
pub struct SiteModel {
    pub python: Option<Seq<char>>,
    /// The `*.dist-info` directories that were read.
    pub read: Seq<DirModel>,
    /// How many there are.
    pub total: nat,
}

pub struct Site<'a> {
    pub python: Option<String>,
    pub read: Vec<&'a FoldedDir>,
    pub total: usize,
}

impl<'a> View for Site<'a> {
    type V = SiteModel;

    open spec fn view(&self) -> SiteModel {
        SiteModel { python: opt_text(self.python), read: dir_refs(self.read@), total: self.total as nat }
    }
}

pub open spec fn site_of(ctx: CtxModel, site: DirModel) -> SiteModel {
    let infos = by_path(
        child_rows(ctx.rows, site.path).filter(|d: DirModel| finishes(name_of(d.path), ".dist-info"@)),
    );
    SiteModel {
        python: match parent(site.path) {
            Some(p) => if begins(name_of(p), "python"@) {
                Some(name_of(p))
            } else {
                None
            },
            None => None,
        },
        read: infos.take(first_of(infos.len(), DIST_INFO_BUDGET as nat)),
        total: infos.len(),
    }
}

fn read_site<'a>(ctx: &'a BuildCtx, site: &FoldedDir) -> (r: Site<'a>)
    ensures
        r@ == site_of(ctx@, site@),
{
    let entries = ctx.folded().children(&site.path);
    let found = filter_dirs(
        &entries,
        |d: &FoldedDir| -> (keep: bool)
            ensures
                keep == finishes(name_of(d@.path), ".dist-info"@)
            {
                let name = d.path.name();
                ends(name.as_str(), ".dist-info")
            },
        Ghost(|d: DirModel| finishes(name_of(d.path), ".dist-info"@)),
    );
    let infos = sort_by_path(&found);
    assert(infos@.len() == dir_refs(infos@).len());
    let total: usize = infos.len();
    let (read, _) = split_dirs(&infos, DIST_INFO_BUDGET);
    let python = match site.path.parent() {
        Some(p) => {
            let name = p.name();
            if starts(name.as_str(), "python") {
                Some(name)
            } else {
                None
            }
        },
        None => None,
    };
    Site { python, read, total }
}

/// The identity of a top-level entry: its own name, for a `*.dist-info`
/// directory; else the distribution whose `top_level.txt` names it, never a
/// guess from the entry's name.
pub open spec fn entry_identity(ctx: CtxModel, s: SiteModel, entry: Seq<char>) -> Option<(Seq<char>, Seq<char>)> {
    match before_suffix(entry, ".dist-info"@) {
        Some(stem) => name_and_version(stem),
        None => owner_of(ctx, s.read, entry, s.read.len() as int),
    }
}

fn find_identity(ctx: &BuildCtx, s: &Site, entry: &str) -> (r: Option<(String, String)>)
    ensures
        pair_text(r) == entry_identity(ctx@, s@, entry@),
{
    match drop_suffix(entry, ".dist-info") {
        Some(stem) => split_name_version(stem.as_str()),
        None => {
            assert(s@.read.len() == s.read@.len());
            find_owner(ctx, &s.read, entry)
        },
    }
}

/// What is said of an entry that no distribution names.
pub open spec fn unowned_limit(s: SiteModel) -> Seq<char> {
    if s.total > DIST_INFO_BUDGET {
        "no distribution's top_level.txt names this entry (only 400 of "@ + decimal(s.total)
            + " dist-info directories were read)"@
    } else {
        "no distribution's top_level.txt names this entry; its identity is not guessed from the directory name"@
    }
}

/// One entry of `site-packages`.
pub open spec fn site_entry(c: ContainerModel, ctx: CtxModel, s: SiteModel, d: DirModel) -> Seq<UnitModel> {
    let entry = name_of(d.path);
    if entry == "__pycache__"@ {
        seq![
            UnitModel::known_dir(
                c,
                ArtifactRole::Intermediate,
                d,
                "`site-packages/__pycache__` is bytecode for top-level modules"@,
                "the interpreter recompiles it on the next import"@,
            ),
        ]
    } else {
        let b = UnitModel::blank(c, ArtifactRole::InstalledDependencies, d.path).folded(d).consequence(
            "reinstall this distribution into the environment -- needs index access"@,
        ).supported("a top-level entry of an environment's site-packages"@);
        let v = VariantModel { toolchain: s.python, ..no_variant() };
        match entry_identity(ctx, s, entry) {
            Some((name, version)) => {
                let named = b.evidence("python-dist-info"@, name + "=="@ + version, Confidence::High);
                let placed = match local_source(ctx, s.read, name, s.read.len() as int) {
                    Some(src) => named.evidence(
                        "python-direct-url"@,
                        "installed from the local source `"@ + src + "`"@,
                        Confidence::High,
                    ).consequence(
                        "reinstall from the local source at `"@ + src + "` (for example `pip install -e "@ + src
                            + "`)"@,
                    ),
                    None => named,
                };
                seq![placed.variant(v.with_package(name).with_version(version).unknown("build-generation"@))]
            },
            None => seq![
                b.limit(unowned_limit(s)).variant(
                    v.unknown("package"@).unknown("version"@).unknown("build-generation"@),
                ),
            ],
        }
    }
}

fn identify_site_entry(container: &BuildContainer, ctx: &BuildCtx, s: &Site, d: &FoldedDir) -> (r: Vec<NestedArtifact>)
    ensures
        units_view(r@) == site_entry(container@, ctx@, s@, d@),
{
    let owned = d.path.name();
    let entry = owned.as_str();
    if same(entry, "__pycache__") {
        return one(
            NestedUnitBuilder::known_dir(
                container,
                ArtifactRole::Intermediate,
                d,
                "`site-packages/__pycache__` is bytecode for top-level modules",
                "the interpreter recompiles it on the next import",
            ).build(),
        );
    }
    let b = NestedUnitBuilder::new(container, ArtifactRole::InstalledDependencies, d.path.copy()).folded(
        d,
    ).consequence("reinstall this distribution into the environment -- needs index access").supported_with_reason(
        "a top-level entry of an environment's site-packages",
    );
    let mut v = ArtifactVariant::none();
    v.toolchain = copy_opt(&s.python);
    match find_identity(ctx, s, entry) {
        Some((name, version)) => {
            let detail = cat3(name.as_str(), "==", version.as_str());
            let named = b.evidence("python-dist-info", detail.as_str(), Confidence::High);
            assert(s@.read.len() == s.read@.len());
            let placed = match find_local_source(ctx, &s.read, name.as_str()) {
                Some(src) => {
                    let from = cat3("installed from the local source `", src.as_str(), "`");
                    let again = cat5(
                        "reinstall from the local source at `",
                        src.as_str(),
                        "` (for example `pip install -e ",
                        src.as_str(),
                        "`)",
                    );
                    named.evidence("python-direct-url", from.as_str(), Confidence::High).consequence(again.as_str())
                },
                None => named,
            };
            one(
                placed.variant(
                    v.with_package(name.as_str()).with_version(version.as_str()).unknown("build-generation"),
                ).build(),
            )
        },
        None => {
            let limit = if s.total > DIST_INFO_BUDGET {
                let number = write_u64(s.total as u64);
                cat3(
                    "no distribution's top_level.txt names this entry (only 400 of ",
                    number.as_str(),
                    " dist-info directories were read)",
                )
            } else {
                "no distribution's top_level.txt names this entry; its identity is not guessed from the directory name".to_owned()
            };
            one(
                b.limit(limit.as_str()).variant(
                    v.unknown("package").unknown("version").unknown("build-generation"),
                ).build(),
            )
        },
    }
}

/// The entries of one `site-packages` directory.
pub open spec fn site_units(c: ContainerModel, ctx: CtxModel, site: DirModel) -> Seq<UnitModel> {
    flat(child_rows(ctx.rows, site.path), |d: DirModel| site_entry(c, ctx, site_of(ctx, site), d))
}

fn identify_site(container: &BuildContainer, ctx: &BuildCtx, site: &FoldedDir) -> (r: Vec<NestedArtifact>)
    ensures
        units_view(r@) == site_units(container@, ctx@, site@),
{
    let s = read_site(ctx, site);
    let dirs = ctx.folded().children(&site.path);
    each_dir(
        &dirs,
        |d: &FoldedDir| -> (out: Vec<NestedArtifact>)
            ensures
                units_view(out@) == site_entry(container@, ctx@, site_of(ctx@, site@), d@)
            { identify_site_entry(container, ctx, &s, d) },
        Ghost(|d: DirModel| site_entry(container@, ctx@, site_of(ctx@, site@), d)),
    )
}

/// The units of the `site-packages` directly under `dir`, where it was
/// measured.
pub open spec fn site_in(c: ContainerModel, ctx: CtxModel, dir: PathModel) -> Seq<UnitModel> {
    match row_of(ctx.rows, joined_path(dir, "site-packages"@)) {
        Some(site) => site_units(c, ctx, site),
        None => Seq::empty(),
    }
}

fn identify_site_in(container: &BuildContainer, ctx: &BuildCtx, dir: &FsPath) -> (r: Vec<NestedArtifact>)
    ensures
        units_view(r@) == site_in(container@, ctx@, dir@),
{
    match ctx.folded().get(&dir.join("site-packages")) {
        Some(site) => identify_site(container, ctx, site),
        None => no_units(),
    }
}

/// The units of a library directory's own `site-packages`, and then of each
/// interpreter's under it.
pub open spec fn lib_units(c: ContainerModel, ctx: CtxModel, lib: PathModel) -> Seq<UnitModel> {
    site_in(c, ctx, lib) + flat(child_rows(ctx.rows, lib), |py: DirModel| site_in(c, ctx, py.path))
}

fn identify_lib(container: &BuildContainer, ctx: &BuildCtx, lib: &FsPath) -> (r: Vec<NestedArtifact>)
    ensures
        units_view(r@) == lib_units(container@, ctx@, lib@),
{
    let mut units = identify_site_in(container, ctx, lib);
    let dirs = ctx.folded().children(lib);
    let more = each_dir(
        &dirs,
        |py: &FoldedDir| -> (out: Vec<NestedArtifact>)
            ensures
                units_view(out@) == site_in(container@, ctx@, py@.path)
            { identify_site_in(container, ctx, &py.path) },
        Ghost(|py: DirModel| site_in(container@, ctx@, py.path)),
    );
    append_units(&mut units, more);
    units
}

/// The installed packages of an environment: one unit per top-level entry.
pub open spec fn site_packages(c: ContainerModel, ctx: CtxModel, env: PathModel) -> Seq<UnitModel> {
    lib_units(c, ctx, joined_path(env, "lib"@)) + lib_units(c, ctx, joined_path(env, "Lib"@)) + lib_units(
        c,
        ctx,
        joined_path(env, "lib64"@),
    )
}

pub fn identify_site_packages(container: &BuildContainer, ctx: &BuildCtx, env: &FsPath) -> (r: Vec<NestedArtifact>)
    ensures
        units_view(r@) == site_packages(container@, ctx@, env@),
{
    let mut units = identify_lib(container, ctx, &env.join("lib"));
    append_units(&mut units, identify_lib(container, ctx, &env.join("Lib")));
    append_units(&mut units, identify_lib(container, ctx, &env.join("lib64")));
    units
}

// ---------------------------------------------------------------------
// Eggs
// ---------------------------------------------------------------------

/// `<name>-<version>-py<X.Y>.egg`, the last part optional.
pub open spec fn egg_name(file: Seq<char>) -> Option<(Seq<char>, Seq<char>, Option<Seq<char>>)> {
    match before_suffix(file, ".egg"@) {
        None => None,
        Some(stem) => match cut_first(stem, '-') {
            None => None,
            Some((name, rest)) => {
                let (version, python) = match cut_first(rest, '-') {
                    Some((v, p)) => (v, Some(p)),
                    None => (rest, None),
                };
                if is_versionish(version) {
                    Some((name, version, python))
                } else {
                    None
                }
            },
        },
    }
}

/// One child of `.eggs`.
pub open spec fn egg_child(c: ContainerModel, d: DirModel) -> Seq<UnitModel> {
    let name = name_of(d.path);
    match egg_name(name) {
        Some((n, v, py)) => seq![
            UnitModel::known_dir(
                c,
                ArtifactRole::InstalledDependencies,
                d,
                "`.eggs/"@ + name + "` is an egg setuptools fetched"@,
                "setuptools fetches it again -- needs index access"@,
            ).variant(VariantModel { package: Some(n), version: Some(v), toolchain: py, ..no_variant() }),
        ],
        None => seq![UnitModel::unknown_dir(c, d, "`.eggs/"@ + name + "` is not named like an egg"@)],
    }
}

fn read_egg_name(file: &str) -> (r: Option<(String, String, Option<String>)>)
    ensures
        match r {
            Some(e) => egg_name(file@) == Some((e.0@, e.1@, opt_text(e.2))),
            None => egg_name(file@) is None,
        },
{
    match drop_suffix(file, ".egg") {
        None => None,
        Some(stem) => match split_first(stem.as_str(), '-') {
            None => None,
            Some((name, rest)) => {
                let (version, python): (String, Option<String>) = match split_first(rest.as_str(), '-') {
                    Some((v, p)) => (v, Some(p)),
                    None => (rest, None),
                };
                if versionish(version.as_str()) {
                    Some((name, version, python))
                } else {
                    None
                }
            },
        },
    }
}

fn identify_egg_child(container: &BuildContainer, d: &FoldedDir) -> (r: Vec<NestedArtifact>)
    ensures
        units_view(r@) == egg_child(container@, d@),
{
    let name = d.path.name();
    match read_egg_name(name.as_str()) {
        Some((n, v, py)) => {
            let reason = cat3("`.eggs/", name.as_str(), "` is an egg setuptools fetched");
            let mut variant = ArtifactVariant::none();
            variant.package = Some(n);
            variant.version = Some(v);
            variant.toolchain = py;
            one(
                NestedUnitBuilder::known_dir(
                    container,
                    ArtifactRole::InstalledDependencies,
                    d,
                    reason.as_str(),
                    "setuptools fetches it again -- needs index access",
                ).variant(variant).build(),
            )
        },
        None => {
            let limit = cat3("`.eggs/", name.as_str(), "` is not named like an egg");
            one(NestedUnitBuilder::unknown_dir(container, d, limit.as_str()).build())
        },
    }
}

pub open spec fn eggs(c: ContainerModel, ctx: CtxModel) -> Seq<UnitModel> {
    seq![project_unit(c, ctx)] + flat(child_rows(ctx.rows, c.path), |d: DirModel| egg_child(c, d))
}

pub fn identify_eggs(container: &BuildContainer, ctx: &BuildCtx) -> (r: Vec<NestedArtifact>)
    ensures
        units_view(r@) == eggs(container@, ctx@),
{
    let mut units = one(identify_project_unit(container, ctx));
    let dirs = ctx.folded().children(&container.path);
    let more = each_dir(
        &dirs,
        |d: &FoldedDir| -> (out: Vec<NestedArtifact>)
            ensures
                units_view(out@) == egg_child(container@, d@)
            { identify_egg_child(container, d) },
        Ghost(|d: DirModel| egg_child(container@, d)),
    );
    append_units(&mut units, more);
    units
}

/// `*.egg-info`: identity from its own `PKG-INFO`.
pub open spec fn egg_info(c: ContainerModel, ctx: CtxModel) -> Seq<UnitModel> {
    let b = UnitModel::container_root(c, ctx, ArtifactRole::Metadata).supported(
        "`*.egg-info` is setuptools' project metadata directory"@,
    ).consequence("the next setuptools build or editable install rewrites it"@);
    match whole_manifest_of(ctx.facts, joined_path(c.path, "PKG-INFO"@)) {
        None => seq![
            b.limit(
                "PKG-INFO is missing, unreadable or larger than the manifest cap: the distribution is unknown, and not guessed from the directory name"@,
            ).variant(no_variant().unknown("package"@).unknown("version"@)),
        ],
        Some(m) => match (header_of(m.text, "Name"@), header_of(m.text, "Version"@)) {
            (Some(n), Some(v)) => seq![
                b.evidence("python-pkg-info"@, n + "=="@ + v, Confidence::High).variant(
                    no_variant().with_package(n).with_version(v),
                ),
            ],
            (Some(n), None) => seq![
                b.limit("PKG-INFO names no version"@).variant(no_variant().with_package(n).unknown("version"@)),
            ],
            (None, Some(v)) => seq![
                b.limit("PKG-INFO names no distribution"@).variant(
                    no_variant().with_version(v).unknown("package"@),
                ),
            ],
            (None, None) => seq![
                b.limit("PKG-INFO names no distribution"@).limit("PKG-INFO names no version"@).variant(
                    no_variant().unknown("package"@).unknown("version"@),
                ),
            ],
        },
    }
}

pub fn identify_egg_info(container: &BuildContainer, ctx: &BuildCtx) -> (r: Vec<NestedArtifact>)
    ensures
        units_view(r@) == egg_info(container@, ctx@),
{
    let b = NestedUnitBuilder::container_root(container, ctx, ArtifactRole::Metadata).supported_with_reason(
        "`*.egg-info` is setuptools' project metadata directory",
    ).consequence("the next setuptools build or editable install rewrites it");
    match ctx.whole_manifest(&container.path.join("PKG-INFO")) {
        None => one(
            b.limit(
                "PKG-INFO is missing, unreadable or larger than the manifest cap: the distribution is unknown, and not guessed from the directory name",
            ).variant(ArtifactVariant::none().unknown("package").unknown("version")).build(),
        ),
        Some(m) => match (header(m.text.as_str(), "Name"), header(m.text.as_str(), "Version")) {
            (Some(n), Some(v)) => {
                let detail = cat3(n.as_str(), "==", v.as_str());
                one(
                    b.evidence("python-pkg-info", detail.as_str(), Confidence::High).variant(
                        ArtifactVariant::none().with_package(n.as_str()).with_version(v.as_str()),
                    ).build(),
                )
            },
            (Some(n), None) => one(
                b.limit("PKG-INFO names no version").variant(
                    ArtifactVariant::none().with_package(n.as_str()).unknown("version"),
                ).build(),
            ),
            (None, Some(v)) => one(
                b.limit("PKG-INFO names no distribution").variant(
                    ArtifactVariant::none().with_version(v.as_str()).unknown("package"),
                ).build(),
            ),
            (None, None) => one(
                b.limit("PKG-INFO names no distribution").limit("PKG-INFO names no version").variant(
                    ArtifactVariant::none().unknown("package").unknown("version"),
                ).build(),
            ),
        },
    }
}

// ---------------------------------------------------------------------
// Shared stores
// ---------------------------------------------------------------------

pub open spec fn store_root(c: ContainerModel, ctx: CtxModel, what: Seq<char>, consequence: Seq<char>) -> UnitModel {
    UnitModel::container_root(c, ctx, ArtifactRole::SharedStoreEntry).supported(
        what + ", shared by every project on this machine"@,
    ).evidence("python-store"@, what, Confidence::Medium).membership(Membership::Unknown).consequence(
        consequence,
    ).no_action_because("this store is shared across projects and environments"@)
}

fn identify_store_root(container: &BuildContainer, ctx: &BuildCtx, what: &str, consequence: &str) -> (r: NestedArtifact)
    ensures
        r@ == store_root(container@, ctx@, what@, consequence@),
{
    let reason = cat2(what, ", shared by every project on this machine");
    NestedUnitBuilder::container_root(container, ctx, ArtifactRole::SharedStoreEntry).supported_with_reason(
        reason.as_str(),
    ).evidence("python-store", what, Confidence::Medium).membership(Membership::Unknown).consequence(
        consequence,
    ).no_action_because("this store is shared across projects and environments").build()
}

/// A cache directory's name with its layout version split off: `wheels-v5` is
/// `wheels`, layout `5`.
pub open spec fn layout_named(name: Seq<char>) -> (Seq<char>, Option<Seq<char>>) {
    match cut_at_last(name, "-v"@) {
        Some((h, v)) => if v.len() > 0 && all_digits(v) {
            (h, Some(v))
        } else {
            (name, None)
        },
        None => (name, None),
    }
}

pub fn layout_version(name: &str) -> (r: (String, Option<String>))
    ensures
        (r.0@, opt_text(r.1)) == layout_named(name@),
{
    match split_at_last(name, "-v") {
        Some((h, v)) => if !v.as_str().is_empty() && only_digits(v.as_str()) {
            (h, Some(v))
        } else {
            (name.to_owned(), None)
        },
        None => (name.to_owned(), None),
    }
}

/// What a layout version makes of a unit.
pub open spec fn layout_variant(category: Seq<char>, version: Option<Seq<char>>) -> VariantModel {
    VariantModel {
        configuration: match version {
            Some(v) => Some(category + " layout "@ + v),
            None => None,
        },
        ..no_variant()
    }
}

fn variant_of_layout(category: &str, version: &Option<String>) -> (r: ArtifactVariant)
    ensures
        r@ == layout_variant(category@, opt_text(*version)),
{
    let mut v = ArtifactVariant::none();
    v.configuration = match version {
        Some(n) => Some(cat3(category, " layout ", n.as_str())),
        None => None,
    };
    v
}

/// The directories of pip's cache.
pub open spec fn pip_parts_spec() -> Seq<PartModel> {
    seq![
        PartModel {
            name: "http"@,
            role: ArtifactRole::SharedStoreEntry,
            what: "cached index responses and downloaded distributions"@,
            consequence: "pip downloads these again -- needs index access"@,
        },
        PartModel {
            name: "wheels"@,
            role: ArtifactRole::SharedStoreEntry,
            what: "wheels pip built locally from source distributions, keyed by a hash of their link"@,
            consequence: "pip rebuilds these wheels from source on the next install"@,
        },
        PartModel {
            name: "selfcheck"@,
            role: ArtifactRole::Metadata,
            what: "pip's own version-check state"@,
            consequence: "pip rewrites it"@,
        },
    ]
}

fn pip_parts() -> (r: Vec<KnownPart>)
    ensures
        views(r@) == pip_parts_spec(),
{
    let r: Vec<KnownPart> = vec![
        KnownPart {
            name: "http",
            role: ArtifactRole::SharedStoreEntry,
            what: "cached index responses and downloaded distributions",
            consequence: "pip downloads these again -- needs index access",
        },
        KnownPart {
            name: "wheels",
            role: ArtifactRole::SharedStoreEntry,
            what: "wheels pip built locally from source distributions, keyed by a hash of their link",
            consequence: "pip rebuilds these wheels from source on the next install",
        },
        KnownPart {
            name: "selfcheck",
            role: ArtifactRole::Metadata,
            what: "pip's own version-check state",
            consequence: "pip rewrites it",
        },
    ];
    assert(views(r@) =~= pip_parts_spec());
    r
}

/// One directory of pip's cache.
pub open spec fn pip_child(c: ContainerModel, d: DirModel) -> Seq<UnitModel> {
    let name = name_of(d.path);
    let (category, version) = layout_named(name);
    match part_named(pip_parts_spec(), category) {
        Some(p) => seq![
            UnitModel::known_dir(c, p.role, d, "`"@ + name + "` holds "@ + p.what, p.consequence).variant(
                layout_variant(category, version),
            ).limit("entries are keyed by hashes: which project needed one is not recorded"@).membership(
                Membership::Unknown,
            ).no_action_because("the cache is shared by every pip install on this machine"@),
        ],
        None => seq![
            UnitModel::unknown_dir(
                c,
                d,
                "`"@ + name + "` is not a pip cache directory this adapter identifies"@,
            ),
        ],
    }
}

fn identify_pip_child(container: &BuildContainer, d: &FoldedDir) -> (r: Vec<NestedArtifact>)
    ensures
        units_view(r@) == pip_child(container@, d@),
{
    let name = d.path.name();
    let (category, version) = layout_version(name.as_str());
    let table = pip_parts();
    match find_part(&table, category.as_str()) {
        Some(p) => {
            let reason = cat4("`", name.as_str(), "` holds ", p.what);
            one(
                NestedUnitBuilder::known_dir(container, p.role, d, reason.as_str(), p.consequence).variant(
                    variant_of_layout(category.as_str(), &version),
                ).limit("entries are keyed by hashes: which project needed one is not recorded").membership(
                    Membership::Unknown,
                ).no_action_because("the cache is shared by every pip install on this machine").build(),
            )
        },
        None => {
            let limit = cat3("`", name.as_str(), "` is not a pip cache directory this adapter identifies");
            one(NestedUnitBuilder::unknown_dir(container, d, limit.as_str()).build())
        },
    }
}

pub open spec fn pip_cache(c: ContainerModel, ctx: CtxModel) -> Seq<UnitModel> {
    seq![
        store_root(
            c,
            ctx,
            "pip's download and wheel cache"@,
            "pip downloads (and builds) packages again on the next install -- needs index access"@,
        ),
    ] + flat(child_rows(ctx.rows, c.path), |d: DirModel| pip_child(c, d))
}

pub fn identify_pip_cache(container: &BuildContainer, ctx: &BuildCtx) -> (r: Vec<NestedArtifact>)
    ensures
        units_view(r@) == pip_cache(container@, ctx@),
{
    let mut units = one(
        identify_store_root(
            container,
            ctx,
            "pip's download and wheel cache",
            "pip downloads (and builds) packages again on the next install -- needs index access",
        ),
    );
    let dirs = ctx.folded().children(&container.path);
    let more = each_dir(
        &dirs,
        |d: &FoldedDir| -> (out: Vec<NestedArtifact>)
            ensures
                units_view(out@) == pip_child(container@, d@)
            { identify_pip_child(container, d) },
        Ghost(|d: DirModel| pip_child(container@, d)),
    );
    append_units(&mut units, more);
    units
}

/// The buckets of uv's cache.
pub open spec fn uv_parts_spec() -> Seq<PartModel> {
    seq![
        PartModel {
            name: "archive"@,
            role: ArtifactRole::SharedStoreEntry,
            what: "unpacked wheels, content-addressed: what environments link to"@,
            consequence: "uv unpacks these again from downloaded wheels"@,
        },
        PartModel {
            name: "wheels"@,
            role: ArtifactRole::SharedStoreEntry,
            what: "downloaded and locally built wheels"@,
            consequence: "uv downloads or rebuilds these -- needs index access or the source"@,
        },
        PartModel {
            name: "built-wheels"@,
            role: ArtifactRole::SharedStoreEntry,
            what: "downloaded and locally built wheels"@,
            consequence: "uv downloads or rebuilds these -- needs index access or the source"@,
        },
        PartModel {
            name: "sdists"@,
            role: ArtifactRole::SharedStoreEntry,
            what: "source distributions and the wheels uv built from them"@,
            consequence: "uv downloads and rebuilds these -- needs index access or the source"@,
        },
        PartModel {
            name: "simple"@,
            role: ArtifactRole::Metadata,
            what: "cached index (simple API) responses"@,
            consequence: "uv queries the index again"@,
        },
        PartModel {
            name: "git"@,
            role: ArtifactRole::Intermediate,
            what: "git checkouts of git dependencies"@,
            consequence: "uv clones these repositories again -- needs access to them"@,
        },
        PartModel {
            name: "interpreter"@,
            role: ArtifactRole::Metadata,
            what: "facts uv recorded about interpreters it inspected"@,
            consequence: "uv re-inspects the interpreters"@,
        },
        PartModel {
            name: "environments"@,
            role: ArtifactRole::InstalledDependencies,
            what: "cached environments for `uv run` scripts and `uvx` tools"@,
            consequence: "uv recreates them on the next run -- needs index access"@,
        },
        PartModel {
            name: "builds"@,
            role: ArtifactRole::Intermediate,
            what: "isolated build environments"@,
            consequence: "uv recreates them for the next build"@,
        },
    ]
}

fn uv_parts() -> (r: Vec<KnownPart>)
    ensures
        views(r@) == uv_parts_spec(),
{
    let r: Vec<KnownPart> = vec![
        KnownPart {
            name: "archive",
            role: ArtifactRole::SharedStoreEntry,
            what: "unpacked wheels, content-addressed: what environments link to",
            consequence: "uv unpacks these again from downloaded wheels",
        },
        KnownPart {
            name: "wheels",
            role: ArtifactRole::SharedStoreEntry,
            what: "downloaded and locally built wheels",
            consequence: "uv downloads or rebuilds these -- needs index access or the source",
        },
        KnownPart {
            name: "built-wheels",
            role: ArtifactRole::SharedStoreEntry,
            what: "downloaded and locally built wheels",
            consequence: "uv downloads or rebuilds these -- needs index access or the source",
        },
        KnownPart {
            name: "sdists",
            role: ArtifactRole::SharedStoreEntry,
            what: "source distributions and the wheels uv built from them",
            consequence: "uv downloads and rebuilds these -- needs index access or the source",
        },
        KnownPart {
            name: "simple",
            role: ArtifactRole::Metadata,
            what: "cached index (simple API) responses",
            consequence: "uv queries the index again",
        },
        KnownPart {
            name: "git",
            role: ArtifactRole::Intermediate,
            what: "git checkouts of git dependencies",
            consequence: "uv clones these repositories again -- needs access to them",
        },
        KnownPart {
            name: "interpreter",
            role: ArtifactRole::Metadata,
            what: "facts uv recorded about interpreters it inspected",
            consequence: "uv re-inspects the interpreters",
        },
        KnownPart {
            name: "environments",
            role: ArtifactRole::InstalledDependencies,
            what: "cached environments for `uv run` scripts and `uvx` tools",
            consequence: "uv recreates them on the next run -- needs index access",
        },
        KnownPart {
            name: "builds",
            role: ArtifactRole::Intermediate,
            what: "isolated build environments",
            consequence: "uv recreates them for the next build",
        },
    ];
    assert(views(r@) =~= uv_parts_spec());
    r
}

/// One package of an index directory of uv's cache.
pub open spec fn uv_package(c: ContainerModel, bucket: Seq<char>, index: Seq<char>, d: DirModel) -> Seq<UnitModel> {
    let name = name_of(d.path);
    seq![
        UnitModel::known_dir(
            c,
            ArtifactRole::SharedStoreEntry,
            d,
            "`"@ + bucket + "/"@ + index + "/"@ + name
                + "` is uv's cache for one package, keyed by its normalized name"@,
            "uv downloads this package again -- needs index access"@,
        ).variant(
            if index == "pypi"@ {
                no_variant().with_package(name).unknown("version"@)
            } else {
                no_variant().unknown("package"@).unknown("version"@)
            },
        ).membership(Membership::Unknown).no_action_because(UV_SHARED@),
    ]
}

fn identify_uv_package(container: &BuildContainer, bucket: &str, index: &str, d: &FoldedDir) -> (r: Vec<NestedArtifact>)
    ensures
        units_view(r@) == uv_package(container@, bucket@, index@, d@),
{
    let name = d.path.name();
    let reason = cat7(
        "`",
        bucket,
        "/",
        index,
        "/",
        name.as_str(),
        "` is uv's cache for one package, keyed by its normalized name",
    );
    let v = if same(index, "pypi") {
        ArtifactVariant::none().with_package(name.as_str()).unknown("version")
    } else {
        ArtifactVariant::none().unknown("package").unknown("version")
    };
    one(
        NestedUnitBuilder::known_dir(
            container,
            ArtifactRole::SharedStoreEntry,
            d,
            reason.as_str(),
            "uv downloads this package again -- needs index access",
        ).variant(v).membership(Membership::Unknown).no_action_because(UV_SHARED).build(),
    )
}

/// One index directory of a package bucket: a package index by name, builds
/// from other sources by hash, or nothing this adapter identifies.
pub open spec fn uv_index(c: ContainerModel, ctx: CtxModel, bucket: Seq<char>, d: DirModel) -> Seq<UnitModel> {
    let index = name_of(d.path);
    if index == "pypi"@ || index == "index"@ {
        flat(child_rows(ctx.rows, d.path), |p: DirModel| uv_package(c, bucket, index, p))
    } else if index == "path"@ || index == "git"@ || index == "url"@ {
        let local = index == "path"@;
        seq![
            UnitModel::known_dir(
                c,
                ArtifactRole::SharedStoreEntry,
                d,
                "`"@ + bucket + "/"@ + index + "` holds builds from "@ + (if local {
                    "local"@
                } else {
                    "non-index"@
                }) + " sources"@,
                if local {
                    "uv rebuilds these from the local source trees they came from"@
                } else {
                    "uv fetches and rebuilds these from their source"@
                },
            ).limit(
                "entries are keyed by a hash of the source; the source location is recorded inside the entry, which is not read"@,
            ).membership(Membership::Unknown).no_action_because(UV_SHARED@),
        ]
    } else {
        seq![UnitModel::unknown_dir(c, d, "`"@ + bucket + "/"@ + index + "` is not an index directory"@)]
    }
}

fn identify_uv_index(container: &BuildContainer, ctx: &BuildCtx, bucket: &str, d: &FoldedDir) -> (r: Vec<NestedArtifact>)
    ensures
        units_view(r@) == uv_index(container@, ctx@, bucket@, d@),
{
    let owned = d.path.name();
    let index = owned.as_str();
    if same(index, "pypi") || same(index, "index") {
        let dirs = ctx.folded().children(&d.path);
        each_dir(
            &dirs,
            |p: &FoldedDir| -> (out: Vec<NestedArtifact>)
                ensures
                    units_view(out@) == uv_package(container@, bucket@, index@, p@)
                { identify_uv_package(container, bucket, index, p) },
            Ghost(|p: DirModel| uv_package(container@, bucket@, index@, p)),
        )
    } else if same(index, "path") || same(index, "git") || same(index, "url") {
        let local = same(index, "path");
        let kind: &str = if local {
            "local"
        } else {
            "non-index"
        };
        let consequence: &str = if local {
            "uv rebuilds these from the local source trees they came from"
        } else {
            "uv fetches and rebuilds these from their source"
        };
        let reason = cat7("`", bucket, "/", index, "` holds builds from ", kind, " sources");
        one(
            NestedUnitBuilder::known_dir(
                container,
                ArtifactRole::SharedStoreEntry,
                d,
                reason.as_str(),
                consequence,
            ).limit(
                "entries are keyed by a hash of the source; the source location is recorded inside the entry, which is not read",
            ).membership(Membership::Unknown).no_action_because(UV_SHARED).build(),
        )
    } else {
        let limit = cat5("`", bucket, "/", index, "` is not an index directory");
        one(NestedUnitBuilder::unknown_dir(container, d, limit.as_str()).build())
    }
}

pub open spec fn uv_packages(c: ContainerModel, ctx: CtxModel, bucket: PathModel, name: Seq<char>) -> Seq<UnitModel> {
    flat(child_rows(ctx.rows, bucket), |d: DirModel| uv_index(c, ctx, name, d))
}

pub fn identify_uv_packages(container: &BuildContainer, ctx: &BuildCtx, bucket: &FsPath, bucket_name: &str) -> (r: Vec<
    NestedArtifact,
>)
    ensures
        units_view(r@) == uv_packages(container@, ctx@, bucket@, bucket_name@),
{
    let dirs = ctx.folded().children(bucket);
    each_dir(
        &dirs,
        |d: &FoldedDir| -> (out: Vec<NestedArtifact>)
            ensures
                units_view(out@) == uv_index(container@, ctx@, bucket_name@, d@)
            { identify_uv_index(container, ctx, bucket_name, d) },
        Ghost(|d: DirModel| uv_index(container@, ctx@, bucket_name@, d)),
    )
}

pub open spec fn holds_packages(bucket: Seq<char>) -> bool {
    bucket == "wheels"@ || bucket == "built-wheels"@ || bucket == "sdists"@
}

/// One bucket of uv's cache.
pub open spec fn uv_child(c: ContainerModel, ctx: CtxModel, d: DirModel) -> Seq<UnitModel> {
    let name = name_of(d.path);
    let (bucket, version) = layout_named(name);
    match part_named(uv_parts_spec(), bucket) {
        Some(p) => seq![
            UnitModel::known_dir(c, p.role, d, "`"@ + name + "` holds "@ + p.what, p.consequence).variant(
                layout_variant(bucket, version),
            ).membership(Membership::Unknown).no_action_because(UV_SHARED@),
        ] + (if holds_packages(bucket) {
            uv_packages(c, ctx, d.path, name)
        } else {
            Seq::empty()
        }),
        None => seq![
            UnitModel::unknown_dir(c, d, "`"@ + name + "` is not a uv cache bucket this adapter identifies"@),
        ],
    }
}

fn identify_uv_child(container: &BuildContainer, ctx: &BuildCtx, d: &FoldedDir) -> (r: Vec<NestedArtifact>)
    ensures
        units_view(r@) == uv_child(container@, ctx@, d@),
{
    let name = d.path.name();
    let (bucket, version) = layout_version(name.as_str());
    let table = uv_parts();
    match find_part(&table, bucket.as_str()) {
        Some(p) => {
            let reason = cat4("`", name.as_str(), "` holds ", p.what);
            let mut units = one(
                NestedUnitBuilder::known_dir(container, p.role, d, reason.as_str(), p.consequence).variant(
                    variant_of_layout(bucket.as_str(), &version),
                ).membership(Membership::Unknown).no_action_because(UV_SHARED).build(),
            );
            let b = bucket.as_str();
            let more = if same(b, "wheels") || same(b, "built-wheels") || same(b, "sdists") {
                identify_uv_packages(container, ctx, &d.path, name.as_str())
            } else {
                no_units()
            };
            append_units(&mut units, more);
            units
        },
        None => {
            let limit = cat3("`", name.as_str(), "` is not a uv cache bucket this adapter identifies");
            one(NestedUnitBuilder::unknown_dir(container, d, limit.as_str()).build())
        },
    }
}

/// uv's cache, by bucket.
pub open spec fn uv_cache(c: ContainerModel, ctx: CtxModel) -> Seq<UnitModel> {
    seq![
        store_root(
            c,
            ctx,
            "uv's cache"@,
            "uv downloads, builds and unpacks packages again on the next sync -- needs index access; environments that link into the cache keep working until they are recreated"@,
        ),
    ] + flat(child_rows(ctx.rows, c.path), |d: DirModel| uv_child(c, ctx, d))
}

pub fn identify_uv_cache(container: &BuildContainer, ctx: &BuildCtx) -> (r: Vec<NestedArtifact>)
    ensures
        units_view(r@) == uv_cache(container@, ctx@),
{
    let mut units = one(
        identify_store_root(
            container,
            ctx,
            "uv's cache",
            "uv downloads, builds and unpacks packages again on the next sync -- needs index access; environments that link into the cache keep working until they are recreated",
        ),
    );
    let dirs = ctx.folded().children(&container.path);
    let more = each_dir(
        &dirs,
        |d: &FoldedDir| -> (out: Vec<NestedArtifact>)
            ensures
                units_view(out@) == uv_child(container@, ctx@, d@)
            { identify_uv_child(container, ctx, d) },
        Ghost(|d: DirModel| uv_child(container@, ctx@, d)),
    );
    append_units(&mut units, more);
    units
}

/// One interpreter uv manages: `<impl>-<version>-<os>-<arch>-..`.
pub open spec fn uv_python(c: ContainerModel, d: DirModel) -> Seq<UnitModel> {
    let name = name_of(d.path);
    let p = split(name, '-');
    if p.len() >= 4 && is_versionish(p[1]) {
        seq![
            UnitModel::known_dir(
                c,
                ArtifactRole::Installation,
                d,
                "`"@ + name + "` is a uv-managed "@ + p[0] + " installation"@,
                "uv downloads "@ + p[0] + " "@ + p[1]
                    + " again when a project asks for it; environments created from it stop starting until then"@,
            ).variant(
                no_variant().with_toolchain(p[0] + " "@ + p[1]).with_version(p[1]).with_configuration(
                    p[2],
                ).with_architecture(p[3]),
            ).no_action_because("environments created from this interpreter depend on it"@),
        ]
    } else {
        seq![UnitModel::unknown_dir(c, d, "`"@ + name + "` is not named like a uv Python installation"@)]
    }
}

fn identify_uv_python(container: &BuildContainer, d: &FoldedDir) -> (r: Vec<NestedArtifact>)
    ensures
        units_view(r@) == uv_python(container@, d@),
{
    let name = d.path.name();
    let p = split_text(name.as_str(), '-');
    assert(texts(p@).len() == p@.len());
    if p.len() >= 4 {
        assert(texts(p@)[0] == p@[0]@ && texts(p@)[1] == p@[1]@ && texts(p@)[2] == p@[2]@ && texts(p@)[3] == p@[3]@);
        if versionish(p[1].as_str()) {
            let reason = cat5("`", name.as_str(), "` is a uv-managed ", p[0].as_str(), " installation");
            let consequence = cat5(
                "uv downloads ",
                p[0].as_str(),
                " ",
                p[1].as_str(),
                " again when a project asks for it; environments created from it stop starting until then",
            );
            let tool = cat3(p[0].as_str(), " ", p[1].as_str());
            return one(
                NestedUnitBuilder::known_dir(
                    container,
                    ArtifactRole::Installation,
                    d,
                    reason.as_str(),
                    consequence.as_str(),
                ).variant(
                    ArtifactVariant::none().with_toolchain(tool.as_str()).with_version(
                        p[1].as_str(),
                    ).with_configuration(p[2].as_str()).with_architecture(p[3].as_str()),
                ).no_action_because("environments created from this interpreter depend on it").build(),
            );
        }
    }
    let limit = cat3("`", name.as_str(), "` is not named like a uv Python installation");
    one(NestedUnitBuilder::unknown_dir(container, d, limit.as_str()).build())
}

pub open spec fn uv_pythons(c: ContainerModel, ctx: CtxModel) -> Seq<UnitModel> {
    seq![
        UnitModel::container_root(c, ctx, ArtifactRole::Installation).supported(
            "uv's managed Python installations"@,
        ).consequence("uv downloads the interpreters again when a project asks for them"@).no_action_because(
            "environments created from these interpreters depend on them"@,
        ),
    ] + flat(child_rows(ctx.rows, c.path), |d: DirModel| uv_python(c, d))
}

pub fn identify_uv_pythons(container: &BuildContainer, ctx: &BuildCtx) -> (r: Vec<NestedArtifact>)
    ensures
        units_view(r@) == uv_pythons(container@, ctx@),
{
    let mut units = one(
        NestedUnitBuilder::container_root(container, ctx, ArtifactRole::Installation).supported_with_reason(
            "uv's managed Python installations",
        ).consequence("uv downloads the interpreters again when a project asks for them").no_action_because(
            "environments created from these interpreters depend on them",
        ).build(),
    );
    let dirs = ctx.folded().children(&container.path);
    let more = each_dir(
        &dirs,
        |d: &FoldedDir| -> (out: Vec<NestedArtifact>)
            ensures
                units_view(out@) == uv_python(container@, d@)
            { identify_uv_python(container, d) },
        Ghost(|d: DirModel| uv_python(container@, d)),
    );
    append_units(&mut units, more);
    units
}

/// One tool's environment.
pub open spec fn uv_tool(c: ContainerModel, ctx: CtxModel, d: DirModel) -> Seq<UnitModel> {
    if env_here(ctx.facts, d.path) {
        let tool = name_of(d.path);
        let root = env_root(c, ctx, d.path, false);
        seq![
            root.variant(root.variant.with_package(tool)).consequence(
                "reinstall with `uv tool install "@ + tool + "` -- needs index access"@,
            ),
        ] + site_packages(c, ctx, d.path)
    } else {
        seq![
            UnitModel::unknown_dir(
                c,
                d,
                "`"@ + relative(c.path, d.path) + "` has no pyvenv.cfg: not a tool environment"@,
            ),
        ]
    }
}

fn identify_uv_tool(container: &BuildContainer, ctx: &BuildCtx, d: &FoldedDir) -> (r: Vec<NestedArtifact>)
    ensures
        units_view(r@) == uv_tool(container@, ctx@, d@),
{
    if has_env_marker(ctx, &d.path) {
        let tool = d.path.name();
        let root = identify_env_root(container, ctx, &d.path, false);
        let v = root.variant.copy().with_package(tool.as_str());
        let consequence = cat3("reinstall with `uv tool install ", tool.as_str(), "` -- needs index access");
        let mut units = one(NestedUnitBuilder::amend(root).variant(v).consequence(consequence.as_str()).build());
        append_units(&mut units, identify_site_packages(container, ctx, &d.path));
        units
    } else {
        let rel = relative_path(&container.path, &d.path);
        let limit = cat3("`", rel.as_str(), "` has no pyvenv.cfg: not a tool environment");
        one(NestedUnitBuilder::unknown_dir(container, d, limit.as_str()).build())
    }
}

/// uv's tool environments: one per tool.
pub open spec fn uv_tools(c: ContainerModel, ctx: CtxModel) -> Seq<UnitModel> {
    seq![
        UnitModel::container_root(c, ctx, ArtifactRole::InstalledDependencies).supported(
            "uv's tool environments"@,
        ).consequence("reinstall each tool with `uv tool install` -- needs index access"@),
    ] + flat(child_rows(ctx.rows, c.path), |d: DirModel| uv_tool(c, ctx, d))
}

pub fn identify_uv_tools(container: &BuildContainer, ctx: &BuildCtx) -> (r: Vec<NestedArtifact>)
    ensures
        units_view(r@) == uv_tools(container@, ctx@),
{
    let mut units = one(
        NestedUnitBuilder::container_root(container, ctx, ArtifactRole::InstalledDependencies).supported_with_reason(
            "uv's tool environments",
        ).consequence("reinstall each tool with `uv tool install` -- needs index access").build(),
    );
    let dirs = ctx.folded().children(&container.path);
    let more = each_dir(
        &dirs,
        |d: &FoldedDir| -> (out: Vec<NestedArtifact>)
            ensures
                units_view(out@) == uv_tool(container@, ctx@, d@)
            { identify_uv_tool(container, ctx, d) },
        Ghost(|d: DirModel| uv_tool(container@, ctx@, d)),
    );
    append_units(&mut units, more);
    units
}

} // verus!
