//! Node.js build outputs, installed dependency trees and shared package stores.
//!
//! The adapter is per tool, not per ecosystem: each directory name it knows
//! carries its own role and its own consequence, and a directory it does not
//! know is an explicit residual.
//!
//! No npm script runs and no JavaScript configuration is loaded. A package's
//! identity is its own `package.json`, read bounded, never the directory's
//! name; no build generation is invented.

use super::adapter::{
    append_paths, claim_all, claimed, each, each_dir, filter_paths, find_part, flat, no_paths, no_units, one,
    part_named, views, BuildAdapter, BuildCapabilities, KnownPart, PartModel,
};
use super::arrange::{by_size, first_of, sort_by_size, split_dirs};
use super::builder::NestedUnitBuilder;
use super::container::{
    child_rows, containers_view, dir_refs, push_container, row_of, BuildContainer, ContainerModel, DirModel, FoldedDir,
};
use super::context::{BuildCtx, CtxModel};
use crate::artifact::{
    append_units, no_variant, relative, relative_path, units_view, ArtifactRole, ArtifactVariant, Confidence,
    Membership, NestedArtifact, UnitModel,
};
use crate::facts::{is_file_at, stat_of, whole_manifest_of, FactModel, FileFacts, FileKind};
use crate::json::{parse_json, parsed_json, read_as, text_of_node, text_under, JsonModel, JsonNode};
use crate::locations::BuildStoreKind;
use crate::number::{decimal, write_u64};
use crate::path::{joined_path, name_of, paths, push_path, same_opt, FsPath, PathModel};
use crate::text::{begins, cat2, cat3, cat4, cat5, opt_text, same, starts};
use vstd::prelude::*;

verus! {

/// How many top-level installed packages get their `package.json` read, largest
/// first; the rest are sized and say so.
pub const PACKAGE_IDENTITY_BUDGET: usize = 200;

pub struct Adapter;

/// The directories tools of the Node ecosystem create, each with its tool.
pub open spec fn known_dirs_spec() -> Seq<PartModel> {
    seq![
        PartModel {
            name: "dist"@,
            role: ArtifactRole::Output,
            what: "bundler (vite, rollup, tsc, webpack)"@,
            consequence: "rebuild with this project's build script (commonly `npm run build`)"@,
        },
        PartModel {
            name: "build"@,
            role: ArtifactRole::Output,
            what: "create-react-app, tsc"@,
            consequence: "rebuild with this project's build script (commonly `npm run build`)"@,
        },
        PartModel {
            name: "out"@,
            role: ArtifactRole::Output,
            what: "next export, tsc"@,
            consequence: "rebuild with this project's build script"@,
        },
        PartModel {
            name: ".next"@,
            role: ArtifactRole::Output,
            what: "Next.js"@,
            consequence: "rebuild with `next build`; the dev server also regenerates it"@,
        },
        PartModel {
            name: ".nuxt"@,
            role: ArtifactRole::Output,
            what: "Nuxt"@,
            consequence: "rebuild with `nuxt build`"@,
        },
        PartModel {
            name: ".svelte-kit"@,
            role: ArtifactRole::Output,
            what: "SvelteKit"@,
            consequence: "rebuild with `vite build`; `svelte-kit sync` regenerates the types"@,
        },
        PartModel {
            name: ".output"@,
            role: ArtifactRole::Output,
            what: "Nitro (Nuxt 3)"@,
            consequence: "rebuild with `nuxt build`"@,
        },
        PartModel {
            name: "storybook-static"@,
            role: ArtifactRole::Output,
            what: "Storybook"@,
            consequence: "rebuild with `storybook build`"@,
        },
        PartModel {
            name: "out-tsc"@,
            role: ArtifactRole::Output,
            what: "Angular CLI"@,
            consequence: "rebuild with `ng build`"@,
        },
        PartModel {
            name: "coverage"@,
            role: ArtifactRole::TestOutput,
            what: "istanbul / nyc / vitest / jest"@,
            consequence: "a test rerun with coverage enabled regenerates it"@,
        },
        PartModel {
            name: ".nyc_output"@,
            role: ArtifactRole::TestOutput,
            what: "nyc"@,
            consequence: "a test rerun with coverage enabled regenerates it"@,
        },
        PartModel {
            name: "playwright-report"@,
            role: ArtifactRole::TestOutput,
            what: "Playwright"@,
            consequence: "a `playwright test` run regenerates it"@,
        },
        PartModel {
            name: "test-results"@,
            role: ArtifactRole::TestOutput,
            what: "Playwright"@,
            consequence: "a `playwright test` run regenerates it"@,
        },
        PartModel {
            name: ".turbo"@,
            role: ArtifactRole::Intermediate,
            what: "Turborepo"@,
            consequence: "the next task run is a cache miss and re-executes rather than replaying"@,
        },
        PartModel {
            name: ".parcel-cache"@,
            role: ArtifactRole::Intermediate,
            what: "Parcel"@,
            consequence: "the next `parcel build` is a cold build"@,
        },
        PartModel {
            name: ".vite"@,
            role: ArtifactRole::Intermediate,
            what: "Vite"@,
            consequence: "the next dev server start re-optimizes dependencies"@,
        },
        PartModel {
            name: ".cache"@,
            role: ArtifactRole::Intermediate,
            what: "babel-loader / webpack / gatsby"@,
            consequence: "the next build recompiles what it would otherwise have replayed"@,
        },
        PartModel {
            name: ".angular"@,
            role: ArtifactRole::Intermediate,
            what: "Angular CLI"@,
            consequence: "the next `ng build` is a cold build"@,
        },
        PartModel {
            name: ".expo"@,
            role: ArtifactRole::Intermediate,
            what: "Expo"@,
            consequence: "the next Expo start rebuilds its cache"@,
        },
        PartModel {
            name: ".metro"@,
            role: ArtifactRole::Intermediate,
            what: "Metro (React Native)"@,
            consequence: "the next Metro start rebuilds its cache"@,
        },
        PartModel {
            name: "node_modules"@,
            role: ArtifactRole::InstalledDependencies,
            what: "npm / pnpm / yarn"@,
            consequence: "reinstall with `npm ci` (or `pnpm install`) -- needs registry access"@,
        },
        PartModel {
            name: "bower_components"@,
            role: ArtifactRole::InstalledDependencies,
            what: "bower"@,
            consequence: "reinstall with `bower install` -- needs registry access"@,
        },
        PartModel {
            name: "jspm_packages"@,
            role: ArtifactRole::InstalledDependencies,
            what: "jspm"@,
            consequence: "reinstall with `jspm install` -- needs registry access"@,
        },
        PartModel {
            name: "web_modules"@,
            role: ArtifactRole::InstalledDependencies,
            what: "snowpack"@,
            consequence: "reinstall with `snowpack` -- needs registry access"@,
        },
    ]
}

fn known_dirs() -> (r: Vec<KnownPart>)
    ensures
        views(r@) == known_dirs_spec(),
{
    let r: Vec<KnownPart> = vec![
        KnownPart {
            name: "dist",
            role: ArtifactRole::Output,
            what: "bundler (vite, rollup, tsc, webpack)",
            consequence: "rebuild with this project's build script (commonly `npm run build`)",
        },
        KnownPart {
            name: "build",
            role: ArtifactRole::Output,
            what: "create-react-app, tsc",
            consequence: "rebuild with this project's build script (commonly `npm run build`)",
        },
        KnownPart {
            name: "out",
            role: ArtifactRole::Output,
            what: "next export, tsc",
            consequence: "rebuild with this project's build script",
        },
        KnownPart {
            name: ".next",
            role: ArtifactRole::Output,
            what: "Next.js",
            consequence: "rebuild with `next build`; the dev server also regenerates it",
        },
        KnownPart {
            name: ".nuxt",
            role: ArtifactRole::Output,
            what: "Nuxt",
            consequence: "rebuild with `nuxt build`",
        },
        KnownPart {
            name: ".svelte-kit",
            role: ArtifactRole::Output,
            what: "SvelteKit",
            consequence: "rebuild with `vite build`; `svelte-kit sync` regenerates the types",
        },
        KnownPart {
            name: ".output",
            role: ArtifactRole::Output,
            what: "Nitro (Nuxt 3)",
            consequence: "rebuild with `nuxt build`",
        },
        KnownPart {
            name: "storybook-static",
            role: ArtifactRole::Output,
            what: "Storybook",
            consequence: "rebuild with `storybook build`",
        },
        KnownPart {
            name: "out-tsc",
            role: ArtifactRole::Output,
            what: "Angular CLI",
            consequence: "rebuild with `ng build`",
        },
        KnownPart {
            name: "coverage",
            role: ArtifactRole::TestOutput,
            what: "istanbul / nyc / vitest / jest",
            consequence: "a test rerun with coverage enabled regenerates it",
        },
        KnownPart {
            name: ".nyc_output",
            role: ArtifactRole::TestOutput,
            what: "nyc",
            consequence: "a test rerun with coverage enabled regenerates it",
        },
        KnownPart {
            name: "playwright-report",
            role: ArtifactRole::TestOutput,
            what: "Playwright",
            consequence: "a `playwright test` run regenerates it",
        },
        KnownPart {
            name: "test-results",
            role: ArtifactRole::TestOutput,
            what: "Playwright",
            consequence: "a `playwright test` run regenerates it",
        },
        KnownPart {
            name: ".turbo",
            role: ArtifactRole::Intermediate,
            what: "Turborepo",
            consequence: "the next task run is a cache miss and re-executes rather than replaying",
        },
        KnownPart {
            name: ".parcel-cache",
            role: ArtifactRole::Intermediate,
            what: "Parcel",
            consequence: "the next `parcel build` is a cold build",
        },
        KnownPart {
            name: ".vite",
            role: ArtifactRole::Intermediate,
            what: "Vite",
            consequence: "the next dev server start re-optimizes dependencies",
        },
        KnownPart {
            name: ".cache",
            role: ArtifactRole::Intermediate,
            what: "babel-loader / webpack / gatsby",
            consequence: "the next build recompiles what it would otherwise have replayed",
        },
        KnownPart {
            name: ".angular",
            role: ArtifactRole::Intermediate,
            what: "Angular CLI",
            consequence: "the next `ng build` is a cold build",
        },
        KnownPart {
            name: ".expo",
            role: ArtifactRole::Intermediate,
            what: "Expo",
            consequence: "the next Expo start rebuilds its cache",
        },
        KnownPart {
            name: ".metro",
            role: ArtifactRole::Intermediate,
            what: "Metro (React Native)",
            consequence: "the next Metro start rebuilds its cache",
        },
        KnownPart {
            name: "node_modules",
            role: ArtifactRole::InstalledDependencies,
            what: "npm / pnpm / yarn",
            consequence: "reinstall with `npm ci` (or `pnpm install`) -- needs registry access",
        },
        KnownPart {
            name: "bower_components",
            role: ArtifactRole::InstalledDependencies,
            what: "bower",
            consequence: "reinstall with `bower install` -- needs registry access",
        },
        KnownPart {
            name: "jspm_packages",
            role: ArtifactRole::InstalledDependencies,
            what: "jspm",
            consequence: "reinstall with `jspm install` -- needs registry access",
        },
        KnownPart {
            name: "web_modules",
            role: ArtifactRole::InstalledDependencies,
            what: "snowpack",
            consequence: "reinstall with `snowpack` -- needs registry access",
        },
    ];
    assert(views(r@) =~= known_dirs_spec());
    r
}

/// Loose metadata files a Node toolchain leaves at a project root.
pub open spec fn known_files_spec() -> Seq<PartModel> {
    seq![
        PartModel {
            name: "tsconfig.tsbuildinfo"@,
            role: ArtifactRole::Metadata,
            what: "TypeScript"@,
            consequence: "the next `tsc --build` is a full type-check rather than an incremental one"@,
        },
        PartModel {
            name: ".eslintcache"@,
            role: ArtifactRole::Metadata,
            what: "ESLint"@,
            consequence: "the next `eslint` run re-lints every file rather than only changed ones"@,
        },
    ]
}

fn known_files() -> (r: Vec<KnownPart>)
    ensures
        views(r@) == known_files_spec(),
{
    let r: Vec<KnownPart> = vec![
        KnownPart {
            name: "tsconfig.tsbuildinfo",
            role: ArtifactRole::Metadata,
            what: "TypeScript",
            consequence: "the next `tsc --build` is a full type-check rather than an incremental one",
        },
        KnownPart {
            name: ".eslintcache",
            role: ArtifactRole::Metadata,
            what: "ESLint",
            consequence: "the next `eslint` run re-lints every file rather than only changed ones",
        },
    ];
    assert(views(r@) =~= known_files_spec());
    r
}

/// Names inside `node_modules` that are not packages.
pub open spec fn special_dirs_spec() -> Seq<PartModel> {
    seq![
        PartModel {
            name: ".pnpm"@,
            role: ArtifactRole::SharedStoreEntry,
            what: "pnpm"@,
            consequence: "reinstall with `pnpm install`; the entries are hardlinks into pnpm's content-addressed store, so removing them frees space only where the store copy is also gone"@,
        },
        PartModel {
            name: ".cache"@,
            role: ArtifactRole::Intermediate,
            what: "per-tool cache under node_modules"@,
            consequence: "the owning tool rebuilds its cache on the next run"@,
        },
        PartModel {
            name: ".bin"@,
            role: ArtifactRole::Metadata,
            what: "npm / pnpm / yarn"@,
            consequence: "reinstall recreates the executable shims"@,
        },
        PartModel {
            name: ".vite"@,
            role: ArtifactRole::Intermediate,
            what: "Vite"@,
            consequence: "the next dev server start re-optimizes dependencies"@,
        },
    ]
}

fn special_dirs() -> (r: Vec<KnownPart>)
    ensures
        views(r@) == special_dirs_spec(),
{
    let r: Vec<KnownPart> = vec![
        KnownPart {
            name: ".pnpm",
            role: ArtifactRole::SharedStoreEntry,
            what: "pnpm",
            consequence: "reinstall with `pnpm install`; the entries are hardlinks into pnpm's content-addressed store, so removing them frees space only where the store copy is also gone",
        },
        KnownPart {
            name: ".cache",
            role: ArtifactRole::Intermediate,
            what: "per-tool cache under node_modules",
            consequence: "the owning tool rebuilds its cache on the next run",
        },
        KnownPart {
            name: ".bin",
            role: ArtifactRole::Metadata,
            what: "npm / pnpm / yarn",
            consequence: "reinstall recreates the executable shims",
        },
        KnownPart {
            name: ".vite",
            role: ArtifactRole::Intermediate,
            what: "Vite",
            consequence: "the next dev server start re-optimizes dependencies",
        },
    ];
    assert(views(r@) =~= special_dirs_spec());
    r
}

/// The directories immediately inside a shared package store.
pub open spec fn store_dirs_spec() -> Seq<PartModel> {
    seq![
        PartModel {
            name: "content-v2"@,
            role: ArtifactRole::SharedStoreEntry,
            what: "npm cache content, addressed by integrity hash"@,
            consequence: "the next install downloads this content again -- needs registry access"@,
        },
        PartModel {
            name: "index-v5"@,
            role: ArtifactRole::SharedStoreEntry,
            what: "npm cache index entries"@,
            consequence: "the next install downloads this content again -- needs registry access"@,
        },
        PartModel {
            name: "tmp"@,
            role: ArtifactRole::SharedStoreEntry,
            what: "npm cache scratch space"@,
            consequence: "the next install downloads this content again -- needs registry access"@,
        },
        PartModel {
            name: "files"@,
            role: ArtifactRole::SharedStoreEntry,
            what: "pnpm content-addressed objects"@,
            consequence: "the next install downloads this content again -- needs registry access"@,
        },
        PartModel {
            name: "v3"@,
            role: ArtifactRole::SharedStoreEntry,
            what: "pnpm store, layout version 3"@,
            consequence: "the next install downloads this content again -- needs registry access"@,
        },
        PartModel {
            name: "v10"@,
            role: ArtifactRole::SharedStoreEntry,
            what: "pnpm store, layout version 10"@,
            consequence: "the next install downloads this content again -- needs registry access"@,
        },
    ]
}

fn store_dirs() -> (r: Vec<KnownPart>)
    ensures
        views(r@) == store_dirs_spec(),
{
    let r: Vec<KnownPart> = vec![
        KnownPart {
            name: "content-v2",
            role: ArtifactRole::SharedStoreEntry,
            what: "npm cache content, addressed by integrity hash",
            consequence: "the next install downloads this content again -- needs registry access",
        },
        KnownPart {
            name: "index-v5",
            role: ArtifactRole::SharedStoreEntry,
            what: "npm cache index entries",
            consequence: "the next install downloads this content again -- needs registry access",
        },
        KnownPart {
            name: "tmp",
            role: ArtifactRole::SharedStoreEntry,
            what: "npm cache scratch space",
            consequence: "the next install downloads this content again -- needs registry access",
        },
        KnownPart {
            name: "files",
            role: ArtifactRole::SharedStoreEntry,
            what: "pnpm content-addressed objects",
            consequence: "the next install downloads this content again -- needs registry access",
        },
        KnownPart {
            name: "v3",
            role: ArtifactRole::SharedStoreEntry,
            what: "pnpm store, layout version 3",
            consequence: "the next install downloads this content again -- needs registry access",
        },
        KnownPart {
            name: "v10",
            role: ArtifactRole::SharedStoreEntry,
            what: "pnpm store, layout version 10",
            consequence: "the next install downloads this content again -- needs registry access",
        },
    ];
    assert(views(r@) =~= store_dirs_spec());
    r
}

/// Names another ecosystem's marker at the project root wins.
pub open spec fn ambiguous(name: Seq<char>) -> bool {
    name == "build"@ || name == "out"@ || name == ".cache"@
}

fn is_ambiguous(name: &str) -> (r: bool)
    ensures
        r == ambiguous(name@),
{
    same(name, "build") || same(name, "out") || same(name, ".cache")
}

/// Whether a JVM build's marker is at a project root.
pub open spec fn jvm_marked(root: PathModel, facts: Seq<FactModel>) -> bool {
    is_file_at(facts, joined_path(root, "pom.xml"@)) || is_file_at(facts, joined_path(root, "build.gradle"@))
        || is_file_at(facts, joined_path(root, "build.gradle.kts"@)) || is_file_at(
        facts,
        joined_path(root, "settings.gradle"@),
    )
}

fn is_jvm_marked(root: &FsPath, facts: &FileFacts) -> (r: bool)
    ensures
        r == jvm_marked(root@, facts@),
{
    facts.is_file(&root.join("pom.xml")) || facts.is_file(&root.join("build.gradle")) || facts.is_file(
        &root.join("build.gradle.kts"),
    ) || facts.is_file(&root.join("settings.gradle"))
}

/// The known directories of the first `n` rows of the table, under `root`.
pub open spec fn known_paths(table: Seq<PartModel>, root: PathModel, jvm: bool, n: int) -> Seq<PathModel>
    decreases n,
{
    if n <= 0 {
        Seq::empty()
    } else if ambiguous(table[n - 1].name) && jvm {
        known_paths(table, root, jvm, n - 1)
    } else {
        known_paths(table, root, jvm, n - 1).push(joined_path(root, table[n - 1].name))
    }
}

fn find_known_paths(root: &FsPath, jvm: bool) -> (r: Vec<FsPath>)
    ensures
        paths(r@) == known_paths(known_dirs_spec(), root@, jvm, known_dirs_spec().len() as int),
{
    let table = known_dirs();
    let ghost rows = known_dirs_spec();
    let mut out = no_paths();
    let mut i: usize = 0;
    while i < table.len()
        invariant
            i <= table@.len(),
            views(table@) == rows,
            paths(out@) == known_paths(rows, root@, jvm, i as int),
        decreases table@.len() - i,
    {
        let name = table[i].name;
        assert(rows[i as int] == table@[i as int]@);
        if !(is_ambiguous(name) && jvm) {
            push_path(&mut out, root.join(name));
        }
        i += 1;
    }
    assert(rows.len() == table@.len());
    out
}

pub open spec fn is_ours(jvm: bool, p: PathModel) -> bool {
    part_named(known_dirs_spec(), name_of(p)) is Some && !(ambiguous(name_of(p)) && jvm)
}

/// The paths this adapter wants as containers. `.vercel/output` is the one
/// two-segment layout: `.vercel` itself holds more than build artifacts.
pub open spec fn wanted(root: PathModel, candidates: Seq<PathModel>, facts: Seq<FactModel>) -> Seq<PathModel> {
    let jvm = jvm_marked(root, facts);
    if is_file_at(facts, joined_path(root, "package.json"@)) {
        known_paths(known_dirs_spec(), root, jvm, known_dirs_spec().len() as int).push(
            joined_path(root, ".vercel/output"@),
        ) + candidates.filter(|p: PathModel| is_ours(jvm, p))
    } else {
        Seq::empty()
    }
}

fn wanted_paths(root: &FsPath, candidates: &Vec<FsPath>, facts: &FileFacts) -> (r: Vec<FsPath>)
    ensures
        paths(r@) == wanted(root@, paths(candidates@), facts@),
{
    if !facts.is_file(&root.join("package.json")) {
        return no_paths();
    }
    let jvm = is_jvm_marked(root, facts);
    let mut want = find_known_paths(root, jvm);
    push_path(&mut want, root.join(".vercel/output"));
    let named = filter_paths(
        candidates,
        |p: &FsPath| -> (keep: bool)
            ensures
                keep == is_ours(jvm, p@)
            {
                let name = p.name();
                let table = known_dirs();
                find_part(&table, name.as_str()).is_some() && !(is_ambiguous(name.as_str()) && jvm)
            },
        Ghost(|p: PathModel| is_ours(jvm, p)),
    );
    append_paths(&mut want, named);
    want
}

/// The project root itself, where a loose metadata file lies in it.
pub open spec fn loose_container(root: PathModel, facts: Seq<FactModel>) -> Seq<ContainerModel> {
    if is_file_at(facts, joined_path(root, "package.json"@)) && (is_file_at(
        facts,
        joined_path(root, "tsconfig.tsbuildinfo"@),
    ) || is_file_at(facts, joined_path(root, ".eslintcache"@))) {
        seq![ContainerModel::of_project("node"@, root, root)]
    } else {
        Seq::empty()
    }
}

impl BuildAdapter for Adapter {
    open spec fn trash_roles_spec(&self) -> Seq<ArtifactRole> {
        seq![ArtifactRole::Output, ArtifactRole::TestOutput, ArtifactRole::Intermediate]
    }

    open spec fn id_spec(&self) -> Seq<char> {
        "node"@
    }

    open spec fn name_spec(&self) -> Seq<char> {
        "Node.js"@
    }

    open spec fn capabilities_spec(&self) -> BuildCapabilities {
        BuildCapabilities {
            identifies_shared_stores: true,
            attributes_package_identity: true,
            actions_available: true,
        }
    }

    open spec fn store_kinds_spec(&self) -> Seq<BuildStoreKind> {
        seq![BuildStoreKind::NpmCache, BuildStoreKind::PnpmStore]
    }

    open spec fn containers_spec(&self, root: PathModel, candidates: Seq<PathModel>, facts: Seq<FactModel>) -> Seq<
        ContainerModel,
    > {
        claimed("node"@, wanted(root, candidates, facts), root, facts) + loose_container(root, facts)
    }

    open spec fn identify_spec(&self, c: ContainerModel, ctx: CtxModel) -> Seq<UnitModel> {
        if c.shared {
            shared_store(c, ctx)
        } else if same_opt(c.project_root, c.path) {
            loose_metadata(c, ctx)
        } else if name_of(c.path) == "node_modules"@ {
            node_modules(c, ctx)
        } else {
            output_tree(c, ctx)
        }
    }

    fn trash_roles(&self) -> (r: Vec<ArtifactRole>) {
        let r: Vec<ArtifactRole> = vec![ArtifactRole::Output, ArtifactRole::TestOutput, ArtifactRole::Intermediate];
        assert(r@ =~= self.trash_roles_spec());
        r
    }

    fn id(&self) -> (r: &'static str) {
        "node"
    }

    fn name(&self) -> (r: &'static str) {
        "Node.js"
    }

    fn capabilities(&self) -> (r: BuildCapabilities) {
        BuildCapabilities {
            identifies_shared_stores: true,
            attributes_package_identity: true,
            actions_available: true,
        }
    }

    fn store_kinds(&self) -> (r: Vec<BuildStoreKind>) {
        let r: Vec<BuildStoreKind> = vec![BuildStoreKind::NpmCache, BuildStoreKind::PnpmStore];
        assert(r@ =~= self.store_kinds_spec());
        r
    }

    fn containers(&self, project_root: &FsPath, candidates: &Vec<FsPath>, facts: &FileFacts) -> (r: Vec<
        BuildContainer,
    >) {
        let want = wanted_paths(project_root, candidates, facts);
        let mut out = claim_all("node", &want, project_root, facts);
        if facts.is_file(&project_root.join("package.json")) && (facts.is_file(
            &project_root.join("tsconfig.tsbuildinfo"),
        ) || facts.is_file(&project_root.join(".eslintcache"))) {
            push_container(
                &mut out,
                BuildContainer::project("node", project_root.copy(), project_root.copy()),
            );
        }
        assert(containers_view(out@) =~= self.containers_spec(project_root@, paths(candidates@), facts@));
        out
    }

    fn identify(&self, container: &BuildContainer, ctx: &BuildCtx) -> (r: Vec<NestedArtifact>) {
        if container.shared {
            return identify_shared_store(container, ctx);
        }
        let at_root = match &container.project_root {
            Some(root) => root.same(&container.path),
            None => false,
        };
        if at_root {
            return identify_loose_metadata(container, ctx);
        }
        let name = container.path.name();
        if same(name.as_str(), "node_modules") {
            identify_node_modules(container, ctx)
        } else {
            identify_output_tree(container, ctx)
        }
    }
}

/// A unit with the walk's measurement of a directory, or a word that there is
/// none.
pub open spec fn measured(u: UnitModel, ctx: CtxModel, path: PathModel, limit: Seq<char>) -> UnitModel {
    match row_of(ctx.rows, path) {
        Some(d) => u.folded(d),
        None => u.limit(limit),
    }
}

fn measure(b: NestedUnitBuilder, ctx: &BuildCtx, path: &FsPath, limit: &str) -> (r: NestedUnitBuilder)
    ensures
        r@ == measured(b@, ctx@, path@, limit@),
{
    match ctx.folded().get(path) {
        Some(d) => b.folded(d),
        None => b.limit(limit),
    }
}

/// The container row itself.
pub open spec fn container_unit(c: ContainerModel, ctx: CtxModel) -> UnitModel {
    let name = name_of(c.path);
    let known = part_named(known_dirs_spec(), name);
    let role = match known {
        Some(k) => k.role,
        None => ArtifactRole::Output,
    };
    let b = measured(
        UnitModel::blank(c, role, c.path).is_dir(true),
        ctx,
        c.path,
        "this directory was not measured by the walk this pass"@,
    );
    match known {
        Some(k) => b.supported("`"@ + k.name + "` is "@ + k.what + "'s documented directory"@).evidence(
            "node-layout"@,
            "produced by "@ + k.what,
            Confidence::Medium,
        ).consequence(k.consequence),
        None => b.unsupported_layout("`"@ + name + "` is not a directory name this adapter identifies"@),
    }
}

fn identify_container(container: &BuildContainer, ctx: &BuildCtx) -> (r: NestedArtifact)
    ensures
        r@ == container_unit(container@, ctx@),
{
    let name = container.path.name();
    let table = known_dirs();
    let known = find_part(&table, name.as_str());
    let role = match known {
        Some(k) => k.role,
        None => ArtifactRole::Output,
    };
    let b = measure(
        NestedUnitBuilder::new(container, role, container.path.copy()).is_dir(true),
        ctx,
        &container.path,
        "this directory was not measured by the walk this pass",
    );
    match known {
        Some(k) => {
            let reason = cat5("`", k.name, "` is ", k.what, "'s documented directory");
            let detail = cat2("produced by ", k.what);
            b.supported_with_reason(reason.as_str()).evidence(
                "node-layout",
                detail.as_str(),
                Confidence::Medium,
            ).consequence(k.consequence).build()
        },
        None => {
            let limit = cat3("`", name.as_str(), "` is not a directory name this adapter identifies");
            b.unsupported_layout(limit.as_str()).build()
        },
    }
}

/// A framework's incremental cache inside its output; nothing for any other
/// directory.
pub open spec fn framework_cache(c: ContainerModel, d: DirModel) -> Seq<UnitModel> {
    let name = name_of(c.path);
    if (name == ".next"@ || name == ".nuxt"@ || name == ".angular"@) && name_of(d.path) == "cache"@ {
        seq![
            UnitModel::blank(c, ArtifactRole::Intermediate, d.path).folded(d).supported(
                "`"@ + name + "/cache` is the framework's incremental cache, not part of the served output"@,
            ).evidence("node-layout"@, "incremental cache inside "@ + name, Confidence::Medium).consequence(
                "the next build recompiles what it would otherwise have replayed; the served output is unaffected"@,
            ),
        ]
    } else {
        Seq::empty()
    }
}

fn identify_framework_cache(container: &BuildContainer, d: &FoldedDir) -> (r: Vec<NestedArtifact>)
    ensures
        units_view(r@) == framework_cache(container@, d@),
{
    let owned = container.path.name();
    let name = owned.as_str();
    let child = d.path.name();
    if (same(name, ".next") || same(name, ".nuxt") || same(name, ".angular")) && same(child.as_str(), "cache") {
        let reason = cat3(
            "`",
            name,
            "/cache` is the framework's incremental cache, not part of the served output",
        );
        let detail = cat2("incremental cache inside ", name);
        one(
            NestedUnitBuilder::new(container, ArtifactRole::Intermediate, d.path.copy()).folded(
                d,
            ).supported_with_reason(reason.as_str()).evidence(
                "node-layout",
                detail.as_str(),
                Confidence::Medium,
            ).consequence(
                "the next build recompiles what it would otherwise have replayed; the served output is unaffected",
            ).build(),
        )
    } else {
        no_units()
    }
}

/// A build-output directory: the container, and what in it is a different
/// thing.
pub open spec fn output_tree(c: ContainerModel, ctx: CtxModel) -> Seq<UnitModel> {
    seq![container_unit(c, ctx)] + flat(child_rows(ctx.rows, c.path), |d: DirModel| framework_cache(c, d))
}

pub fn identify_output_tree(container: &BuildContainer, ctx: &BuildCtx) -> (r: Vec<NestedArtifact>)
    ensures
        units_view(r@) == output_tree(container@, ctx@),
{
    let mut units = one(identify_container(container, ctx));
    let dirs = ctx.folded().children(&container.path);
    let more = each_dir(
        &dirs,
        |d: &FoldedDir| -> (out: Vec<NestedArtifact>)
            ensures
                units_view(out@) == framework_cache(container@, d@)
            { identify_framework_cache(container, d) },
        Ghost(|d: DirModel| framework_cache(container@, d)),
    );
    append_units(&mut units, more);
    units
}

/// One loose metadata file, where it is there.
pub open spec fn loose_file(c: ContainerModel, ctx: CtxModel, p: PartModel) -> Seq<UnitModel> {
    let path = joined_path(c.path, p.name);
    match stat_of(ctx.facts, path) {
        Some(meta) => if meta.kind == FileKind::File {
            seq![
                UnitModel::blank(c, ArtifactRole::Metadata, path).file_metadata(meta).supported(
                    "`"@ + p.name + "` is "@ + p.what + "'s own incremental state file"@,
                ).evidence("node-layout"@, "written by "@ + p.what, Confidence::High).consequence(p.consequence),
            ]
        } else {
            Seq::empty()
        },
        None => Seq::empty(),
    }
}

fn identify_loose_file(container: &BuildContainer, ctx: &BuildCtx, p: &KnownPart) -> (r: Vec<NestedArtifact>)
    ensures
        units_view(r@) == loose_file(container@, ctx@, p@),
{
    let path = container.path.join(p.name);
    match ctx.stat(&path) {
        Some(meta) => if meta.is_file() {
            let reason = cat5("`", p.name, "` is ", p.what, "'s own incremental state file");
            let detail = cat2("written by ", p.what);
            one(
                NestedUnitBuilder::new(container, ArtifactRole::Metadata, path).from_file_metadata(
                    &meta,
                ).supported_with_reason(reason.as_str()).evidence(
                    "node-layout",
                    detail.as_str(),
                    Confidence::High,
                ).consequence(p.consequence).build(),
            )
        } else {
            no_units()
        },
        None => no_units(),
    }
}

/// The loose metadata files at a project root.
pub open spec fn loose_metadata(c: ContainerModel, ctx: CtxModel) -> Seq<UnitModel> {
    flat(known_files_spec(), |p: PartModel| loose_file(c, ctx, p))
}

pub fn identify_loose_metadata(container: &BuildContainer, ctx: &BuildCtx) -> (r: Vec<NestedArtifact>)
    ensures
        units_view(r@) == loose_metadata(container@, ctx@),
{
    let table = known_files();
    each(
        &table,
        |p: &KnownPart| -> (out: Vec<NestedArtifact>)
            ensures
                units_view(out@) == loose_file(container@, ctx@, p@)
            { identify_loose_file(container, ctx, p) },
        Ghost(|p: PartModel| loose_file(container@, ctx@, p)),
    )
}

// ---------------------------------------------------------------------
// Installed packages
// ---------------------------------------------------------------------

/// A directory of `node_modules` that is no package: one of the package
/// manager's own, or a dotted name this adapter does not identify.
pub open spec fn special_unit(c: ContainerModel, d: DirModel) -> Seq<UnitModel> {
    let name = name_of(d.path);
    match part_named(special_dirs_spec(), name) {
        Some(p) => {
            let b = UnitModel::blank(c, p.role, d.path).folded(d).supported(
                "`node_modules/"@ + name + "` is "@ + p.what + "'s own directory"@,
            ).evidence("node-layout"@, "maintained by "@ + p.what, Confidence::Medium).consequence(p.consequence);
            if p.role == ArtifactRole::SharedStoreEntry {
                seq![
                    b.membership(Membership::SharedHardlink).limit(
                        "entries are hardlinks into pnpm's content-addressed store; the bytes are charged once and which copy holds the charge is not recorded"@,
                    ).no_action_because(
                        "these files are hardlinks shared with pnpm's store and possibly other projects"@,
                    ),
                ]
            } else {
                seq![b]
            }
        },
        None => if !begins(name, "@"@) && begins(name, "."@) {
            seq![
                UnitModel::blank(c, ArtifactRole::Residual, d.path).folded(d).unsupported_layout(
                    "`node_modules/"@ + name + "` is not an entry this adapter identifies"@,
                ),
            ]
        } else {
            Seq::empty()
        },
    }
}

fn identify_special(container: &BuildContainer, d: &FoldedDir) -> (r: Vec<NestedArtifact>)
    ensures
        units_view(r@) == special_unit(container@, d@),
{
    let owned = d.path.name();
    let name = owned.as_str();
    let table = special_dirs();
    match find_part(&table, name) {
        Some(p) => {
            let reason = cat5("`node_modules/", name, "` is ", p.what, "'s own directory");
            let detail = cat2("maintained by ", p.what);
            let b = NestedUnitBuilder::new(container, p.role, d.path.copy()).folded(d).supported_with_reason(
                reason.as_str(),
            ).evidence("node-layout", detail.as_str(), Confidence::Medium).consequence(p.consequence);
            if p.role == ArtifactRole::SharedStoreEntry {
                one(
                    b.membership(Membership::SharedHardlink).limit(
                        "entries are hardlinks into pnpm's content-addressed store; the bytes are charged once and which copy holds the charge is not recorded",
                    ).no_action_because(
                        "these files are hardlinks shared with pnpm's store and possibly other projects",
                    ).build(),
                )
            } else {
                one(b.build())
            }
        },
        None => if !starts(name, "@") && starts(name, ".") {
            let limit = cat3("`node_modules/", name, "` is not an entry this adapter identifies");
            one(
                NestedUnitBuilder::new(container, ArtifactRole::Residual, d.path.copy()).folded(
                    d,
                ).unsupported_layout(limit.as_str()).build(),
            )
        } else {
            no_units()
        },
    }
}

/// The packages that one directory of `node_modules` is or holds: a scope
/// directory is no package, its children are.
pub open spec fn packages_at(ctx: CtxModel, d: DirModel) -> Seq<DirModel> {
    let name = name_of(d.path);
    if part_named(special_dirs_spec(), name) is Some {
        Seq::empty()
    } else if begins(name, "@"@) {
        child_rows(ctx.rows, d.path)
    } else if begins(name, "."@) {
        Seq::empty()
    } else {
        seq![d]
    }
}

/// The packages of the first `n` directories.
pub open spec fn packages_of(ctx: CtxModel, dirs: Seq<DirModel>, n: int) -> Seq<DirModel>
    decreases n,
{
    if n <= 0 {
        Seq::empty()
    } else {
        packages_of(ctx, dirs, n - 1) + packages_at(ctx, dirs[n - 1])
    }
}

fn find_packages<'a>(ctx: &'a BuildCtx, dirs: &Vec<&'a FoldedDir>) -> (r: Vec<&'a FoldedDir>)
    ensures
        dir_refs(r@) == packages_of(ctx@, dir_refs(dirs@), dirs@.len() as int),
{
    let ghost rows = dir_refs(dirs@);
    let mut out: Vec<&'a FoldedDir> = Vec::new();
    let mut i: usize = 0;
    assert(dir_refs(out@) =~= packages_of(ctx@, rows, 0));
    while i < dirs.len()
        invariant
            i <= dirs@.len(),
            rows == dir_refs(dirs@),
            dir_refs(out@) == packages_of(ctx@, rows, i as int),
        decreases dirs@.len() - i,
    {
        let d = dirs[i];
        assert(rows[i as int] == d@);
        let owned = d.path.name();
        let name = owned.as_str();
        let table = special_dirs();
        let mut more: Vec<&'a FoldedDir> = Vec::new();
        assert(dir_refs(more@) =~= Seq::<DirModel>::empty());
        if find_part(&table, name).is_none() {
            if starts(name, "@") {
                more = ctx.folded().children(&d.path);
            } else if !starts(name, ".") {
                more.push(d);
                assert(dir_refs(more@) =~= seq![d@]);
            }
        }
        assert(dir_refs(more@) == packages_at(ctx@, d@));
        let ghost prior = out@;
        let ghost added = more@;
        out.append(&mut more);
        assert(dir_refs(out@) =~= dir_refs(prior) + dir_refs(added));
        i += 1;
    }
    out
}

/// The name and version a `package.json` declares.
pub open spec fn declared(v: Option<JsonModel>) -> Option<(Seq<char>, Option<Seq<char>>)> {
    match v {
        Some(n) => match text_under(n.get("name"@)) {
            Some(name) => Some((name, text_under(n.get("version"@)))),
            None => None,
        },
        None => None,
    }
}

pub fn declared_identity(v: &Option<JsonNode>) -> (r: Option<(String, Option<String>)>)
    ensures
        match r {
            Some(p) => declared(read_as(*v)) == Some((p.0@, opt_text(p.1))),
            None => declared(read_as(*v)) is None,
        },
{
    match v {
        Some(n) => match text_of_node(n.get("name")) {
            Some(name) => Some((name, text_of_node(n.get("version")))),
            None => None,
        },
        None => None,
    }
}

/// A package's declared identity, from its own manifest.
pub open spec fn identity_of(ctx: CtxModel, dir: PathModel) -> Option<(Seq<char>, Option<Seq<char>>)> {
    match whole_manifest_of(ctx.facts, joined_path(dir, "package.json"@)) {
        Some(m) => declared(parsed_json(m.text)),
        None => None,
    }
}

pub fn package_identity(ctx: &BuildCtx, dir: &FsPath) -> (r: Option<(String, Option<String>)>)
    ensures
        match r {
            Some(p) => identity_of(ctx@, dir@) == Some((p.0@, opt_text(p.1))),
            None => identity_of(ctx@, dir@) is None,
        },
{
    match ctx.whole_manifest(&dir.join("package.json")) {
        Some(m) => {
            let v = parse_json(m.text.as_str());
            declared_identity(&v)
        },
        None => None,
    }
}

pub open spec fn package_base(c: ContainerModel, d: DirModel) -> UnitModel {
    UnitModel::blank(c, ArtifactRole::InstalledDependencies, d.path).folded(d).supported(
        "a top-level entry of an npm-layout node_modules tree"@,
    ).consequence("reinstall with `npm ci` (or `pnpm install`) -- needs registry access"@)
}

fn identify_package_base(container: &BuildContainer, d: &FoldedDir) -> (r: NestedUnitBuilder)
    ensures
        r@ == package_base(container@, d@),
{
    NestedUnitBuilder::new(container, ArtifactRole::InstalledDependencies, d.path.copy()).folded(
        d,
    ).supported_with_reason("a top-level entry of an npm-layout node_modules tree").consequence(
        "reinstall with `npm ci` (or `pnpm install`) -- needs registry access",
    )
}

/// A package whose manifest was read.
pub open spec fn read_package(c: ContainerModel, d: DirModel, identity: Option<(Seq<char>, Option<Seq<char>>)>) -> Seq<
    UnitModel,
> {
    let b = package_base(c, d);
    match identity {
        Some((name, Some(v))) => seq![
            b.evidence("node-package-json"@, name + "@"@ + v, Confidence::High).variant(
                no_variant().with_package(name).with_version(v).unknown("build-generation"@),
            ),
        ],
        Some((name, None)) => seq![
            b.evidence("node-package-json"@, name + ", no version declared"@, Confidence::High).variant(
                no_variant().with_package(name).unknown("version"@).unknown("build-generation"@),
            ),
        ],
        None => seq![
            b.limit(
                "this package's package.json could not be read or parsed; its identity is unknown and is not guessed from the directory name"@,
            ).variant(no_variant().unknown("package"@).unknown("version"@).unknown("build-generation"@)),
        ],
    }
}

pub fn identify_package(container: &BuildContainer, d: &FoldedDir, identity: Option<(String, Option<String>)>) -> (r: Vec<
    NestedArtifact,
>)
    ensures
        units_view(r@) == read_package(
            container@,
            d@,
            match identity {
                Some(p) => Some((p.0@, opt_text(p.1))),
                None => None,
            },
        ),
{
    let b = identify_package_base(container, d);
    match identity {
        Some((name, Some(v))) => {
            let detail = cat3(name.as_str(), "@", v.as_str());
            one(
                b.evidence("node-package-json", detail.as_str(), Confidence::High).variant(
                    ArtifactVariant::none().with_package(name.as_str()).with_version(v.as_str()).unknown(
                        "build-generation",
                    ),
                ).build(),
            )
        },
        Some((name, None)) => {
            let detail = cat2(name.as_str(), ", no version declared");
            one(
                b.evidence("node-package-json", detail.as_str(), Confidence::High).variant(
                    ArtifactVariant::none().with_package(name.as_str()).unknown("version").unknown(
                        "build-generation",
                    ),
                ).build(),
            )
        },
        None => one(
            b.limit(
                "this package's package.json could not be read or parsed; its identity is unknown and is not guessed from the directory name",
            ).variant(
                ArtifactVariant::none().unknown("package").unknown("version").unknown("build-generation"),
            ).build(),
        ),
    }
}

/// A package beyond those whose manifest is read.
pub open spec fn unread_package(c: ContainerModel, d: DirModel) -> Seq<UnitModel> {
    seq![
        package_base(c, d).limit(
            "identity not read: only the 200 largest entries get a manifest read"@,
        ).variant(no_variant().unknown("package"@).unknown("version"@).unknown("build-generation"@)),
    ]
}

fn identify_unread(container: &BuildContainer, d: &FoldedDir) -> (r: Vec<NestedArtifact>)
    ensures
        units_view(r@) == unread_package(container@, d@),
{
    one(
        identify_package_base(container, d).limit(
            "identity not read: only the 200 largest entries get a manifest read",
        ).variant(
            ArtifactVariant::none().unknown("package").unknown("version").unknown("build-generation"),
        ).build(),
    )
}

/// `node_modules`: one unit per top-level entry, the largest packages named by
/// their own manifests.
pub open spec fn node_modules(c: ContainerModel, ctx: CtxModel) -> Seq<UnitModel> {
    let dirs = child_rows(ctx.rows, c.path);
    let packages = by_size(packages_of(ctx, dirs, dirs.len() as int));
    let cut = first_of(packages.len(), PACKAGE_IDENTITY_BUDGET as nat);
    let skipped = (packages.len() - cut) as nat;
    let root = if skipped > 0 {
        container_unit(c, ctx).limit(
            decimal(skipped)
                + " of this tree's top-level entries were sized but not identified: only the 200 largest get a manifest read"@,
        )
    } else {
        container_unit(c, ctx)
    };
    seq![root] + flat(dirs, |d: DirModel| special_unit(c, d)) + flat(
        packages.take(cut),
        |d: DirModel| read_package(c, d, identity_of(ctx, d.path)),
    ) + flat(packages.skip(cut), |d: DirModel| unread_package(c, d))
}

pub fn identify_node_modules(container: &BuildContainer, ctx: &BuildCtx) -> (r: Vec<NestedArtifact>)
    ensures
        units_view(r@) == node_modules(container@, ctx@),
{
    let dirs = ctx.folded().children(&container.path);
    assert(dirs@.len() == dir_refs(dirs@).len());
    let found = find_packages(ctx, &dirs);
    let packages = sort_by_size(&found);
    assert(packages@.len() == dir_refs(packages@).len());
    let (read, unread) = split_dirs(&packages, PACKAGE_IDENTITY_BUDGET);
    assert(unread@.len() == dir_refs(unread@).len());
    let root = identify_container(container, ctx);
    let mut units = if unread.len() > 0 {
        let number = write_u64(unread.len() as u64);
        let limit = cat2(
            number.as_str(),
            " of this tree's top-level entries were sized but not identified: only the 200 largest get a manifest read",
        );
        one(NestedUnitBuilder::amend(root).limit(limit.as_str()).build())
    } else {
        one(root)
    };
    let specials = each_dir(
        &dirs,
        |d: &FoldedDir| -> (out: Vec<NestedArtifact>)
            ensures
                units_view(out@) == special_unit(container@, d@)
            { identify_special(container, d) },
        Ghost(|d: DirModel| special_unit(container@, d)),
    );
    append_units(&mut units, specials);
    let named = each_dir(
        &read,
        |d: &FoldedDir| -> (out: Vec<NestedArtifact>)
            ensures
                units_view(out@) == read_package(container@, d@, identity_of(ctx@, d@.path))
            { identify_package(container, d, package_identity(ctx, &d.path)) },
        Ghost(|d: DirModel| read_package(container@, d, identity_of(ctx@, d.path))),
    );
    append_units(&mut units, named);
    let rest = each_dir(
        &unread,
        |d: &FoldedDir| -> (out: Vec<NestedArtifact>)
            ensures
                units_view(out@) == unread_package(container@, d@)
            { identify_unread(container, d) },
        Ghost(|d: DirModel| unread_package(container@, d)),
    );
    append_units(&mut units, rest);
    units
}

// ---------------------------------------------------------------------
// Shared stores
// ---------------------------------------------------------------------

/// One directory immediately inside a shared store.
pub open spec fn store_child(c: ContainerModel, d: DirModel) -> Seq<UnitModel> {
    let rel = relative(c.path, d.path);
    let b = UnitModel::blank(c, ArtifactRole::SharedStoreEntry, d.path).folded(d).membership(
        Membership::SharedHardlink,
    ).no_action_because("a store entry may be hardlinked into any number of projects' node_modules"@);
    match part_named(store_dirs_spec(), name_of(d.path)) {
        Some(p) => seq![b.supported("`"@ + rel + "` is "@ + p.what).consequence(p.consequence)],
        None => seq![b.unsupported_layout("`"@ + rel + "` is not a store layout this adapter identifies"@)],
    }
}

fn identify_store_child(container: &BuildContainer, d: &FoldedDir) -> (r: Vec<NestedArtifact>)
    ensures
        units_view(r@) == store_child(container@, d@),
{
    let name = d.path.name();
    let rel = relative_path(&container.path, &d.path);
    let b = NestedUnitBuilder::new(container, ArtifactRole::SharedStoreEntry, d.path.copy()).folded(
        d,
    ).membership(Membership::SharedHardlink).no_action_because(
        "a store entry may be hardlinked into any number of projects' node_modules",
    );
    let table = store_dirs();
    match find_part(&table, name.as_str()) {
        Some(p) => {
            let reason = cat4("`", rel.as_str(), "` is ", p.what);
            one(b.supported_with_reason(reason.as_str()).consequence(p.consequence).build())
        },
        None => {
            let limit = cat3("`", rel.as_str(), "` is not a store layout this adapter identifies");
            one(b.unsupported_layout(limit.as_str()).build())
        },
    }
}

/// npm's cache or pnpm's content-addressed store.
pub open spec fn shared_store(c: ContainerModel, ctx: CtxModel) -> Seq<UnitModel> {
    seq![
        measured(
            UnitModel::blank(c, ArtifactRole::SharedStoreEntry, c.path).is_dir(true).supported(
                "a package-manager store shared by every project on this machine"@,
            ).evidence("node-store"@, "shared package store"@, Confidence::Medium).consequence(
                "packages are downloaded again on the next install -- needs registry access; projects whose node_modules hardlink into this store keep working until they are reinstalled"@,
            ).no_action_because(
                "this store is shared across projects and swamp cannot tell which projects link into it"@,
            ),
            ctx,
            c.path,
            "this store was not measured by the walk this pass"@,
        ),
    ] + flat(child_rows(ctx.rows, c.path), |d: DirModel| store_child(c, d))
}

pub fn identify_shared_store(container: &BuildContainer, ctx: &BuildCtx) -> (r: Vec<NestedArtifact>)
    ensures
        units_view(r@) == shared_store(container@, ctx@),
{
    let b = NestedUnitBuilder::new(container, ArtifactRole::SharedStoreEntry, container.path.copy()).is_dir(
        true,
    ).supported_with_reason("a package-manager store shared by every project on this machine").evidence(
        "node-store",
        "shared package store",
        Confidence::Medium,
    ).consequence(
        "packages are downloaded again on the next install -- needs registry access; projects whose node_modules hardlink into this store keep working until they are reinstalled",
    ).no_action_because(
        "this store is shared across projects and swamp cannot tell which projects link into it",
    );
    let mut units = one(
        measure(b, ctx, &container.path, "this store was not measured by the walk this pass").build(),
    );
    let dirs = ctx.folded().children(&container.path);
    let more = each_dir(
        &dirs,
        |d: &FoldedDir| -> (out: Vec<NestedArtifact>)
            ensures
                units_view(out@) == store_child(container@, d@)
            { identify_store_child(container, d) },
        Ghost(|d: DirModel| store_child(container@, d)),
    );
    append_units(&mut units, more);
    units
}

} // verus!
