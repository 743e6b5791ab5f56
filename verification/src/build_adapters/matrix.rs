//! The capability matrix: what each ecosystem family's adapter identifies, what
//! it cannot attribute, and at which granularity anything could be done.
//!
//! Every family gets a row with a status, so that a gap is as visible as a
//! claim.
//!
//! A row speaks of a whole family. Three families have no reader of their insides
//! among the adapters here: `cargo`, whose target directories are inspected on
//! request by `cargo_artifacts`, and `maven` and `docker-buildkit`, whose rows
//! name layouts that nothing here reads. Their adapters take a container whole
//! and claim to understand nothing in it, which
//! `law_unread_families_claim_nothing` states.

use super::adapter::BuildAdapter;
use super::container::ContainerModel;
use super::context::CtxModel;
use super::registry::{builtins, ids_of, law_each_adapter_is_registered_once, strs, Builtin};
use crate::artifact::{RoleFamily, UnitModel};
use crate::facts::FactModel;
use crate::path::{same_path, PathModel};
use crate::text::same;
use vstd::prelude::*;

verus! {

/// Whether a family has an adapter behind it.
#[derive(Debug, Clone, Copy, PartialEq, Eq, Structural)]
pub enum Status {
    /// An adapter is registered. It may still take a container whole.
    Implemented,
    /// The family is recognised and its containers are measured whole, but
    /// nothing identifies their inside yet.
    Planned,
}

impl Status {
    pub open spec fn label_spec(self) -> Seq<char> {
        match self {
            Status::Implemented => "implemented"@,
            Status::Planned => "planned"@,
        }
    }

    pub fn label(self) -> (r: &'static str)
        ensures
            r@ == self.label_spec(),
    {
        match self {
            Status::Implemented => "implemented",
            Status::Planned => "planned",
        }
    }
}

/// One ecosystem family's published capability claim.
#[derive(Debug, Clone)]
pub struct MatrixEntry {
    /// The adapter id of an implemented family; a family name otherwise.
    pub id: &'static str,
    pub name: &'static str,
    pub status: Status,
    /// Role families this family's storage is published under.
    pub families: Vec<RoleFamily>,
    /// The layouts and versions that are covered. Not "all versions".
    pub known_layouts: Vec<&'static str>,
    /// What this adapter cannot attribute, in its own words.
    pub attribution_limits: Vec<&'static str>,
    /// The granularity at which an operation could ever be offered.
    pub operation_granularity: &'static str,
    /// The operation that is offered, and its limits.
    pub actions: &'static str,
}

pub struct MatrixRow {
    pub id: Seq<char>,
    pub name: Seq<char>,
    pub status: Status,
    pub families: Seq<RoleFamily>,
    pub known_layouts: Seq<Seq<char>>,
    pub attribution_limits: Seq<Seq<char>>,
    pub operation_granularity: Seq<char>,
    pub actions: Seq<char>,
}

impl View for MatrixEntry {
    type V = MatrixRow;

    open spec fn view(&self) -> MatrixRow {
        MatrixRow {
            id: self.id@,
            name: self.name@,
            status: self.status,
            families: self.families@,
            known_layouts: strs(self.known_layouts@),
            attribution_limits: strs(self.attribution_limits@),
            operation_granularity: self.operation_granularity@,
            actions: self.actions@,
        }
    }
}

pub const INSPECTION_ONLY: &'static str = "inspection only";

pub const PROJECT_TRASH: &'static str =
    "TUI Trash for project-local outputs, test output and intermediates; shared stores and installations inspection only";

pub open spec fn row_cargo() -> MatrixRow {
    MatrixRow {
        id: "cargo"@,
        name: "Rust / Cargo"@,
        status: Status::Implemented,
        families: seq![RoleFamily::Container, RoleFamily::Outputs, RoleFamily::Tests, RoleFamily::Intermediates, RoleFamily::Dependencies, RoleFamily::Metadata, RoleFamily::Residual],
        known_layouts: seq![
            "target/<profile>/"@,
            "target/<target-triple>/<profile>/"@,
            "deps/, examples/, incremental/, build/, .fingerprint/"@,
            "custom target-dir/build-dir from .cargo/config[.toml] or CARGO_TARGET_DIR"@,
        ],
        attribution_limits: seq![
            "Cargo's intermediate layout is an implementation detail and version-dependent"@,
            "ordinary scans fold dependencies; explicit inspect-cargo reports evidenced targets/variants, not inferred package identities"@,
            "a command-line --target-dir override is invisible to an observer"@,
        ],
        operation_granularity: "profile directory, or one target's executable plus its fingerprint"@,
        actions: "TUI Cargo cleanup groups with fingerprint-aware membership"@,
    }
}

fn entry_cargo() -> (r: MatrixEntry)
    ensures
        r@ == row_cargo(),
{
    let r = MatrixEntry {
        id: "cargo",
        name: "Rust / Cargo",
        status: Status::Implemented,
        families: vec![RoleFamily::Container, RoleFamily::Outputs, RoleFamily::Tests, RoleFamily::Intermediates, RoleFamily::Dependencies, RoleFamily::Metadata, RoleFamily::Residual],
        known_layouts: vec![
            "target/<profile>/",
            "target/<target-triple>/<profile>/",
            "deps/, examples/, incremental/, build/, .fingerprint/",
            "custom target-dir/build-dir from .cargo/config[.toml] or CARGO_TARGET_DIR",
        ],
        attribution_limits: vec![
            "Cargo's intermediate layout is an implementation detail and version-dependent",
            "ordinary scans fold dependencies; explicit inspect-cargo reports evidenced targets/variants, not inferred package identities",
            "a command-line --target-dir override is invisible to an observer",
        ],
        operation_granularity: "profile directory, or one target's executable plus its fingerprint",
        actions: "TUI Cargo cleanup groups with fingerprint-aware membership",
    };
    assert(r@.families =~= row_cargo().families);
    assert(r@.known_layouts =~= row_cargo().known_layouts);
    assert(r@.attribution_limits =~= row_cargo().attribution_limits);
    r
}

pub open spec fn row_node() -> MatrixRow {
    MatrixRow {
        id: "node"@,
        name: "Node.js"@,
        status: Status::Implemented,
        families: seq![RoleFamily::Outputs, RoleFamily::Tests, RoleFamily::Intermediates, RoleFamily::Dependencies, RoleFamily::SharedStore, RoleFamily::Metadata, RoleFamily::Residual],
        known_layouts: seq![
            "node_modules/ top-level packages, scoped @scope/name"@,
            "node_modules/.pnpm/ virtual store"@,
            "dist, build, out, .next, .nuxt, .svelte-kit, .output, .vercel/output, storybook-static"@,
            "coverage, .nyc_output, playwright-report, test-results"@,
            ".next/cache, .turbo, .parcel-cache, .cache, .vite, node_modules/.cache/<tool>"@,
            ".eslintcache, tsconfig.tsbuildinfo"@,
            "npm _cacache, pnpm content-addressable store"@,
        ],
        attribution_limits: seq![
            "a package's identity comes from its own package.json name/version; a package.json that cannot be read leaves the identity unknown"@,
            "workspace hoisting means a top-level package may be a dependency of any workspace member, and which one is not recorded on disk"@,
            "pnpm store entries are content-addressed: which project links a given object is not derivable from the object"@,
            "no build generation is inferred -- npm records none"@,
        ],
        operation_granularity: "one output directory, one cache directory, or one installed tree"@,
        actions: PROJECT_TRASH@,
    }
}

fn entry_node() -> (r: MatrixEntry)
    ensures
        r@ == row_node(),
{
    let r = MatrixEntry {
        id: "node",
        name: "Node.js",
        status: Status::Implemented,
        families: vec![RoleFamily::Outputs, RoleFamily::Tests, RoleFamily::Intermediates, RoleFamily::Dependencies, RoleFamily::SharedStore, RoleFamily::Metadata, RoleFamily::Residual],
        known_layouts: vec![
            "node_modules/ top-level packages, scoped @scope/name",
            "node_modules/.pnpm/ virtual store",
            "dist, build, out, .next, .nuxt, .svelte-kit, .output, .vercel/output, storybook-static",
            "coverage, .nyc_output, playwright-report, test-results",
            ".next/cache, .turbo, .parcel-cache, .cache, .vite, node_modules/.cache/<tool>",
            ".eslintcache, tsconfig.tsbuildinfo",
            "npm _cacache, pnpm content-addressable store",
        ],
        attribution_limits: vec![
            "a package's identity comes from its own package.json name/version; a package.json that cannot be read leaves the identity unknown",
            "workspace hoisting means a top-level package may be a dependency of any workspace member, and which one is not recorded on disk",
            "pnpm store entries are content-addressed: which project links a given object is not derivable from the object",
            "no build generation is inferred -- npm records none",
        ],
        operation_granularity: "one output directory, one cache directory, or one installed tree",
        actions: PROJECT_TRASH,
    };
    assert(r@.families =~= row_node().families);
    assert(r@.known_layouts =~= row_node().known_layouts);
    assert(r@.attribution_limits =~= row_node().attribution_limits);
    r
}

pub open spec fn row_gradle() -> MatrixRow {
    MatrixRow {
        id: "gradle"@,
        name: "Gradle"@,
        status: Status::Implemented,
        families: seq![RoleFamily::Outputs, RoleFamily::Tests, RoleFamily::Intermediates, RoleFamily::SharedStore, RoleFamily::Metadata, RoleFamily::Residual],
        known_layouts: seq![
            "build/classes, build/libs, build/tmp, build/reports, build/test-results, build/generated, build/intermediates"@,
            ".gradle/ project cache"@,
            "<gradle-user-home>/caches/{modules-2,jars-*,transforms-*,build-cache-*}"@,
            "<gradle-user-home>/wrapper/dists/<dist>-<hash>"@,
            "<gradle-user-home>/daemon/<version>"@,
            "<gradle-user-home>/caches/modules-2/metadata-*"@,
            "each of caches/, wrapper/dists/, daemon/, native/ as its own machine-wide store"@,
        ],
        attribution_limits: seq![
            "build scripts and plugins are never evaluated, so a custom buildDir or a plugin's own output directory is an unidentified residual"@,
            "a transforms-* or build-cache-* entry is keyed by a hash with no recorded inputs"@,
            "which project last wrote a shared cache entry is not recorded on disk"@,
        ],
        operation_granularity: "one project build directory, or one cache category directory"@,
        actions: PROJECT_TRASH@,
    }
}

fn entry_gradle() -> (r: MatrixEntry)
    ensures
        r@ == row_gradle(),
{
    let r = MatrixEntry {
        id: "gradle",
        name: "Gradle",
        status: Status::Implemented,
        families: vec![RoleFamily::Outputs, RoleFamily::Tests, RoleFamily::Intermediates, RoleFamily::SharedStore, RoleFamily::Metadata, RoleFamily::Residual],
        known_layouts: vec![
            "build/classes, build/libs, build/tmp, build/reports, build/test-results, build/generated, build/intermediates",
            ".gradle/ project cache",
            "<gradle-user-home>/caches/{modules-2,jars-*,transforms-*,build-cache-*}",
            "<gradle-user-home>/wrapper/dists/<dist>-<hash>",
            "<gradle-user-home>/daemon/<version>",
            "<gradle-user-home>/caches/modules-2/metadata-*",
            "each of caches/, wrapper/dists/, daemon/, native/ as its own machine-wide store",
        ],
        attribution_limits: vec![
            "build scripts and plugins are never evaluated, so a custom buildDir or a plugin's own output directory is an unidentified residual",
            "a transforms-* or build-cache-* entry is keyed by a hash with no recorded inputs",
            "which project last wrote a shared cache entry is not recorded on disk",
        ],
        operation_granularity: "one project build directory, or one cache category directory",
        actions: PROJECT_TRASH,
    };
    assert(r@.families =~= row_gradle().families);
    assert(r@.known_layouts =~= row_gradle().known_layouts);
    assert(r@.attribution_limits =~= row_gradle().attribution_limits);
    r
}

pub open spec fn row_maven() -> MatrixRow {
    MatrixRow {
        id: "maven"@,
        name: "Maven"@,
        status: Status::Implemented,
        families: seq![RoleFamily::Outputs, RoleFamily::Tests, RoleFamily::SharedStore, RoleFamily::Metadata, RoleFamily::Residual],
        known_layouts: seq![
            "target/{classes,test-classes,generated-sources,surefire-reports,failsafe-reports,site}"@,
            "target/*.jar, *.war"@,
            "<local-repository>/<group>/<artifact>/<version>/"@,
            "_remote.repositories, *.lastUpdated, maven-metadata-local.xml origin evidence"@,
        ],
        attribution_limits: seq![
            "origin comes from _remote.repositories entries (a repository id means downloaded, an empty id means installed by `mvn install`) or maven-metadata-local.xml; with neither, or with only a *.lastUpdated attempt record, the origin is unknown and swamp never promises a re-download"@,
            "POM property and parent-inherited versions are not resolved; an unresolved ${property} is an explicit identity gap"@,
            "plugins are never evaluated, so a plugin's own output directory under target/ is an unidentified residual"@,
        ],
        operation_granularity: "one project target directory, or one repository artifact version"@,
        actions: PROJECT_TRASH@,
    }
}

fn entry_maven() -> (r: MatrixEntry)
    ensures
        r@ == row_maven(),
{
    let r = MatrixEntry {
        id: "maven",
        name: "Maven",
        status: Status::Implemented,
        families: vec![RoleFamily::Outputs, RoleFamily::Tests, RoleFamily::SharedStore, RoleFamily::Metadata, RoleFamily::Residual],
        known_layouts: vec![
            "target/{classes,test-classes,generated-sources,surefire-reports,failsafe-reports,site}",
            "target/*.jar, *.war",
            "<local-repository>/<group>/<artifact>/<version>/",
            "_remote.repositories, *.lastUpdated, maven-metadata-local.xml origin evidence",
        ],
        attribution_limits: vec![
            "origin comes from _remote.repositories entries (a repository id means downloaded, an empty id means installed by `mvn install`) or maven-metadata-local.xml; with neither, or with only a *.lastUpdated attempt record, the origin is unknown and swamp never promises a re-download",
            "POM property and parent-inherited versions are not resolved; an unresolved ${property} is an explicit identity gap",
            "plugins are never evaluated, so a plugin's own output directory under target/ is an unidentified residual",
        ],
        operation_granularity: "one project target directory, or one repository artifact version",
        actions: PROJECT_TRASH,
    };
    assert(r@.families =~= row_maven().families);
    assert(r@.known_layouts =~= row_maven().known_layouts);
    assert(r@.attribution_limits =~= row_maven().attribution_limits);
    r
}

pub open spec fn row_android() -> MatrixRow {
    MatrixRow {
        id: "android"@,
        name: "Android"@,
        status: Status::Implemented,
        families: seq![RoleFamily::Outputs, RoleFamily::Tests, RoleFamily::Intermediates, RoleFamily::Installations, RoleFamily::State, RoleFamily::Metadata, RoleFamily::Residual],
        known_layouts: seq![
            "<module>/build/ of a module with src/main/AndroidManifest.xml: the Gradle conventional entries plus outputs/{apk/<flavor>/<buildType>,bundle/<variant>,mapping/<variant>,aar,logs}, intermediates/<task>/<variant>, test-results/<task>, reports"@,
            ".cxx/<Variant>/<hash>/<abi>, .cxx/cmake/<variant>/<abi>, .externalNativeBuild/cmake/<variant>/<abi>"@,
            "<sdk>/{platforms,build-tools,system-images/<api>/<tag>/<abi>,emulator} with source.properties"@,
            "~/.android/avd/<name>.avd with config.ini and emulator lock files"@,
        ],
        attribution_limits: seq![
            "variants come from the plugin's directory names (build type, flavor, test set); build scripts are never evaluated, so a custom buildDir or a plugin's own output is an unidentified residual"@,
            "a .cxx configuration hash is the plugin's key; its inputs are not recorded"@,
            "an R8 mapping matches only the build that wrote it; which release shipped is not recorded"@,
            "SDK packages and AVDs are installations and device state, never build output"@,
        ],
        operation_granularity: "one module build directory, one native variant/ABI, one SDK package, or one AVD"@,
        actions: PROJECT_TRASH@,
    }
}

fn entry_android() -> (r: MatrixEntry)
    ensures
        r@ == row_android(),
{
    let r = MatrixEntry {
        id: "android",
        name: "Android",
        status: Status::Implemented,
        families: vec![RoleFamily::Outputs, RoleFamily::Tests, RoleFamily::Intermediates, RoleFamily::Installations, RoleFamily::State, RoleFamily::Metadata, RoleFamily::Residual],
        known_layouts: vec![
            "<module>/build/ of a module with src/main/AndroidManifest.xml: the Gradle conventional entries plus outputs/{apk/<flavor>/<buildType>,bundle/<variant>,mapping/<variant>,aar,logs}, intermediates/<task>/<variant>, test-results/<task>, reports",
            ".cxx/<Variant>/<hash>/<abi>, .cxx/cmake/<variant>/<abi>, .externalNativeBuild/cmake/<variant>/<abi>",
            "<sdk>/{platforms,build-tools,system-images/<api>/<tag>/<abi>,emulator} with source.properties",
            "~/.android/avd/<name>.avd with config.ini and emulator lock files",
        ],
        attribution_limits: vec![
            "variants come from the plugin's directory names (build type, flavor, test set); build scripts are never evaluated, so a custom buildDir or a plugin's own output is an unidentified residual",
            "a .cxx configuration hash is the plugin's key; its inputs are not recorded",
            "an R8 mapping matches only the build that wrote it; which release shipped is not recorded",
            "SDK packages and AVDs are installations and device state, never build output",
        ],
        operation_granularity: "one module build directory, one native variant/ABI, one SDK package, or one AVD",
        actions: PROJECT_TRASH,
    };
    assert(r@.families =~= row_android().families);
    assert(r@.known_layouts =~= row_android().known_layouts);
    assert(r@.attribution_limits =~= row_android().attribution_limits);
    r
}

pub open spec fn row_python() -> MatrixRow {
    MatrixRow {
        id: "python"@,
        name: "Python"@,
        status: Status::Implemented,
        families: seq![RoleFamily::Outputs, RoleFamily::Tests, RoleFamily::Intermediates, RoleFamily::Dependencies, RoleFamily::SharedStore, RoleFamily::Installations, RoleFamily::Metadata, RoleFamily::Residual],
        known_layouts: seq![
            "dist/*.whl, dist/*.tar.gz named by the wheel and sdist filename conventions"@,
            "build/{lib,lib.<plat>-<impl>-<ver>,temp.<plat>-<impl>-<ver>,bdist.<plat>,scripts}"@,
            "*.egg-info with PKG-INFO, .eggs/<name>-<ver>-py<X.Y>.egg"@,
            "__pycache__, .pytest_cache, .mypy_cache/<python>, .ruff_cache/<ruff>, .pytype, .pyre, .hypothesis, htmlcov, .coverage"@,
            ".venv/venv/env and .tox/.nox envs: pyvenv.cfg, lib/pythonX.Y/site-packages with *.dist-info (top_level.txt, direct_url.json)"@,
            "pip cache {http,http-v2,wheels,selfcheck}; uv cache {archive,wheels,built-wheels,sdists,simple,git,interpreter,environments,builds}-vN with pypi/<name> and path/<hash>"@,
            "uv python/<impl>-<ver>-<os>-<arch>-<libc>, uv tools/<tool>"@,
        ],
        attribution_limits: seq![
            "a wheel's or sdist's identity is its filename; the archive's METADATA inside it is not opened"@,
            "a site-packages directory is named only through a distribution's top_level.txt (the first 400 dist-info directories are read); an unclaimed one stays unknown"@,
            "no interpreter is started and no package imported; a missing interpreter is reported from pyvenv.cfg's home"@,
            "uv links packages from its cache into environments; shared bytes are charged once, where the walk first met them"@,
            "cache entries are keyed by hashes; which project needed one is not recorded"@,
        ],
        operation_granularity: "one output or cache directory, one distribution file, one environment, or one cache bucket"@,
        actions: PROJECT_TRASH@,
    }
}

fn entry_python() -> (r: MatrixEntry)
    ensures
        r@ == row_python(),
{
    let r = MatrixEntry {
        id: "python",
        name: "Python",
        status: Status::Implemented,
        families: vec![RoleFamily::Outputs, RoleFamily::Tests, RoleFamily::Intermediates, RoleFamily::Dependencies, RoleFamily::SharedStore, RoleFamily::Installations, RoleFamily::Metadata, RoleFamily::Residual],
        known_layouts: vec![
            "dist/*.whl, dist/*.tar.gz named by the wheel and sdist filename conventions",
            "build/{lib,lib.<plat>-<impl>-<ver>,temp.<plat>-<impl>-<ver>,bdist.<plat>,scripts}",
            "*.egg-info with PKG-INFO, .eggs/<name>-<ver>-py<X.Y>.egg",
            "__pycache__, .pytest_cache, .mypy_cache/<python>, .ruff_cache/<ruff>, .pytype, .pyre, .hypothesis, htmlcov, .coverage",
            ".venv/venv/env and .tox/.nox envs: pyvenv.cfg, lib/pythonX.Y/site-packages with *.dist-info (top_level.txt, direct_url.json)",
            "pip cache {http,http-v2,wheels,selfcheck}; uv cache {archive,wheels,built-wheels,sdists,simple,git,interpreter,environments,builds}-vN with pypi/<name> and path/<hash>",
            "uv python/<impl>-<ver>-<os>-<arch>-<libc>, uv tools/<tool>",
        ],
        attribution_limits: vec![
            "a wheel's or sdist's identity is its filename; the archive's METADATA inside it is not opened",
            "a site-packages directory is named only through a distribution's top_level.txt (the first 400 dist-info directories are read); an unclaimed one stays unknown",
            "no interpreter is started and no package imported; a missing interpreter is reported from pyvenv.cfg's home",
            "uv links packages from its cache into environments; shared bytes are charged once, where the walk first met them",
            "cache entries are keyed by hashes; which project needed one is not recorded",
        ],
        operation_granularity: "one output or cache directory, one distribution file, one environment, or one cache bucket",
        actions: PROJECT_TRASH,
    };
    assert(r@.families =~= row_python().families);
    assert(r@.known_layouts =~= row_python().known_layouts);
    assert(r@.attribution_limits =~= row_python().attribution_limits);
    r
}

pub open spec fn row_go() -> MatrixRow {
    MatrixRow {
        id: "go"@,
        name: "Go"@,
        status: Status::Implemented,
        families: seq![RoleFamily::Outputs, RoleFamily::Intermediates, RoleFamily::Dependencies, RoleFamily::SharedStore, RoleFamily::Installations, RoleFamily::Metadata, RoleFamily::Residual],
        known_layouts: seq![
            "vendor/ with vendor/modules.txt"@,
            "bin/ beside go.mod; dist/<build>_<os>_<arch> beside a goreleaser config"@,
            "GOMODCACHE/<escaped module>@<version>/, golang.org/toolchain@<version>"@,
            "GOMODCACHE/cache/download/<escaped module>/@v/<version>.{zip,mod,info}, sumdb/"@,
            "GOCACHE/00..ff buckets, trim.txt, testexpire.txt"@,
        ],
        attribution_limits: seq![
            "a build-cache entry's name is a hash of an action's inputs: it identifies no package, no test binary and no build, and nothing on disk says a build will read it again"@,
            "module identity comes from the escaped path; the go command is never run"@,
            "download versions are listed for the 2,000 largest modules; the rest are sized"@,
            "a binary in bin/ does not record which build or commit produced it"@,
        ],
        operation_granularity: "one output directory or binary, one module version, one build-cache bucket"@,
        actions: PROJECT_TRASH@,
    }
}

fn entry_go() -> (r: MatrixEntry)
    ensures
        r@ == row_go(),
{
    let r = MatrixEntry {
        id: "go",
        name: "Go",
        status: Status::Implemented,
        families: vec![RoleFamily::Outputs, RoleFamily::Intermediates, RoleFamily::Dependencies, RoleFamily::SharedStore, RoleFamily::Installations, RoleFamily::Metadata, RoleFamily::Residual],
        known_layouts: vec![
            "vendor/ with vendor/modules.txt",
            "bin/ beside go.mod; dist/<build>_<os>_<arch> beside a goreleaser config",
            "GOMODCACHE/<escaped module>@<version>/, golang.org/toolchain@<version>",
            "GOMODCACHE/cache/download/<escaped module>/@v/<version>.{zip,mod,info}, sumdb/",
            "GOCACHE/00..ff buckets, trim.txt, testexpire.txt",
        ],
        attribution_limits: vec![
            "a build-cache entry's name is a hash of an action's inputs: it identifies no package, no test binary and no build, and nothing on disk says a build will read it again",
            "module identity comes from the escaped path; the go command is never run",
            "download versions are listed for the 2,000 largest modules; the rest are sized",
            "a binary in bin/ does not record which build or commit produced it",
        ],
        operation_granularity: "one output directory or binary, one module version, one build-cache bucket",
        actions: PROJECT_TRASH,
    };
    assert(r@.families =~= row_go().families);
    assert(r@.known_layouts =~= row_go().known_layouts);
    assert(r@.attribution_limits =~= row_go().attribution_limits);
    r
}

pub open spec fn row_xcode_swift() -> MatrixRow {
    MatrixRow {
        id: "xcode-swift"@,
        name: "Xcode / Swift"@,
        status: Status::Implemented,
        families: seq![RoleFamily::Outputs, RoleFamily::Tests, RoleFamily::Intermediates, RoleFamily::Dependencies, RoleFamily::Installations, RoleFamily::State, RoleFamily::Metadata, RoleFamily::Residual],
        known_layouts: seq![
            "DerivedData/<Project>-<hash>/ with info.plist WorkspacePath (XML or binary plist)"@,
            "Build/Products/<Configuration>-<platform>/{*.app,*.xctest,*.dSYM,*.framework,*.swiftmodule}"@,
            "Build/Intermediates.noindex, Index.noindex, ModuleCache.noindex, Logs/Test/*.xcresult, SourcePackages/{checkouts,repositories,artifacts} with workspace-state.json"@,
            "a project-local DerivedData or -derivedDataPath folder"@,
            "SwiftPM .build/{<triple>/<debug or release>,checkouts,repositories,artifacts,.lock}"@,
            "Archives/<date>/*.xcarchive with Info.plist; iOS/watchOS DeviceSupport/<version (build)>"@,
            "CoreSimulator Devices/<UDID>/device.plist, Profiles/Runtimes/*.simruntime, Caches"@,
        ],
        attribution_limits: seq![
            "the source project is read from info.plist's WorkspacePath; a folder without one keeps an unknown project, and the folder name's hash is not reversed"@,
            "a missing workspace is reported as a fact, never as a verdict on the build"@,
            "archives, device support, runtimes and simulator devices are never build output"@,
            "an active build is evidence only: a `.lock` file or a modification in the last ten minutes"@,
            "build phases and package plugins are never run"@,
        ],
        operation_granularity: "one DerivedData project folder, one products configuration, one archive, one runtime, or one simulator device"@,
        actions: PROJECT_TRASH@,
    }
}

fn entry_xcode_swift() -> (r: MatrixEntry)
    ensures
        r@ == row_xcode_swift(),
{
    let r = MatrixEntry {
        id: "xcode-swift",
        name: "Xcode / Swift",
        status: Status::Implemented,
        families: vec![RoleFamily::Outputs, RoleFamily::Tests, RoleFamily::Intermediates, RoleFamily::Dependencies, RoleFamily::Installations, RoleFamily::State, RoleFamily::Metadata, RoleFamily::Residual],
        known_layouts: vec![
            "DerivedData/<Project>-<hash>/ with info.plist WorkspacePath (XML or binary plist)",
            "Build/Products/<Configuration>-<platform>/{*.app,*.xctest,*.dSYM,*.framework,*.swiftmodule}",
            "Build/Intermediates.noindex, Index.noindex, ModuleCache.noindex, Logs/Test/*.xcresult, SourcePackages/{checkouts,repositories,artifacts} with workspace-state.json",
            "a project-local DerivedData or -derivedDataPath folder",
            "SwiftPM .build/{<triple>/<debug or release>,checkouts,repositories,artifacts,.lock}",
            "Archives/<date>/*.xcarchive with Info.plist; iOS/watchOS DeviceSupport/<version (build)>",
            "CoreSimulator Devices/<UDID>/device.plist, Profiles/Runtimes/*.simruntime, Caches",
        ],
        attribution_limits: vec![
            "the source project is read from info.plist's WorkspacePath; a folder without one keeps an unknown project, and the folder name's hash is not reversed",
            "a missing workspace is reported as a fact, never as a verdict on the build",
            "archives, device support, runtimes and simulator devices are never build output",
            "an active build is evidence only: a `.lock` file or a modification in the last ten minutes",
            "build phases and package plugins are never run",
        ],
        operation_granularity: "one DerivedData project folder, one products configuration, one archive, one runtime, or one simulator device",
        actions: PROJECT_TRASH,
    };
    assert(r@.families =~= row_xcode_swift().families);
    assert(r@.known_layouts =~= row_xcode_swift().known_layouts);
    assert(r@.attribution_limits =~= row_xcode_swift().attribution_limits);
    r
}

pub open spec fn row_docker_buildkit() -> MatrixRow {
    MatrixRow {
        id: "docker-buildkit"@,
        name: "Docker / BuildKit"@,
        status: Status::Implemented,
        families: seq![RoleFamily::Intermediates, RoleFamily::Metadata, RoleFamily::Residual],
        known_layouts: seq![
            "daemon build-cache records from `docker system df -v --format json` (API 1.39+)"@,
            "per-builder records from `docker buildx du --verbose` (text or JSON)"@,
            "builders from `docker buildx ls --format json`; API version from `docker version`"@,
            "record types regular, source.local, source.git.checkout, exec.cachemount, frontend, internal"@,
        ],
        attribution_limits: seq![
            "every field is the daemon's: sizes are logical and per record (a parent's size is never in a child's), times are the daemon's records, in-use/shared/reclaimable are what it reported"@,
            "the host disk image holding the records is measured separately and never added"@,
            "which project's build produced a record is not recorded by the daemon"@,
            "an unavailable daemon, a missing buildx or an old API is stated, not treated as an empty cache"@,
        ],
        operation_granularity: "daemon-side only: `docker buildx prune --filter id=<id>` removes a record with its dependents; `docker builder prune` removes every record not in use that matches its filters"@,
        actions: INSPECTION_ONLY@,
    }
}

fn entry_docker_buildkit() -> (r: MatrixEntry)
    ensures
        r@ == row_docker_buildkit(),
{
    let r = MatrixEntry {
        id: "docker-buildkit",
        name: "Docker / BuildKit",
        status: Status::Implemented,
        families: vec![RoleFamily::Intermediates, RoleFamily::Metadata, RoleFamily::Residual],
        known_layouts: vec![
            "daemon build-cache records from `docker system df -v --format json` (API 1.39+)",
            "per-builder records from `docker buildx du --verbose` (text or JSON)",
            "builders from `docker buildx ls --format json`; API version from `docker version`",
            "record types regular, source.local, source.git.checkout, exec.cachemount, frontend, internal",
        ],
        attribution_limits: vec![
            "every field is the daemon's: sizes are logical and per record (a parent's size is never in a child's), times are the daemon's records, in-use/shared/reclaimable are what it reported",
            "the host disk image holding the records is measured separately and never added",
            "which project's build produced a record is not recorded by the daemon",
            "an unavailable daemon, a missing buildx or an old API is stated, not treated as an empty cache",
        ],
        operation_granularity: "daemon-side only: `docker buildx prune --filter id=<id>` removes a record with its dependents; `docker builder prune` removes every record not in use that matches its filters",
        actions: INSPECTION_ONLY,
    };
    assert(r@.families =~= row_docker_buildkit().families);
    assert(r@.known_layouts =~= row_docker_buildkit().known_layouts);
    assert(r@.attribution_limits =~= row_docker_buildkit().attribution_limits);
    r
}

/// The matrix: one row per family.
pub open spec fn matrix_rows() -> Seq<MatrixRow> {
    seq![
        row_cargo(),
        row_node(),
        row_gradle(),
        row_maven(),
        row_android(),
        row_python(),
        row_go(),
        row_xcode_swift(),
        row_docker_buildkit(),
    ]
}

pub open spec fn rows_of(s: Seq<MatrixEntry>) -> Seq<MatrixRow> {
    Seq::new(s.len(), |i: int| s[i]@)
}

pub fn matrix() -> (r: Vec<MatrixEntry>)
    ensures
        rows_of(r@) == matrix_rows(),
{
    let r: Vec<MatrixEntry> = vec![
        entry_cargo(),
        entry_node(),
        entry_gradle(),
        entry_maven(),
        entry_android(),
        entry_python(),
        entry_go(),
        entry_xcode_swift(),
        entry_docker_buildkit(),
    ];
    assert(rows_of(r@) =~= matrix_rows());
    r
}

/// The ids of the first `n` rows that have a registered adapter.
pub open spec fn implemented_among(rows: Seq<MatrixRow>, n: int) -> Seq<Seq<char>>
    decreases n,
{
    if n <= 0 {
        Seq::empty()
    } else if rows[n - 1].status == Status::Implemented {
        implemented_among(rows, n - 1).push(rows[n - 1].id)
    } else {
        implemented_among(rows, n - 1)
    }
}

/// The ids of families with a registered adapter.
pub fn implemented_ids() -> (r: Vec<&'static str>)
    ensures
        strs(r@) == implemented_among(matrix_rows(), matrix_rows().len() as int),
{
    let all = matrix();
    let ghost rows = matrix_rows();
    let mut out: Vec<&'static str> = Vec::new();
    let mut i: usize = 0;
    assert(strs(out@) =~= implemented_among(rows, 0));
    while i < all.len()
        invariant
            i <= all@.len(),
            rows_of(all@) == rows,
            strs(out@) == implemented_among(rows, i as int),
        decreases all@.len() - i,
    {
        let e = &all[i];
        assert(rows[i as int] == e@);
        if e.status == Status::Implemented {
            let ghost prior = out@;
            out.push(e.id);
            assert(strs(out@) =~= strs(prior).push(e.id@));
        }
        i += 1;
    }
    assert(rows.len() == all@.len());
    out
}

/// The first row with an id, from place `i` on.
pub open spec fn row_from(rows: Seq<MatrixRow>, id: Seq<char>, i: int) -> Option<MatrixRow>
    decreases rows.len() - i,
{
    if i < 0 || i >= rows.len() {
        None
    } else if rows[i].id == id {
        Some(rows[i])
    } else {
        row_from(rows, id, i + 1)
    }
}

pub fn get(id: &str) -> (r: Option<MatrixEntry>)
    ensures
        match r {
            Some(e) => row_from(matrix_rows(), id@, 0) == Some(e@),
            None => row_from(matrix_rows(), id@, 0) is None,
        },
{
    let mut all = matrix();
    let ghost rows = matrix_rows();
    let mut i: usize = 0;
    while i < all.len()
        invariant
            i <= all@.len(),
            rows == matrix_rows(),
            rows_of(all@) == rows,
            row_from(rows, id@, 0) == row_from(rows, id@, i as int),
        decreases all@.len() - i,
    {
        assert(rows[i as int] == all@[i as int]@);
        if same(all[i].id, id) {
            return Some(all.remove(i));
        }
        i += 1;
    }
    assert(rows.len() == all@.len());
    None
}

// ---------------------------------------------------------------------
// Laws
// ---------------------------------------------------------------------

/// The row of an adapter's family.
pub open spec fn row_for(a: Builtin) -> MatrixRow {
    match a {
        Builtin::Cargo => row_cargo(),
        Builtin::Node => row_node(),
        Builtin::Gradle => row_gradle(),
        Builtin::Maven => row_maven(),
        Builtin::Android => row_android(),
        Builtin::Python => row_python(),
        Builtin::Go => row_go(),
        Builtin::XcodeSwift => row_xcode_swift(),
        Builtin::DockerBuildkit => row_docker_buildkit(),
    }
}

/// The adapter of each place of the matrix.
pub open spec fn adapter_at(i: int) -> Builtin {
    if i == 0 {
        Builtin::Cargo
    } else if i == 1 {
        Builtin::Node
    } else if i == 2 {
        Builtin::Gradle
    } else if i == 3 {
        Builtin::Maven
    } else if i == 4 {
        Builtin::Android
    } else if i == 5 {
        Builtin::Python
    } else if i == 6 {
        Builtin::Go
    } else if i == 7 {
        Builtin::XcodeSwift
    } else {
        Builtin::DockerBuildkit
    }
}

/// The implemented ids are those of the rows, in their order.
proof fn lemma_all_implemented()
    ensures
        matrix_rows().len() == 9,
        implemented_among(matrix_rows(), 9) == Seq::new(9, |i: int| adapter_at(i).id_spec()),
{
    reveal_with_fuel(implemented_among, 10);
    let rows = matrix_rows();
    assert(implemented_among(rows, 9) =~= Seq::new(9, |i: int| adapter_at(i).id_spec()));
}

/// What the matrix publishes as implemented is what is registered: an id is in
/// the one list exactly where it is in the other.
pub proof fn law_published_claims_are_registered(id: Seq<char>)
    ensures
        implemented_among(matrix_rows(), matrix_rows().len() as int).contains(id) <==> ids_of(builtins()).contains(
            id,
        ),
{
    lemma_all_implemented();
    let published = implemented_among(matrix_rows(), matrix_rows().len() as int);
    let registered = ids_of(builtins());
    if published.contains(id) {
        let i = choose|i: int| 0 <= i < published.len() && published[i] == id;
        let a = adapter_at(i);
        let k = registered_place(a);
        assert(builtins()[k] == a);
        assert(registered[k] == id);
    }
    if registered.contains(id) {
        let k = choose|k: int| 0 <= k < registered.len() && registered[k] == id;
        let a = builtins()[k];
        let i = published_place(a);
        assert(adapter_at(i) == a);
        assert(published[i] == id);
    }
}

/// No id is published twice.
pub proof fn law_published_ids_are_unique(i: int, j: int)
    requires
        0 <= i < j < matrix_rows().len(),
    ensures
        matrix_rows()[i].id != matrix_rows()[j].id,
{
    let rows = matrix_rows();
    assert(rows[i].id == adapter_at(i).id_spec());
    assert(rows[j].id == adapter_at(j).id_spec());
    let a = registered_place(adapter_at(i));
    let b = registered_place(adapter_at(j));
    assert(published_place(adapter_at(i)) == i && published_place(adapter_at(j)) == j);
    assert(builtins()[a] == adapter_at(i) && builtins()[b] == adapter_at(j));
    if a < b {
        law_each_adapter_is_registered_once(a, b);
    } else {
        law_each_adapter_is_registered_once(b, a);
    }
}

spec fn published_place(a: Builtin) -> int {
    match a {
        Builtin::Cargo => 0,
        Builtin::Node => 1,
        Builtin::Gradle => 2,
        Builtin::Maven => 3,
        Builtin::Android => 4,
        Builtin::Python => 5,
        Builtin::Go => 6,
        Builtin::XcodeSwift => 7,
        Builtin::DockerBuildkit => 8,
    }
}

spec fn registered_place(a: Builtin) -> int {
    match a {
        Builtin::Cargo => 0,
        Builtin::Node => 1,
        Builtin::Android => 2,
        Builtin::Gradle => 3,
        Builtin::Maven => 4,
        Builtin::Python => 5,
        Builtin::Go => 6,
        Builtin::XcodeSwift => 7,
        Builtin::DockerBuildkit => 8,
    }
}

/// A family's row is published under its adapter's id and name, with stated
/// layouts, families and limits; and it publishes exact-path removal exactly
/// where the adapter names roles it can remove.
pub proof fn law_rows_state_what_adapters_do(a: Builtin)
    ensures
        row_for(a).id == a.id_spec(),
        row_for(a).name == a.name_spec(),
        row_for(a).status == Status::Implemented,
        row_for(a).families.len() > 0,
        row_for(a).known_layouts.len() > 0,
        row_for(a).attribution_limits.len() > 0,
        row_for(a).actions == PROJECT_TRASH@ <==> a.trash_roles_spec().len() > 0,
{
    reveal_strlit("inspection only");
    assert("inspection only"@.len() == 15);
    reveal_strlit("TUI Trash for project-local outputs, test output and intermediates; shared stores and installations inspection only");
    assert("TUI Trash for project-local outputs, test output and intermediates; shared stores and installations inspection only"@.len() == 115);
    reveal_strlit("TUI Cargo cleanup groups with fingerprint-aware membership");
    assert("TUI Cargo cleanup groups with fingerprint-aware membership"@.len() == 58);
}

/// Whether an adapter takes its containers whole.
pub open spec fn takes_whole(a: Builtin) -> bool {
    a is Cargo || a is Maven || a is DockerBuildkit
}

/// A family whose insides nothing reads claims nothing: no directory of a
/// project, and of a store one unit at its own path that says that its layout
/// is not understood and offers nothing.
pub proof fn law_unread_families_claim_nothing(
    a: Builtin,
    c: ContainerModel,
    ctx: CtxModel,
    root: PathModel,
    candidates: Seq<PathModel>,
    facts: Seq<FactModel>,
)
    requires
        takes_whole(a),
    ensures
        a.containers_spec(root, candidates, facts).len() == 0,
        a.identify_spec(c, ctx).len() == 1,
        same_path(a.identify_spec(c, ctx)[0].path, c.path),
        !a.identify_spec(c, ctx)[0].coverage.supported,
        a.identify_spec(c, ctx)[0].action is Unsupported,
{
    reveal(UnitModel::container_root);
    reveal(UnitModel::unsupported_layout);
    reveal(UnitModel::blank);
    reveal(UnitModel::is_dir);
    reveal(UnitModel::folded);
    reveal(UnitModel::limit);
}

} // verus!
