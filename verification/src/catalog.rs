//! The detectors this library knows of, and what each declares.
//!
//! Which detectors there are, and which locations, files and layouts each names,
//! is this library's own choice: it follows the conventions of the tools, and a
//! location that no detector declares is simply not looked for.

use crate::detectors::{
    detectors_view, strs, AnchorModel, ConventionRole, Detector, DetectorModel, GlobalDefaultFile,
    InstalledVersionLayout, InstalledVersionNaming, LookupModel, Registry, RoleModel, StoreAnchor, StoreEntryLookup,
};
use crate::locations::{BuildStoreKind, StorageCategory};
use vstd::prelude::*;

verus! {

fn categorized_0(category: StorageCategory) -> (r: StoreAnchor)
    ensures
        r@ == (AnchorModel::Categorized { category, suffix: Seq::empty() }),
{
    let suffix: Vec<&'static str> = Vec::new();
    assert(strs(suffix@) =~= Seq::<Seq<char>>::empty());
    StoreAnchor::Categorized { category, suffix }
}

fn categorized_1(category: StorageCategory, a: &'static str) -> (r: StoreAnchor)
    ensures
        r@ == (AnchorModel::Categorized { category, suffix: seq![a@] }),
{
    let suffix: Vec<&'static str> = vec![a];
    assert(strs(suffix@) =~= seq![a@]);
    StoreAnchor::Categorized { category, suffix }
}

fn categorized_2(category: StorageCategory, a: &'static str, b: &'static str) -> (r: StoreAnchor)
    ensures
        r@ == (AnchorModel::Categorized { category, suffix: seq![a@, b@] }),
{
    let suffix: Vec<&'static str> = vec![a, b];
    assert(strs(suffix@) =~= seq![a@, b@]);
    StoreAnchor::Categorized { category, suffix }
}

pub open spec fn npm_declared() -> DetectorModel {
    DetectorModel::of("npm"@, "npm"@)
        .store(BuildStoreKind::NpmCache, AnchorModel::Categorized { category: StorageCategory::Cache, suffix: Seq::empty() })
        .convention(Some("npm"@), RoleModel::DependencyStore { anchor: AnchorModel::Categorized { category: StorageCategory::Cache, suffix: Seq::empty() }, lookup: LookupModel::ContentAddressed { basis: "npm cacache layout"@, reason: "the npm cache is content-addressed: a package name and version cannot be mapped to an entry"@ } })
}

fn npm() -> (r: Detector)
    ensures
        r@ == npm_declared(),
{
    Detector::of("npm", "npm")
        .store(BuildStoreKind::NpmCache, categorized_0(StorageCategory::Cache))
        .convention(Some("npm"), ConventionRole::DependencyStore { anchor: categorized_0(StorageCategory::Cache), lookup: StoreEntryLookup::ContentAddressed { basis: "npm cacache layout", reason: "the npm cache is content-addressed: a package name and version cannot be mapped to an entry" } })
}

pub open spec fn pnpm_declared() -> DetectorModel {
    DetectorModel::of("pnpm"@, "pnpm"@)
        .store(BuildStoreKind::PnpmStore, AnchorModel::SoleLocation)
        .convention(Some("pnpm"@), RoleModel::DependencyStore { anchor: AnchorModel::SoleLocation, lookup: LookupModel::WholeStore })
}

fn pnpm() -> (r: Detector)
    ensures
        r@ == pnpm_declared(),
{
    Detector::of("pnpm", "pnpm")
        .store(BuildStoreKind::PnpmStore, StoreAnchor::SoleLocation)
        .convention(Some("pnpm"), ConventionRole::DependencyStore { anchor: StoreAnchor::SoleLocation, lookup: StoreEntryLookup::WholeStore })
}

pub open spec fn gradle_declared() -> DetectorModel {
    DetectorModel::of("gradle"@, "Gradle"@)
        .store(BuildStoreKind::GradleCaches, AnchorModel::Categorized { category: StorageCategory::Cache, suffix: seq!["caches"@] })
        .store(BuildStoreKind::GradleWrapperDists, AnchorModel::Categorized { category: StorageCategory::Downloads, suffix: seq!["wrapper"@, "dists"@] })
        .store(BuildStoreKind::GradleDaemon, AnchorModel::Categorized { category: StorageCategory::LocalState, suffix: seq!["daemon"@] })
        .store(BuildStoreKind::GradleNative, AnchorModel::Categorized { category: StorageCategory::LocalState, suffix: seq!["native"@] })
        .convention(Some("gradle"@), RoleModel::DependencyStore { anchor: AnchorModel::Categorized { category: StorageCategory::Cache, suffix: seq!["caches"@] }, lookup: LookupModel::GradleModules })
}

fn gradle() -> (r: Detector)
    ensures
        r@ == gradle_declared(),
{
    Detector::of("gradle", "Gradle")
        .store(BuildStoreKind::GradleCaches, categorized_1(StorageCategory::Cache, "caches"))
        .store(BuildStoreKind::GradleWrapperDists, categorized_2(StorageCategory::Downloads, "wrapper", "dists"))
        .store(BuildStoreKind::GradleDaemon, categorized_1(StorageCategory::LocalState, "daemon"))
        .store(BuildStoreKind::GradleNative, categorized_1(StorageCategory::LocalState, "native"))
        .convention(Some("gradle"), ConventionRole::DependencyStore { anchor: categorized_1(StorageCategory::Cache, "caches"), lookup: StoreEntryLookup::GradleModules })
}

pub open spec fn maven_declared() -> DetectorModel {
    DetectorModel::of("maven"@, "Maven"@)
        .store(BuildStoreKind::MavenRepository, AnchorModel::SoleLocation)
        .convention(Some("maven"@), RoleModel::DependencyStore { anchor: AnchorModel::SoleLocation, lookup: LookupModel::MavenLayout })
}

fn maven() -> (r: Detector)
    ensures
        r@ == maven_declared(),
{
    Detector::of("maven", "Maven")
        .store(BuildStoreKind::MavenRepository, StoreAnchor::SoleLocation)
        .convention(Some("maven"), ConventionRole::DependencyStore { anchor: StoreAnchor::SoleLocation, lookup: StoreEntryLookup::MavenLayout })
}

pub open spec fn android_sdk_declared() -> DetectorModel {
    DetectorModel::of("android-sdk"@, "Android SDK"@)
        .store(BuildStoreKind::AndroidSdkPackages, AnchorModel::Categorized { category: StorageCategory::Installation, suffix: Seq::empty() })
        .store(BuildStoreKind::AndroidVirtualDevices, AnchorModel::Categorized { category: StorageCategory::LocalState, suffix: seq!["avd"@] })
}

fn android_sdk() -> (r: Detector)
    ensures
        r@ == android_sdk_declared(),
{
    Detector::of("android-sdk", "Android SDK")
        .store(BuildStoreKind::AndroidSdkPackages, categorized_0(StorageCategory::Installation))
        .store(BuildStoreKind::AndroidVirtualDevices, categorized_1(StorageCategory::LocalState, "avd"))
}

pub open spec fn pip_declared() -> DetectorModel {
    DetectorModel::of("pip"@, "pip"@)
        .store(BuildStoreKind::PipCache, AnchorModel::SoleLocation)
}

fn pip() -> (r: Detector)
    ensures
        r@ == pip_declared(),
{
    Detector::of("pip", "pip")
        .store(BuildStoreKind::PipCache, StoreAnchor::SoleLocation)
}

pub open spec fn uv_declared() -> DetectorModel {
    DetectorModel::of("uv"@, "uv"@)
        .store(BuildStoreKind::UvCache, AnchorModel::Categorized { category: StorageCategory::Cache, suffix: Seq::empty() })
        .store(BuildStoreKind::UvPythonInstallations, AnchorModel::Categorized { category: StorageCategory::Installation, suffix: seq!["python"@] })
        .store(BuildStoreKind::UvToolEnvironments, AnchorModel::Categorized { category: StorageCategory::Environments, suffix: seq!["tools"@] })
}

fn uv() -> (r: Detector)
    ensures
        r@ == uv_declared(),
{
    Detector::of("uv", "uv")
        .store(BuildStoreKind::UvCache, categorized_0(StorageCategory::Cache))
        .store(BuildStoreKind::UvPythonInstallations, categorized_1(StorageCategory::Installation, "python"))
        .store(BuildStoreKind::UvToolEnvironments, categorized_1(StorageCategory::Environments, "tools"))
}

pub open spec fn go_declared() -> DetectorModel {
    DetectorModel::of("go"@, "Go"@)
        .store(BuildStoreKind::GoModuleCache, AnchorModel::Categorized { category: StorageCategory::Downloads, suffix: seq!["pkg"@, "mod"@] })
        .store(BuildStoreKind::GoModuleDownloads, AnchorModel::Categorized { category: StorageCategory::Downloads, suffix: seq!["cache"@, "download"@] })
        .store(BuildStoreKind::GoBuildCache, AnchorModel::Categorized { category: StorageCategory::Cache, suffix: seq!["go-build"@] })
        .convention(Some("go"@), RoleModel::DependencyStore { anchor: AnchorModel::Categorized { category: StorageCategory::Downloads, suffix: seq!["pkg"@, "mod"@] }, lookup: LookupModel::GoModulePath })
}

fn go() -> (r: Detector)
    ensures
        r@ == go_declared(),
{
    Detector::of("go", "Go")
        .store(BuildStoreKind::GoModuleCache, categorized_2(StorageCategory::Downloads, "pkg", "mod"))
        .store(BuildStoreKind::GoModuleDownloads, categorized_2(StorageCategory::Downloads, "cache", "download"))
        .store(BuildStoreKind::GoBuildCache, categorized_1(StorageCategory::Cache, "go-build"))
        .convention(Some("go"), ConventionRole::DependencyStore { anchor: categorized_2(StorageCategory::Downloads, "pkg", "mod"), lookup: StoreEntryLookup::GoModulePath })
}

pub open spec fn xcode_declared() -> DetectorModel {
    DetectorModel::of("xcode"@, "Xcode"@)
        .store(BuildStoreKind::XcodeDerivedData, AnchorModel::Categorized { category: StorageCategory::BuildOutput, suffix: seq!["DerivedData"@] })
        .store(BuildStoreKind::XcodeArchives, AnchorModel::Categorized { category: StorageCategory::BuildOutput, suffix: seq!["Archives"@] })
        .store(BuildStoreKind::XcodeDeviceSupport, AnchorModel::Categorized { category: StorageCategory::Installation, suffix: seq!["iOS DeviceSupport"@] })
        .store(BuildStoreKind::SimulatorDevices, AnchorModel::Categorized { category: StorageCategory::LocalState, suffix: seq!["CoreSimulator"@, "Devices"@] })
        .store(BuildStoreKind::SimulatorRuntimes, AnchorModel::Categorized { category: StorageCategory::Installation, suffix: seq!["CoreSimulator"@, "Volumes"@] })
        .store(BuildStoreKind::SimulatorCaches, AnchorModel::Categorized { category: StorageCategory::Cache, suffix: seq!["CoreSimulator"@, "Caches"@] })
        .convention(None, RoleModel::BuildOutputWorkspaceIndex { anchor: AnchorModel::Categorized { category: StorageCategory::BuildOutput, suffix: seq!["DerivedData"@] } })
}

fn xcode() -> (r: Detector)
    ensures
        r@ == xcode_declared(),
{
    Detector::of("xcode", "Xcode")
        .store(BuildStoreKind::XcodeDerivedData, categorized_1(StorageCategory::BuildOutput, "DerivedData"))
        .store(BuildStoreKind::XcodeArchives, categorized_1(StorageCategory::BuildOutput, "Archives"))
        .store(BuildStoreKind::XcodeDeviceSupport, categorized_1(StorageCategory::Installation, "iOS DeviceSupport"))
        .store(BuildStoreKind::SimulatorDevices, categorized_2(StorageCategory::LocalState, "CoreSimulator", "Devices"))
        .store(BuildStoreKind::SimulatorRuntimes, categorized_2(StorageCategory::Installation, "CoreSimulator", "Volumes"))
        .store(BuildStoreKind::SimulatorCaches, categorized_2(StorageCategory::Cache, "CoreSimulator", "Caches"))
        .convention(None, ConventionRole::BuildOutputWorkspaceIndex { anchor: categorized_1(StorageCategory::BuildOutput, "DerivedData") })
}

pub open spec fn docker_declared() -> DetectorModel {
    DetectorModel::of("docker"@, "Docker"@)
        .store(BuildStoreKind::BuildKitCache, AnchorModel::SoleLocation)
}

fn docker() -> (r: Detector)
    ensures
        r@ == docker_declared(),
{
    Detector::of("docker", "Docker")
        .store(BuildStoreKind::BuildKitCache, StoreAnchor::SoleLocation)
}

pub open spec fn cargo_home_declared() -> DetectorModel {
    DetectorModel::of("cargo-home"@, "Cargo home"@)
        .convention(Some("cargo"@), RoleModel::DependencyStore { anchor: AnchorModel::Categorized { category: StorageCategory::Cache, suffix: seq!["registry"@, "src"@] }, lookup: LookupModel::RegistrySourceTree })
}

fn cargo_home() -> (r: Detector)
    ensures
        r@ == cargo_home_declared(),
{
    Detector::of("cargo-home", "Cargo home")
        .convention(Some("cargo"), ConventionRole::DependencyStore { anchor: categorized_2(StorageCategory::Cache, "registry", "src"), lookup: StoreEntryLookup::RegistrySourceTree })
}

pub open spec fn rustup_declared() -> DetectorModel {
    DetectorModel::of("rustup"@, "rustup"@)
        .convention(Some("rust"@), RoleModel::DeclaredVersions { declaration_files: seq!["rust-toolchain"@, "rust-toolchain.toml"@], layout: InstalledVersionLayout::VersionPerEntry, naming: InstalledVersionNaming::ChannelWithHostTriple, global_default: Some(("settings.toml"@, "default_toolchain"@)) })
}

fn rustup() -> (r: Detector)
    ensures
        r@ == rustup_declared(),
{
    let files: Vec<&'static str> = vec!["rust-toolchain", "rust-toolchain.toml"];
    assert(strs(files@) =~= seq!["rust-toolchain"@, "rust-toolchain.toml"@]);
    Detector::of("rustup", "rustup")
        .convention(Some("rust"), ConventionRole::DeclaredVersions { declaration_files: files, layout: InstalledVersionLayout::VersionPerEntry, naming: InstalledVersionNaming::ChannelWithHostTriple, global_default: Some(GlobalDefaultFile { file_name: "settings.toml", field: "default_toolchain" }) })
}

/// Every detector, in catalog order.
pub open spec fn builtin_detectors() -> Seq<DetectorModel> {
    seq![
        npm_declared(),
        pnpm_declared(),
        gradle_declared(),
        maven_declared(),
        android_sdk_declared(),
        pip_declared(),
        uv_declared(),
        go_declared(),
        xcode_declared(),
        docker_declared(),
        cargo_home_declared(),
        rustup_declared(),
    ]
}

impl Registry {
    pub fn with_builtins() -> (r: Self)
        ensures
            r@ == builtin_detectors(),
    {
        let list: Vec<Detector> = vec![
            npm(),
            pnpm(),
            gradle(),
            maven(),
            android_sdk(),
            pip(),
            uv(),
            go(),
            xcode(),
            docker(),
            cargo_home(),
            rustup(),
        ];
        assert(detectors_view(list@) =~= builtin_detectors());
        Registry { list }
    }
}

/// Whether a detector declares a kind of store.
pub open spec fn declares(d: DetectorModel, kind: BuildStoreKind) -> bool {
    exists|k: int| 0 <= k < d.build_stores.len() && (#[trigger] d.build_stores[k]).kind == kind
}

/// The detector that declares a kind of store.
pub open spec fn declarer(kind: BuildStoreKind) -> DetectorModel {
    match kind {
        BuildStoreKind::NpmCache => npm_declared(),
        BuildStoreKind::PnpmStore => pnpm_declared(),
        BuildStoreKind::GradleCaches | BuildStoreKind::GradleWrapperDists | BuildStoreKind::GradleDaemon | BuildStoreKind::GradleNative => gradle_declared(),
        BuildStoreKind::MavenRepository => maven_declared(),
        BuildStoreKind::AndroidSdkPackages | BuildStoreKind::AndroidVirtualDevices => android_sdk_declared(),
        BuildStoreKind::PipCache => pip_declared(),
        BuildStoreKind::UvCache | BuildStoreKind::UvPythonInstallations | BuildStoreKind::UvToolEnvironments => uv_declared(),
        BuildStoreKind::GoModuleCache | BuildStoreKind::GoModuleDownloads | BuildStoreKind::GoBuildCache => go_declared(),
        BuildStoreKind::XcodeDerivedData | BuildStoreKind::XcodeArchives | BuildStoreKind::XcodeDeviceSupport | BuildStoreKind::SimulatorDevices | BuildStoreKind::SimulatorRuntimes | BuildStoreKind::SimulatorCaches => xcode_declared(),
        BuildStoreKind::BuildKitCache => docker_declared(),
    }
}

spec fn declarer_place(kind: BuildStoreKind) -> int {
    match kind {
        BuildStoreKind::NpmCache => 0,
        BuildStoreKind::PnpmStore => 1,
        BuildStoreKind::GradleCaches | BuildStoreKind::GradleWrapperDists | BuildStoreKind::GradleDaemon | BuildStoreKind::GradleNative => 2,
        BuildStoreKind::MavenRepository => 3,
        BuildStoreKind::AndroidSdkPackages | BuildStoreKind::AndroidVirtualDevices => 4,
        BuildStoreKind::PipCache => 5,
        BuildStoreKind::UvCache | BuildStoreKind::UvPythonInstallations | BuildStoreKind::UvToolEnvironments => 6,
        BuildStoreKind::GoModuleCache | BuildStoreKind::GoModuleDownloads | BuildStoreKind::GoBuildCache => 7,
        BuildStoreKind::XcodeDerivedData | BuildStoreKind::XcodeArchives | BuildStoreKind::XcodeDeviceSupport | BuildStoreKind::SimulatorDevices | BuildStoreKind::SimulatorRuntimes | BuildStoreKind::SimulatorCaches => 8,
        BuildStoreKind::BuildKitCache => 9,
    }
}

spec fn declared_place(kind: BuildStoreKind) -> int {
    match kind {
        BuildStoreKind::NpmCache => 0,
        BuildStoreKind::PnpmStore => 0,
        BuildStoreKind::GradleCaches => 0,
        BuildStoreKind::GradleWrapperDists => 1,
        BuildStoreKind::GradleDaemon => 2,
        BuildStoreKind::GradleNative => 3,
        BuildStoreKind::MavenRepository => 0,
        BuildStoreKind::AndroidSdkPackages => 0,
        BuildStoreKind::AndroidVirtualDevices => 1,
        BuildStoreKind::PipCache => 0,
        BuildStoreKind::UvCache => 0,
        BuildStoreKind::UvPythonInstallations => 1,
        BuildStoreKind::UvToolEnvironments => 2,
        BuildStoreKind::GoModuleCache => 0,
        BuildStoreKind::GoModuleDownloads => 1,
        BuildStoreKind::GoBuildCache => 2,
        BuildStoreKind::XcodeDerivedData => 0,
        BuildStoreKind::XcodeArchives => 1,
        BuildStoreKind::XcodeDeviceSupport => 2,
        BuildStoreKind::SimulatorDevices => 3,
        BuildStoreKind::SimulatorRuntimes => 4,
        BuildStoreKind::SimulatorCaches => 5,
        BuildStoreKind::BuildKitCache => 0,
    }
}

/// No kind of store is dead vocabulary: some detector of the catalog declares
/// it.
pub proof fn law_every_store_kind_is_declared(kind: BuildStoreKind)
    ensures
        builtin_detectors().contains(declarer(kind)),
        declares(declarer(kind), kind),
{
    assert(builtin_detectors()[declarer_place(kind)] == declarer(kind));
    assert(declarer(kind).build_stores[declared_place(kind)].kind == kind);
}

} // verus!
