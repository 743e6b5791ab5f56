//! Machine-wide storage: its kinds, its categories, and what the detectors of
//! it declare.

pub use crate::detectors::{
    BuildStoreDecl, ConventionRole, Detector, ManagerConvention, Registry, StoreAnchor, StoreEntryLookup,
};
use vstd::prelude::*;

verus! {

/// The kinds of machine-wide build store.
#[derive(Debug, Clone, Copy, PartialEq, Eq, PartialOrd, Ord, Structural)]
pub enum BuildStoreKind {
    NpmCache,
    PnpmStore,
    GradleCaches,
    GradleWrapperDists,
    GradleDaemon,
    GradleNative,
    MavenRepository,
    AndroidSdkPackages,
    AndroidVirtualDevices,
    PipCache,
    UvCache,
    UvPythonInstallations,
    UvToolEnvironments,
    GoModuleCache,
    GoModuleDownloads,
    GoBuildCache,
    XcodeDerivedData,
    XcodeArchives,
    XcodeDeviceSupport,
    SimulatorDevices,
    SimulatorRuntimes,
    SimulatorCaches,
    BuildKitCache,
}

/// Every kind of store.
pub open spec fn all_store_kinds() -> Seq<BuildStoreKind> {
    seq![
        BuildStoreKind::NpmCache,
        BuildStoreKind::PnpmStore,
        BuildStoreKind::GradleCaches,
        BuildStoreKind::GradleWrapperDists,
        BuildStoreKind::GradleDaemon,
        BuildStoreKind::GradleNative,
        BuildStoreKind::MavenRepository,
        BuildStoreKind::AndroidSdkPackages,
        BuildStoreKind::AndroidVirtualDevices,
        BuildStoreKind::PipCache,
        BuildStoreKind::UvCache,
        BuildStoreKind::UvPythonInstallations,
        BuildStoreKind::UvToolEnvironments,
        BuildStoreKind::GoModuleCache,
        BuildStoreKind::GoModuleDownloads,
        BuildStoreKind::GoBuildCache,
        BuildStoreKind::XcodeDerivedData,
        BuildStoreKind::XcodeArchives,
        BuildStoreKind::XcodeDeviceSupport,
        BuildStoreKind::SimulatorDevices,
        BuildStoreKind::SimulatorRuntimes,
        BuildStoreKind::SimulatorCaches,
        BuildStoreKind::BuildKitCache,
    ]
}

impl BuildStoreKind {
    /// Every kind of store.
    pub fn all() -> (r: Vec<BuildStoreKind>)
        ensures
            r@ == all_store_kinds(),
    {
        let r: Vec<BuildStoreKind> = vec![
            BuildStoreKind::NpmCache,
            BuildStoreKind::PnpmStore,
            BuildStoreKind::GradleCaches,
            BuildStoreKind::GradleWrapperDists,
            BuildStoreKind::GradleDaemon,
            BuildStoreKind::GradleNative,
            BuildStoreKind::MavenRepository,
            BuildStoreKind::AndroidSdkPackages,
            BuildStoreKind::AndroidVirtualDevices,
            BuildStoreKind::PipCache,
            BuildStoreKind::UvCache,
            BuildStoreKind::UvPythonInstallations,
            BuildStoreKind::UvToolEnvironments,
            BuildStoreKind::GoModuleCache,
            BuildStoreKind::GoModuleDownloads,
            BuildStoreKind::GoBuildCache,
            BuildStoreKind::XcodeDerivedData,
            BuildStoreKind::XcodeArchives,
            BuildStoreKind::XcodeDeviceSupport,
            BuildStoreKind::SimulatorDevices,
            BuildStoreKind::SimulatorRuntimes,
            BuildStoreKind::SimulatorCaches,
            BuildStoreKind::BuildKitCache,
        ];
        assert(r@ =~= all_store_kinds());
        r
    }

    /// Whether a daemon answers for this kind, rather than a directory.
    pub open spec fn daemon_answered(self) -> bool {
        self == BuildStoreKind::BuildKitCache
    }

    pub fn answered_by_daemon(&self) -> (r: bool)
        ensures
            r == self.daemon_answered(),
    {
        matches!(self, BuildStoreKind::BuildKitCache)
    }
}

/// What a detector says the storage at a location is.
#[derive(Debug, Clone, Copy, PartialEq, Eq, Structural)]
pub enum StorageCategory {
    Installation,
    Downloads,
    Cache,
    LocalState,
    Environments,
    BuildOutput,
    Models,
    Unclassified,
}

} // verus!
