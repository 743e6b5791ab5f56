//! Which adapters there are, and in which order they claim.

use super::{android, cargo, docker_buildkit, go, gradle, maven, node, python, xcode_swift};
use super::adapter::{BuildAdapter, BuildCapabilities};
use super::container::{BuildContainer, ContainerModel};
use super::context::{BuildCtx, CtxModel};
use crate::artifact::{ArtifactRole, NestedArtifact, UnitModel};
use crate::facts::{FactModel, FileFacts};
use crate::locations::BuildStoreKind;
use crate::path::{FsPath, PathModel};
use crate::text::same;
use vstd::prelude::*;

verus! {

/// An adapter of this library.
#[derive(Debug, Clone, Copy, PartialEq, Eq, Structural)]
pub enum Builtin {
    Cargo,
    Node,
    Android,
    Gradle,
    Maven,
    Python,
    Go,
    XcodeSwift,
    DockerBuildkit,
}

impl BuildAdapter for Builtin {
    open spec fn trash_roles_spec(&self) -> Seq<ArtifactRole> {
        match self {
            Builtin::Cargo => cargo::Adapter.trash_roles_spec(),
            Builtin::Node => node::Adapter.trash_roles_spec(),
            Builtin::Android => android::Adapter.trash_roles_spec(),
            Builtin::Gradle => gradle::Adapter.trash_roles_spec(),
            Builtin::Maven => maven::Adapter.trash_roles_spec(),
            Builtin::Python => python::Adapter.trash_roles_spec(),
            Builtin::Go => go::Adapter.trash_roles_spec(),
            Builtin::XcodeSwift => xcode_swift::Adapter.trash_roles_spec(),
            Builtin::DockerBuildkit => docker_buildkit::Adapter.trash_roles_spec(),
        }
    }

    open spec fn id_spec(&self) -> Seq<char> {
        match self {
            Builtin::Cargo => cargo::Adapter.id_spec(),
            Builtin::Node => node::Adapter.id_spec(),
            Builtin::Android => android::Adapter.id_spec(),
            Builtin::Gradle => gradle::Adapter.id_spec(),
            Builtin::Maven => maven::Adapter.id_spec(),
            Builtin::Python => python::Adapter.id_spec(),
            Builtin::Go => go::Adapter.id_spec(),
            Builtin::XcodeSwift => xcode_swift::Adapter.id_spec(),
            Builtin::DockerBuildkit => docker_buildkit::Adapter.id_spec(),
        }
    }

    open spec fn name_spec(&self) -> Seq<char> {
        match self {
            Builtin::Cargo => cargo::Adapter.name_spec(),
            Builtin::Node => node::Adapter.name_spec(),
            Builtin::Android => android::Adapter.name_spec(),
            Builtin::Gradle => gradle::Adapter.name_spec(),
            Builtin::Maven => maven::Adapter.name_spec(),
            Builtin::Python => python::Adapter.name_spec(),
            Builtin::Go => go::Adapter.name_spec(),
            Builtin::XcodeSwift => xcode_swift::Adapter.name_spec(),
            Builtin::DockerBuildkit => docker_buildkit::Adapter.name_spec(),
        }
    }

    open spec fn capabilities_spec(&self) -> BuildCapabilities {
        match self {
            Builtin::Cargo => cargo::Adapter.capabilities_spec(),
            Builtin::Node => node::Adapter.capabilities_spec(),
            Builtin::Android => android::Adapter.capabilities_spec(),
            Builtin::Gradle => gradle::Adapter.capabilities_spec(),
            Builtin::Maven => maven::Adapter.capabilities_spec(),
            Builtin::Python => python::Adapter.capabilities_spec(),
            Builtin::Go => go::Adapter.capabilities_spec(),
            Builtin::XcodeSwift => xcode_swift::Adapter.capabilities_spec(),
            Builtin::DockerBuildkit => docker_buildkit::Adapter.capabilities_spec(),
        }
    }

    open spec fn store_kinds_spec(&self) -> Seq<BuildStoreKind> {
        match self {
            Builtin::Cargo => cargo::Adapter.store_kinds_spec(),
            Builtin::Node => node::Adapter.store_kinds_spec(),
            Builtin::Android => android::Adapter.store_kinds_spec(),
            Builtin::Gradle => gradle::Adapter.store_kinds_spec(),
            Builtin::Maven => maven::Adapter.store_kinds_spec(),
            Builtin::Python => python::Adapter.store_kinds_spec(),
            Builtin::Go => go::Adapter.store_kinds_spec(),
            Builtin::XcodeSwift => xcode_swift::Adapter.store_kinds_spec(),
            Builtin::DockerBuildkit => docker_buildkit::Adapter.store_kinds_spec(),
        }
    }

    open spec fn containers_spec(&self, root: PathModel, candidates: Seq<PathModel>, facts: Seq<FactModel>) -> Seq<
        ContainerModel,
    > {
        match self {
            Builtin::Cargo => cargo::Adapter.containers_spec(root, candidates, facts),
            Builtin::Node => node::Adapter.containers_spec(root, candidates, facts),
            Builtin::Android => android::Adapter.containers_spec(root, candidates, facts),
            Builtin::Gradle => gradle::Adapter.containers_spec(root, candidates, facts),
            Builtin::Maven => maven::Adapter.containers_spec(root, candidates, facts),
            Builtin::Python => python::Adapter.containers_spec(root, candidates, facts),
            Builtin::Go => go::Adapter.containers_spec(root, candidates, facts),
            Builtin::XcodeSwift => xcode_swift::Adapter.containers_spec(root, candidates, facts),
            Builtin::DockerBuildkit => docker_buildkit::Adapter.containers_spec(root, candidates, facts),
        }
    }

    open spec fn identify_spec(&self, c: ContainerModel, ctx: CtxModel) -> Seq<UnitModel> {
        match self {
            Builtin::Cargo => cargo::Adapter.identify_spec(c, ctx),
            Builtin::Node => node::Adapter.identify_spec(c, ctx),
            Builtin::Android => android::Adapter.identify_spec(c, ctx),
            Builtin::Gradle => gradle::Adapter.identify_spec(c, ctx),
            Builtin::Maven => maven::Adapter.identify_spec(c, ctx),
            Builtin::Python => python::Adapter.identify_spec(c, ctx),
            Builtin::Go => go::Adapter.identify_spec(c, ctx),
            Builtin::XcodeSwift => xcode_swift::Adapter.identify_spec(c, ctx),
            Builtin::DockerBuildkit => docker_buildkit::Adapter.identify_spec(c, ctx),
        }
    }

    fn trash_roles(&self) -> (r: Vec<ArtifactRole>) {
        match self {
            Builtin::Cargo => cargo::Adapter.trash_roles(),
            Builtin::Node => node::Adapter.trash_roles(),
            Builtin::Android => android::Adapter.trash_roles(),
            Builtin::Gradle => gradle::Adapter.trash_roles(),
            Builtin::Maven => maven::Adapter.trash_roles(),
            Builtin::Python => python::Adapter.trash_roles(),
            Builtin::Go => go::Adapter.trash_roles(),
            Builtin::XcodeSwift => xcode_swift::Adapter.trash_roles(),
            Builtin::DockerBuildkit => docker_buildkit::Adapter.trash_roles(),
        }
    }

    fn id(&self) -> (r: &'static str) {
        match self {
            Builtin::Cargo => cargo::Adapter.id(),
            Builtin::Node => node::Adapter.id(),
            Builtin::Android => android::Adapter.id(),
            Builtin::Gradle => gradle::Adapter.id(),
            Builtin::Maven => maven::Adapter.id(),
            Builtin::Python => python::Adapter.id(),
            Builtin::Go => go::Adapter.id(),
            Builtin::XcodeSwift => xcode_swift::Adapter.id(),
            Builtin::DockerBuildkit => docker_buildkit::Adapter.id(),
        }
    }

    fn name(&self) -> (r: &'static str) {
        match self {
            Builtin::Cargo => cargo::Adapter.name(),
            Builtin::Node => node::Adapter.name(),
            Builtin::Android => android::Adapter.name(),
            Builtin::Gradle => gradle::Adapter.name(),
            Builtin::Maven => maven::Adapter.name(),
            Builtin::Python => python::Adapter.name(),
            Builtin::Go => go::Adapter.name(),
            Builtin::XcodeSwift => xcode_swift::Adapter.name(),
            Builtin::DockerBuildkit => docker_buildkit::Adapter.name(),
        }
    }

    fn capabilities(&self) -> (r: BuildCapabilities) {
        match self {
            Builtin::Cargo => cargo::Adapter.capabilities(),
            Builtin::Node => node::Adapter.capabilities(),
            Builtin::Android => android::Adapter.capabilities(),
            Builtin::Gradle => gradle::Adapter.capabilities(),
            Builtin::Maven => maven::Adapter.capabilities(),
            Builtin::Python => python::Adapter.capabilities(),
            Builtin::Go => go::Adapter.capabilities(),
            Builtin::XcodeSwift => xcode_swift::Adapter.capabilities(),
            Builtin::DockerBuildkit => docker_buildkit::Adapter.capabilities(),
        }
    }

    fn store_kinds(&self) -> (r: Vec<BuildStoreKind>) {
        match self {
            Builtin::Cargo => cargo::Adapter.store_kinds(),
            Builtin::Node => node::Adapter.store_kinds(),
            Builtin::Android => android::Adapter.store_kinds(),
            Builtin::Gradle => gradle::Adapter.store_kinds(),
            Builtin::Maven => maven::Adapter.store_kinds(),
            Builtin::Python => python::Adapter.store_kinds(),
            Builtin::Go => go::Adapter.store_kinds(),
            Builtin::XcodeSwift => xcode_swift::Adapter.store_kinds(),
            Builtin::DockerBuildkit => docker_buildkit::Adapter.store_kinds(),
        }
    }

    fn containers(&self, project_root: &FsPath, candidates: &Vec<FsPath>, facts: &FileFacts) -> (r: Vec<
        BuildContainer,
    >) {
        match self {
            Builtin::Cargo => cargo::Adapter.containers(project_root, candidates, facts),
            Builtin::Node => node::Adapter.containers(project_root, candidates, facts),
            Builtin::Android => android::Adapter.containers(project_root, candidates, facts),
            Builtin::Gradle => gradle::Adapter.containers(project_root, candidates, facts),
            Builtin::Maven => maven::Adapter.containers(project_root, candidates, facts),
            Builtin::Python => python::Adapter.containers(project_root, candidates, facts),
            Builtin::Go => go::Adapter.containers(project_root, candidates, facts),
            Builtin::XcodeSwift => xcode_swift::Adapter.containers(project_root, candidates, facts),
            Builtin::DockerBuildkit => docker_buildkit::Adapter.containers(project_root, candidates, facts),
        }
    }

    fn identify(&self, container: &BuildContainer, ctx: &BuildCtx) -> (r: Vec<NestedArtifact>) {
        match self {
            Builtin::Cargo => cargo::Adapter.identify(container, ctx),
            Builtin::Node => node::Adapter.identify(container, ctx),
            Builtin::Android => android::Adapter.identify(container, ctx),
            Builtin::Gradle => gradle::Adapter.identify(container, ctx),
            Builtin::Maven => maven::Adapter.identify(container, ctx),
            Builtin::Python => python::Adapter.identify(container, ctx),
            Builtin::Go => go::Adapter.identify(container, ctx),
            Builtin::XcodeSwift => xcode_swift::Adapter.identify(container, ctx),
            Builtin::DockerBuildkit => docker_buildkit::Adapter.identify(container, ctx),
        }
    }
}

/// Every adapter, in the order in which they claim: an Android module's build
/// directory is a Gradle build directory too, so Android comes before Gradle.
pub open spec fn builtins() -> Seq<Builtin> {
    seq![
        Builtin::Cargo,
        Builtin::Node,
        Builtin::Android,
        Builtin::Gradle,
        Builtin::Maven,
        Builtin::Python,
        Builtin::Go,
        Builtin::XcodeSwift,
        Builtin::DockerBuildkit,
    ]
}

/// The adapters of a pass. When two could both claim a directory the earlier
/// one wins, every pass.
pub struct Registry {
    adapters: Vec<Builtin>,
}

impl View for Registry {
    type V = Seq<Builtin>;

    closed spec fn view(&self) -> Seq<Builtin> {
        self.adapters@
    }
}

/// The ids of adapters, in order.
pub open spec fn ids_of(adapters: Seq<Builtin>) -> Seq<Seq<char>> {
    Seq::new(adapters.len(), |i: int| adapters[i].id_spec())
}

pub open spec fn strs(s: Seq<&'static str>) -> Seq<Seq<char>> {
    Seq::new(s.len(), |i: int| s[i]@)
}

/// The first adapter with an id, from place `i` on.
pub open spec fn adapter_from(adapters: Seq<Builtin>, id: Seq<char>, i: int) -> Option<Builtin>
    decreases adapters.len() - i,
{
    if i < 0 || i >= adapters.len() {
        None
    } else if adapters[i].id_spec() == id {
        Some(adapters[i])
    } else {
        adapter_from(adapters, id, i + 1)
    }
}

impl Registry {
    pub fn with_builtins() -> (r: Self)
        ensures
            r@ == builtins(),
    {
        let adapters: Vec<Builtin> = vec![
            Builtin::Cargo,
            Builtin::Node,
            Builtin::Android,
            Builtin::Gradle,
            Builtin::Maven,
            Builtin::Python,
            Builtin::Go,
            Builtin::XcodeSwift,
            Builtin::DockerBuildkit,
        ];
        assert(adapters@ =~= builtins());
        Registry { adapters }
    }

    pub fn adapters(&self) -> (r: &Vec<Builtin>)
        ensures
            r@ == self@,
    {
        &self.adapters
    }

    pub fn get(&self, id: &str) -> (r: Option<Builtin>)
        ensures
            r == adapter_from(self@, id@, 0),
    {
        let mut i: usize = 0;
        while i < self.adapters.len()
            invariant
                i <= self.adapters@.len(),
                self@ == self.adapters@,
                adapter_from(self@, id@, 0) == adapter_from(self@, id@, i as int),
            decreases self.adapters@.len() - i,
        {
            let a = self.adapters[i];
            if same(a.id(), id) {
                return Some(a);
            }
            i += 1;
        }
        None
    }

    pub fn ids(&self) -> (r: Vec<&'static str>)
        ensures
            strs(r@) == ids_of(self@),
    {
        let mut out: Vec<&'static str> = Vec::new();
        let mut i: usize = 0;
        assert(strs(out@) =~= ids_of(self@).take(0));
        while i < self.adapters.len()
            invariant
                i <= self.adapters@.len(),
                self@ == self.adapters@,
                strs(out@) == ids_of(self@).take(i as int),
            decreases self.adapters@.len() - i,
        {
            let id = self.adapters[i].id();
            let ghost prior = out@;
            out.push(id);
            i += 1;
            assert(strs(out@) =~= strs(prior).push(id@));
            assert(strs(out@) =~= ids_of(self@).take(i as int));
        }
        assert(ids_of(self@).take(i as int) =~= ids_of(self@));
        out
    }
}

impl Default for Registry {
    fn default() -> (r: Self)
        ensures
            r@ == builtins(),
    {
        Self::with_builtins()
    }
}

// ---------------------------------------------------------------------
// Laws
// ---------------------------------------------------------------------

/// Whether two adapters have one id.
proof fn lemma_ids_differ(a: Builtin, b: Builtin)
    requires
        a != b,
    ensures
        a.id_spec() != b.id_spec(),
{
    reveal_strlit("cargo");
    reveal_strlit("node");
    reveal_strlit("android");
    reveal_strlit("gradle");
    reveal_strlit("maven");
    reveal_strlit("python");
    reveal_strlit("go");
    reveal_strlit("xcode-swift");
    reveal_strlit("docker-buildkit");
    assert("cargo"@.len() == 5);
    assert("node"@.len() == 4);
    assert("android"@.len() == 7);
    assert("gradle"@.len() == 6);
    assert("maven"@.len() == 5);
    assert("python"@.len() == 6);
    assert("go"@.len() == 2);
    assert("xcode-swift"@.len() == 11);
    assert("docker-buildkit"@.len() == 15);
    assert("cargo"@[0] != "maven"@[0]);
    assert("gradle"@[0] != "python"@[0]);
}

/// Every adapter is registered once, and each under an id of its own.
pub proof fn law_each_adapter_is_registered_once(i: int, j: int)
    requires
        0 <= i < j < builtins().len(),
    ensures
        builtins()[i] != builtins()[j],
        ids_of(builtins())[i] != ids_of(builtins())[j],
{
    let b = builtins();
    assert forall|k: int| 0 <= k < b.len() implies place_of(#[trigger] b[k]) == k by {}
    assert(place_of(b[i]) == i && place_of(b[j]) == j);
    lemma_ids_differ(b[i], b[j]);
}

spec fn place_of(a: Builtin) -> int {
    match a {
        Builtin::Cargo => 0,
        Builtin::Node => 1,
        Builtin::Android => 2,
        Builtin::Gradle => 3,
        Builtin::Maven => 4,
        Builtin::Python => 5,
        Builtin::Go => 6,
        Builtin::XcodeSwift => 7,
        Builtin::DockerBuildkit => 8,
    }
}

/// An adapter is found again under its own id.
pub proof fn law_adapters_are_found_by_id(a: Builtin)
    ensures
        adapter_from(builtins(), a.id_spec(), 0) == Some(a),
{
    let b = builtins();
    assert(b[place_of(a)] == a);
    lemma_search(a, 0);
}

proof fn lemma_search(a: Builtin, i: int)
    requires
        0 <= i <= place_of(a),
    ensures
        adapter_from(builtins(), a.id_spec(), i) == Some(a),
    decreases place_of(a) - i,
{
    let b = builtins();
    assert(b[place_of(a)] == a);
    if i < place_of(a) {
        assert(place_of(b[i]) == i);
        lemma_ids_differ(b[i], a);
        lemma_search(a, i + 1);
    }
}

/// An adapter says that actions are available exactly where it names the roles
/// it can remove.
pub proof fn law_action_claims_name_their_roles(a: Builtin)
    ensures
        a.capabilities_spec().actions_available <==> a.trash_roles_spec().len() > 0,
{
}

/// Whether an adapter identifies the inside of a kind of store.
pub open spec fn identifies(a: Builtin, kind: BuildStoreKind) -> bool {
    a.store_kinds_spec().contains(kind)
}

/// The adapter that identifies the inside of a kind of store.
pub open spec fn owner_of(kind: BuildStoreKind) -> Builtin {
    match kind {
        BuildStoreKind::NpmCache | BuildStoreKind::PnpmStore => Builtin::Node,
        BuildStoreKind::GradleCaches | BuildStoreKind::GradleWrapperDists | BuildStoreKind::GradleDaemon
        | BuildStoreKind::GradleNative => Builtin::Gradle,
        BuildStoreKind::MavenRepository => Builtin::Maven,
        BuildStoreKind::AndroidSdkPackages | BuildStoreKind::AndroidVirtualDevices => Builtin::Android,
        BuildStoreKind::PipCache | BuildStoreKind::UvCache | BuildStoreKind::UvPythonInstallations
        | BuildStoreKind::UvToolEnvironments => Builtin::Python,
        BuildStoreKind::GoModuleCache | BuildStoreKind::GoModuleDownloads | BuildStoreKind::GoBuildCache => Builtin::Go,
        BuildStoreKind::XcodeDerivedData | BuildStoreKind::XcodeArchives | BuildStoreKind::XcodeDeviceSupport
        | BuildStoreKind::SimulatorDevices | BuildStoreKind::SimulatorRuntimes
        | BuildStoreKind::SimulatorCaches => Builtin::XcodeSwift,
        BuildStoreKind::BuildKitCache => Builtin::DockerBuildkit,
    }
}

/// Every kind of store is identified by exactly one adapter.
pub proof fn law_each_store_kind_has_one_adapter(a: Builtin, kind: BuildStoreKind)
    ensures
        identifies(a, kind) <==> a == owner_of(kind),
{
    let kinds = a.store_kinds_spec();
    if a == owner_of(kind) {
        lemma_owned(kind);
    } else {
        assert forall|i: int| 0 <= i < kinds.len() implies #[trigger] kinds[i] != kind by {
            assert(owner_of(kinds[i]) == a);
        }
    }
}

proof fn lemma_owned(kind: BuildStoreKind)
    ensures
        identifies(owner_of(kind), kind),
{
    let kinds = owner_of(kind).store_kinds_spec();
    assert(kinds[owned_place(kind)] == kind);
}

spec fn owned_place(kind: BuildStoreKind) -> int {
    match kind {
        BuildStoreKind::NpmCache => 0,
        BuildStoreKind::PnpmStore => 1,
        BuildStoreKind::GradleCaches => 0,
        BuildStoreKind::GradleWrapperDists => 1,
        BuildStoreKind::GradleDaemon => 2,
        BuildStoreKind::GradleNative => 3,
        BuildStoreKind::MavenRepository => 0,
        BuildStoreKind::AndroidSdkPackages => 0,
        BuildStoreKind::AndroidVirtualDevices => 1,
        BuildStoreKind::PipCache => 0,
        BuildStoreKind::UvCache => 1,
        BuildStoreKind::UvPythonInstallations => 2,
        BuildStoreKind::UvToolEnvironments => 3,
        BuildStoreKind::GoModuleCache => 0,
        BuildStoreKind::GoModuleDownloads => 1,
        BuildStoreKind::GoBuildCache => 2,
        BuildStoreKind::XcodeDerivedData => 0,
        BuildStoreKind::XcodeArchives => 1,
        BuildStoreKind::XcodeDeviceSupport => 2,
        BuildStoreKind::SimulatorDevices => 3,
        BuildStoreKind::SimulatorRuntimes => 4,
        BuildStoreKind::SimulatorCaches => 5,
        BuildStoreKind::BuildKitCache => 0,
    }
}

} // verus!
