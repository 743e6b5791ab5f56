//! What the adapters say of known layouts.

use std::collections::{BTreeMap, BTreeSet};
use swamp_core::artifact::{
    AccountingBasis, ArtifactRole, Membership, NestedActionCapability, NestedArtifact, RoleFamily, TimeSource,
};
use swamp_core::build_adapters::android;
use swamp_core::build_adapters::go;
use swamp_core::build_adapters::gradle;
use swamp_core::build_adapters::matrix;
use swamp_core::build_adapters::maven;
use swamp_core::build_adapters::node;
use swamp_core::build_adapters::python;
use swamp_core::build_adapters::registry::Registry;
use swamp_core::build_adapters::xcode_swift;
use swamp_core::build_adapters::{
    family_guidance, family_members, identify_all, summarize_container, summarize_families, BuildAdapter,
    BuildContainer, BuildCtx, ContainerCache, FoldedDir, FoldedIndex, NestedUnitBuilder,
};
use swamp_core::build_stores::{decode, encode};
use swamp_core::facts::{
    FileFact, FileFacts, FileKind, FileStat, Manifest, PlistScalar, ShallowEntry, Truncation,
};
use swamp_core::fs_events::EventCoverage;
use swamp_core::locations::BuildStoreKind;
use swamp_core::path::FsPath;

/// How much of a manifest is read.
const MAX_MANIFEST_BYTES: usize = 64 * 1024;

const TMP: &str = "/fixture";

/// A tree of directories and files.
struct Tree {
    dirs: BTreeSet<String>,
    files: BTreeMap<String, String>,
}

fn at(text: &str) -> FsPath {
    FsPath::parse(text)
}

fn tmp() -> FsPath {
    at(TMP)
}

fn ends(path: &FsPath, suffix: &str) -> bool {
    path.text().ends_with(&format!("/{suffix}"))
}

fn owned(s: &str) -> Option<String> {
    Some(s.to_string())
}

/// The text values of a property list, by the keys that lead to them.
fn scalars(text: &str) -> Vec<PlistScalar> {
    let mut out = Vec::new();
    let mut keys: Vec<String> = Vec::new();
    let mut key = String::new();
    let mut rest = text;
    while let Some(open) = rest.find('<') {
        rest = &rest[open + 1..];
        let close = match rest.find('>') {
            Some(i) => i,
            None => return out,
        };
        let tag = &rest[..close];
        rest = &rest[close + 1..];
        let body = &rest[..rest.find('<').unwrap_or(rest.len())];
        if tag == "key" {
            key = body.to_string();
        } else if tag == "dict" {
            keys.push(key.clone());
        } else if tag == "/dict" {
            keys.pop();
        } else if tag == "string" || tag == "integer" {
            let mut path: Vec<String> = keys.iter().skip(1).cloned().collect();
            path.push(key.clone());
            out.push(PlistScalar { keys: path, value: body.to_string() });
        }
    }
    out
}

impl Tree {
    fn new() -> Tree {
        let mut t = Tree { dirs: BTreeSet::new(), files: BTreeMap::new() };
        t.dir(&tmp());
        t
    }

    fn dir(&mut self, p: &FsPath) {
        let mut here = Some(p.copy());
        while let Some(d) = here {
            self.dirs.insert(d.text());
            here = d.parent();
        }
    }

    fn put(&mut self, p: &FsPath, body: &str) {
        self.dir(&p.parent().unwrap());
        self.files.insert(p.text(), body.to_string());
    }

    fn children(&self, p: &str) -> Vec<(String, bool)> {
        let inside = |q: &String| {
            let base = if p == "/" { "/".to_string() } else { format!("{p}/") };
            match q.strip_prefix(&base) {
                Some(rest) if !rest.is_empty() && !rest.contains('/') => Some(rest.to_string()),
                _ => None,
            }
        };
        let mut out: Vec<(String, bool)> = self.dirs.iter().filter_map(|d| inside(d).map(|n| (n, true))).collect();
        out.extend(self.files.keys().filter_map(|f| inside(f).map(|n| (n, false))));
        out.sort();
        out
    }

    fn facts(&self) -> FileFacts {
        let mut facts = Vec::new();
        let mut ino: u64 = 1;
        for d in &self.dirs {
            ino += 1;
            facts.push(FileFact {
                path: at(d),
                stat: Some(FileStat::new(FileKind::Directory, 8, 4096, 5, 1, ino, 2)),
                is_file: false,
                is_dir: true,
                listing: self
                    .children(d)
                    .into_iter()
                    .map(|(name, is_dir)| ShallowEntry { name, is_dir })
                    .collect(),
                listed: Truncation::Complete,
                manifest: None,
            });
        }
        for (f, body) in &self.files {
            ino += 1;
            let truncated = body.len() > MAX_MANIFEST_BYTES;
            let text: String = body.chars().take(MAX_MANIFEST_BYTES).collect();
            facts.push(FileFact {
                path: at(f),
                stat: Some(FileStat::new(
                    FileKind::File,
                    (body.len() as u64 + 511) / 512,
                    body.len() as u64,
                    5,
                    1,
                    ino,
                    1,
                )),
                is_file: true,
                is_dir: false,
                listing: Vec::new(),
                listed: Truncation::Unreadable,
                manifest: Some(Manifest { scalars: scalars(&text), text, truncated }),
            });
        }
        FileFacts { facts }
    }

    fn walk(&self, p: &str, out: &mut Vec<FoldedDir>, mtime: u64) -> u64 {
        let mut total = 4096;
        for (name, is_dir) in self.children(p) {
            let path = format!("{p}/{name}");
            if is_dir {
                total += self.walk(&path, out, mtime);
            } else {
                total += (self.files[&path].len() as u64).max(1);
            }
        }
        out.push(FoldedDir { path: at(p), allocated_total: total, mtime_max: mtime, complete: true });
        total
    }

    /// Every directory under `root`, measured.
    fn index_of(&self, root: &FsPath, mtime: u64) -> FoldedIndex {
        let mut out = Vec::new();
        self.walk(&root.text(), &mut out, mtime);
        FoldedIndex::from_dirs(out)
    }

    fn run<A: BuildAdapter>(&self, adapter: &A, c: &BuildContainer, idx: &FoldedIndex, now: u64) -> Vec<NestedArtifact> {
        let none = EventCoverage::untrusted();
        let cache = ContainerCache::disabled();
        let facts = self.facts();
        let ctx = BuildCtx::new(now, idx, &none, &cache).with_facts(&facts);
        adapter.identify(c, &ctx)
    }
}

fn index(entries: &[(&FsPath, u64, u64)]) -> FoldedIndex {
    FoldedIndex::from_dirs(
        entries
            .iter()
            .map(|(p, b, m)| FoldedDir {
                path: p.copy(),
                allocated_total: *b,
                mtime_max: *m,
                complete: true,
            })
            .collect(),
    )
}

fn find<'a>(units: &'a [NestedArtifact], path: &FsPath) -> &'a NestedArtifact {
    match units.iter().find(|u| u.path == *path) {
        Some(u) => u,
        None => panic!("no unit at {}", path.text()),
    }
}

fn limits_say(u: &NestedArtifact, what: &str) -> bool {
    u.coverage.limits.iter().any(|l| l.contains(what))
}

// ---------------------------------------------------------------------
// Android
// ---------------------------------------------------------------------

/// An Android project with one app module.
fn android_project(t: &mut Tree) -> (FsPath, BuildContainer) {
    let root = tmp().join("App");
    t.put(&root.join("settings.gradle"), "include ':app'\n");
    t.put(&root.join("app/src/main/AndroidManifest.xml"), "<manifest/>");
    let build = root.join("app/build");
    t.dir(&build);
    let c = BuildContainer::project("android", build.copy(), root.copy());
    (build, c)
}

fn run_android(t: &Tree, c: &BuildContainer, idx: &FoldedIndex) -> Vec<NestedArtifact> {
    t.run(&android::Adapter, c, idx, 1_000_000)
}

#[test]
fn android_unknown_layout_is_explicit_not_empty() {
    let mut t = Tree::new();
    let (build, c) = android_project(&mut t);
    t.dir(&build.join("some-plugin-dir"));
    let units = run_android(&t, &c, &t.index_of(&build, 5));
    let odd = find(&units, &build.join("some-plugin-dir"));
    assert!(!odd.coverage.supported);
    assert!(limits_say(odd, "some-plugin-dir"));
}

#[test]
fn android_identification_reads_no_more_than_manifest_cap() {
    let mut t = Tree::new();
    let platforms = tmp().join("sdk/platforms");
    t.put(
        &platforms.join("android-34/source.properties"),
        &format!("Pkg.Revision=3\n{}", "#".repeat(MAX_MANIFEST_BYTES)),
    );
    let c = BuildContainer::shared_store_of("android", platforms.copy(), BuildStoreKind::AndroidSdkPackages);
    let units = run_android(&t, &c, &t.index_of(&platforms, 5));
    let p = find(&units, &platforms.join("android-34"));
    assert_eq!(p.variant.version, None, "a truncated source.properties names no revision");
}

#[test]
fn android_variants_never_collapse_by_basename() {
    let mut t = Tree::new();
    let (build, c) = android_project(&mut t);
    for p in [
        "outputs/apk/free/debug",
        "outputs/apk/paid/debug",
        "outputs/apk/free/release",
        "outputs/bundle/freeRelease",
    ] {
        t.dir(&build.join(p));
    }
    let units = run_android(&t, &c, &t.index_of(&build, 5));
    let apks: Vec<(Option<String>, Option<String>)> = units
        .iter()
        .filter(|u| u.relative_path.contains("outputs/apk/"))
        .map(|u| (u.variant.features.clone(), u.variant.profile.clone()))
        .collect();
    assert_eq!(apks.len(), 3, "{apks:?}");
    assert!(apks.contains(&(owned("free"), owned("debug"))));
    assert!(apks.contains(&(owned("paid"), owned("debug"))));
    assert!(apks.contains(&(owned("free"), owned("release"))));
    let bundle = units.iter().find(|u| u.relative_path.ends_with("bundle/freeRelease")).unwrap();
    assert_eq!(bundle.variant.features.as_deref(), Some("free"));
    assert_eq!(bundle.variant.profile.as_deref(), Some("release"));
}

#[test]
fn android_age_is_not_obsolescence() {
    let mut t = Tree::new();
    let (build, c) = android_project(&mut t);
    t.dir(&build.join("intermediates/dex/debug"));
    let units = run_android(&t, &c, &t.index_of(&build, 1));
    let dex = units.iter().find(|u| u.relative_path.ends_with("intermediates/dex")).unwrap();
    assert_eq!(dex.time_source, TimeSource::FoldedDirectoryModification);
    assert_eq!(dex.action, NestedActionCapability::InspectionOnly);
    assert_eq!(dex.variant.configuration.as_deref(), Some("debug"));
    assert!(dex.consequence.as_deref().unwrap().contains("regenerates"));
}

#[test]
fn gradle_conventions_are_shared_and_android_layout_added() {
    let mut t = Tree::new();
    let (build, c) = android_project(&mut t);
    for p in [
        "tmp/kotlin-classes",
        "generated/source",
        "outputs/mapping/release",
        "test-results/testDebugUnitTest",
    ] {
        t.dir(&build.join(p));
    }
    let units = run_android(&t, &c, &t.index_of(&build, 5));
    let role = |suffix: &str| units.iter().find(|u| u.relative_path.ends_with(suffix)).unwrap().role;
    assert_eq!(role("tmp"), ArtifactRole::Intermediate, "from the shared Gradle table");
    assert_eq!(role("generated"), ArtifactRole::Output, "from the shared Gradle table");
    assert_eq!(role("mapping/release"), ArtifactRole::Metadata);
    let test = units.iter().find(|u| u.relative_path.ends_with("testDebugUnitTest")).unwrap();
    assert_eq!(test.role, ArtifactRole::TestOutput);
    assert_eq!(test.variant.profile.as_deref(), Some("debug"));
}

#[test]
fn a_non_android_gradle_module_is_not_claimed() {
    let mut t = Tree::new();
    let root = tmp().join("Lib");
    t.put(&root.join("settings.gradle"), "");
    t.dir(&root.join("core/build"));
    let claimed = android::Adapter.containers(&root, &vec![root.join("core/build")], &t.facts());
    assert!(
        claimed.is_empty(),
        "no AndroidManifest.xml, so `core/build` stays Gradle's: {claimed:?}"
    );
}

#[test]
fn an_android_module_is_claimed() {
    let mut t = Tree::new();
    let (build, c) = android_project(&mut t);
    let claimed = android::Adapter.containers(&tmp().join("App"), &vec![build.copy()], &t.facts());
    assert_eq!(claimed, vec![c]);
}

#[test]
fn a_directory_of_tests_is_no_variant() {
    let mut t = Tree::new();
    let (build, c) = android_project(&mut t);
    for name in ["tests", "testUnitTest", "testReleaseUnitTest"] {
        t.dir(&build.join("reports").join(name));
    }
    let units = run_android(&t, &c, &t.index_of(&build, 5));
    let tests = find(&units, &build.join("reports/tests"));
    assert_eq!(tests.role, ArtifactRole::TestOutput);
    assert_eq!(tests.variant.target.as_deref(), Some("tests"));
    assert_eq!(tests.variant.configuration, None);
    assert_eq!(tests.variant.profile, None);
    let task = find(&units, &build.join("reports/testReleaseUnitTest"));
    assert_eq!(task.variant.target.as_deref(), Some("unitTest"));
    assert_eq!(task.variant.configuration.as_deref(), Some("ReleaseUnitTest"));
    assert_eq!(task.variant.profile.as_deref(), Some("release"));
}

#[test]
fn a_system_image_has_the_revision_of_its_own_properties() {
    let mut t = Tree::new();
    let images = tmp().join("sdk/system-images");
    let image = images.join("android-34/google_apis/arm64-v8a");
    t.put(&image.join("source.properties"), "Pkg.Revision=12\n");
    let c = BuildContainer::shared_store_of("android", images.copy(), BuildStoreKind::AndroidSdkPackages);
    let units = run_android(&t, &c, &t.index_of(&images, 5));
    let img = find(&units, &image);
    assert_eq!(img.variant.version.as_deref(), Some("12"));
    assert_eq!(img.variant.architecture.as_deref(), Some("arm64-v8a"));
    assert_eq!(img.variant.configuration.as_deref(), Some("google_apis"));
}

#[test]
fn sdk_packages_and_avds_are_installations_and_state_never_output() {
    let mut t = Tree::new();
    let images = tmp().join("sdk/system-images");
    t.put(&images.join("android-34/google_apis/arm64-v8a/source.properties"), "Pkg.Revision=12\n");
    let c = BuildContainer::shared_store_of("android", images.copy(), BuildStoreKind::AndroidSdkPackages);
    let units = run_android(&t, &c, &t.index_of(&images, 5));
    let img = units.iter().find(|u| ends(&u.path, "arm64-v8a")).unwrap();
    assert_eq!(img.role, ArtifactRole::Installation);
    assert_eq!(img.variant.architecture.as_deref(), Some("arm64-v8a"));
    assert_eq!(img.variant.configuration.as_deref(), Some("google_apis"));

    let avd_root = tmp().join("avd");
    let avd = avd_root.join("Pixel_8.avd");
    t.put(
        &avd.join("config.ini"),
        "abi.type=arm64-v8a\nimage.sysdir.1=system-images/android-34/google_apis/arm64-v8a/\n",
    );
    t.put(&avd.join("multiinstance.lock"), "");
    let c = BuildContainer::shared_store_of("android", avd_root.copy(), BuildStoreKind::AndroidVirtualDevices);
    let units = run_android(&t, &c, &t.index_of(&avd_root, 5));
    let a = find(&units, &avd);
    assert_eq!(a.role.family(), RoleFamily::State);
    assert!(a.writer_lock.is_some(), "the emulator's lock is active-writer evidence");
    assert_eq!(a.variant.architecture.as_deref(), Some("arm64-v8a"));
    assert_eq!(
        a.variant.toolchain.as_deref(),
        Some("system-images/android-34/google_apis/arm64-v8a/")
    );
    assert!(units.iter().all(|u| u.role.family() != RoleFamily::Outputs));
}

#[test]
fn variant_names_split_only_on_known_build_types() {
    assert_eq!(android::split_variant("freeDebug"), (owned("free"), owned("debug"), None));
    assert_eq!(
        android::split_variant("debugAndroidTest"),
        (None, owned("debug"), Some("androidTest"))
    );
    assert_eq!(android::split_variant("somethingelse"), (None, None, None));
    assert_eq!(
        android::split_variant("rerelease"),
        (None, None, None),
        "no capital boundary, no split"
    );
}

// ---------------------------------------------------------------------
// Go
// ---------------------------------------------------------------------

fn run_go(t: &Tree, c: &BuildContainer, idx: &FoldedIndex) -> Vec<NestedArtifact> {
    t.run(&go::Adapter, c, idx, 1_000)
}

fn go_store(path: &FsPath, kind: BuildStoreKind) -> BuildContainer {
    BuildContainer::shared_store_of("go", path.copy(), kind)
}

#[test]
fn go_unknown_layout_is_explicit_not_empty() {
    let mut t = Tree::new();
    let gocache = tmp().join("go-build");
    t.dir(&gocache.join("0a"));
    t.dir(&gocache.join("not-a-bucket"));
    let units = run_go(&t, &go_store(&gocache, BuildStoreKind::GoBuildCache), &t.index_of(&gocache, 5));
    let odd = find(&units, &gocache.join("not-a-bucket"));
    assert!(!odd.coverage.supported);
    assert!(limits_say(odd, "not-a-bucket"));
}

#[test]
fn go_identification_reads_no_more_than_manifest_cap() {
    let mut t = Tree::new();
    let root = tmp();
    t.put(&root.join("go.mod"), "module example.com/app\n");
    let vendor = root.join("vendor");
    t.put(
        &vendor.join("modules.txt"),
        &format!("# example.com/dep v1.0.0\n{}", "## explicit\n".repeat(MAX_MANIFEST_BYTES / 4)),
    );
    t.dir(&vendor.join("example.com/dep"));
    let c = BuildContainer::project("go", vendor.copy(), root.copy());
    let units = run_go(&t, &c, &t.index_of(&vendor, 5));
    assert!(
        !units.iter().any(|u| u.variant.package.as_deref() == Some("example.com/dep")),
        "a modules.txt that hit the cap identifies nothing from its prefix"
    );
    assert!(limits_say(&units[0], "manifest cap"));
}

#[test]
fn go_a_vendored_module_is_named_by_modules_txt() {
    let mut t = Tree::new();
    let root = tmp();
    let vendor = root.join("vendor");
    t.put(&vendor.join("modules.txt"), "# example.com/dep v1.0.0\n## explicit\nexample.com/dep\n");
    t.dir(&vendor.join("example.com/dep"));
    let c = BuildContainer::project("go", vendor.copy(), root.copy());
    let units = run_go(&t, &c, &t.index_of(&vendor, 5));
    let dep = find(&units, &vendor.join("example.com/dep"));
    assert_eq!(dep.variant.package.as_deref(), Some("example.com/dep"));
    assert_eq!(dep.variant.version.as_deref(), Some("v1.0.0"));
}

#[test]
fn go_variants_never_collapse_by_basename() {
    // Two versions of one module, and the same version of two modules whose
    // paths differ only by case (Go escapes the upper case as `!x`).
    let mut t = Tree::new();
    let modcache = tmp().join("mod");
    t.dir(&modcache.join("github.com/org/lib@v1.2.0"));
    t.dir(&modcache.join("github.com/org/lib@v1.3.0"));
    t.dir(&modcache.join("github.com/!org/lib@v1.2.0"));
    let units = run_go(&t, &go_store(&modcache, BuildStoreKind::GoModuleCache), &t.index_of(&modcache, 5));
    let mut ids: Vec<(Option<String>, Option<String>)> = units
        .iter()
        .filter(|u| u.variant.package.is_some())
        .map(|u| (u.variant.package.clone(), u.variant.version.clone()))
        .collect();
    ids.sort();
    assert_eq!(
        ids,
        vec![
            (owned("github.com/Org/lib"), owned("v1.2.0")),
            (owned("github.com/org/lib"), owned("v1.2.0")),
            (owned("github.com/org/lib"), owned("v1.3.0")),
        ]
    );
}

#[test]
fn go_age_is_not_obsolescence() {
    let mut t = Tree::new();
    let gocache = tmp().join("go-build");
    t.dir(&gocache.join("ff"));
    t.put(&gocache.join("trim.txt"), "1700000000\n");
    let units = run_go(&t, &go_store(&gocache, BuildStoreKind::GoBuildCache), &t.index_of(&gocache, 1));
    let bucket = find(&units, &gocache.join("ff"));
    assert_eq!(bucket.mtime_max, 1);
    assert!(
        bucket.variant.unknowns.iter().any(|x| x == "target"),
        "an opaque key never names a test binary: {:?}",
        bucket.variant
    );
    assert!(matches!(bucket.action, NestedActionCapability::Unsupported { .. }));
    let root = &units[0];
    assert!(
        root.producer_evidence.iter().any(|e| e.detail.contains("1700000000") && e.detail.contains("trim")),
        "Go's own trim record is carried as a tool fact: {:?}",
        root.producer_evidence
    );
}

#[test]
fn a_download_version_is_sized_from_its_archive_and_a_mod_only_fetch_is_metadata() {
    let mut t = Tree::new();
    let dl = tmp().join("download");
    let at_v = dl.join("golang.org/x/text/@v");
    t.put(&at_v.join("v0.14.0.zip"), &"z".repeat(9000));
    t.put(&at_v.join("v0.14.0.mod"), "module golang.org/x/text\n");
    t.put(&at_v.join("v0.14.0.info"), "{}");
    t.put(&at_v.join("v0.3.0.mod"), "module golang.org/x/text\n");
    t.put(&at_v.join("list"), "v0.3.0\nv0.14.0\n");
    let units = run_go(&t, &go_store(&dl, BuildStoreKind::GoModuleDownloads), &t.index_of(&dl, 5));
    let full = units.iter().find(|u| u.variant.version.as_deref() == Some("v0.14.0")).unwrap();
    assert_eq!(full.role, ArtifactRole::SharedStoreEntry);
    assert!(ends(&full.path, "v0.14.0.zip"));
    assert_eq!(full.bytes, 9216);
    let mod_only = units.iter().find(|u| u.variant.version.as_deref() == Some("v0.3.0")).unwrap();
    assert_eq!(mod_only.role, ArtifactRole::Metadata);
    assert_eq!(mod_only.variant.package.as_deref(), Some("golang.org/x/text"));
}

#[test]
fn a_downloaded_toolchain_is_an_installation_not_a_dependency() {
    let mut t = Tree::new();
    let modcache = tmp().join("mod");
    t.dir(&modcache.join("golang.org/toolchain@v0.0.1-go1.22.1.darwin-arm64"));
    let units = run_go(&t, &go_store(&modcache, BuildStoreKind::GoModuleCache), &t.index_of(&modcache, 5));
    let tc = units.iter().find(|u| u.variant.package.as_deref() == Some("golang.org/toolchain")).unwrap();
    assert_eq!(tc.role, ArtifactRole::Installation);
    assert_eq!(tc.variant.toolchain.as_deref(), Some("go1.22.1"));
    assert_eq!(tc.variant.architecture.as_deref(), Some("darwin-arm64"));
}

#[test]
fn missing_binaries_are_said_and_present_ones_are_named_by_their_files() {
    let mut t = Tree::new();
    let root = tmp();
    t.put(&root.join("go.mod"), "module example.com/app\n");
    t.dir(&root.join("bin"));
    let c = BuildContainer::project("go", root.join("bin"), root.copy());
    let empty = run_go(&t, &c, &t.index_of(&root.join("bin"), 5));
    assert!(limits_say(&empty[0], "no binaries"));
    t.put(&root.join("bin/server"), "\x7fELF");
    t.put(&root.join("bin/cli"), "\x7fELF");
    let units = run_go(&t, &c, &t.index_of(&root.join("bin"), 5));
    let targets: Vec<Option<String>> = units.iter().skip(1).map(|u| u.variant.target.clone()).collect();
    assert_eq!(targets, vec![owned("cli"), owned("server")]);
}

#[test]
fn module_paths_unescape_or_refuse() {
    assert_eq!(
        go::unescape_module_path("github.com/!burnt!sushi/toml").as_deref(),
        Some("github.com/BurntSushi/toml")
    );
    assert_eq!(go::unescape_module_path("bad!"), None);
    assert_eq!(go::unescape_module_path("bad!X"), None);
}

// ---------------------------------------------------------------------
// Gradle
// ---------------------------------------------------------------------

fn run_gradle(t: &Tree, c: &BuildContainer, idx: &FoldedIndex) -> Vec<NestedArtifact> {
    t.run(&gradle::Adapter, c, idx, 1_000)
}

#[test]
fn gradle_unknown_layout_is_explicit_not_empty() {
    let mut t = Tree::new();
    let build = tmp().join("build");
    let plugin = build.join("jacocoHtml");
    t.dir(&plugin);
    let c = BuildContainer::project("gradle", build.copy(), tmp());
    let units = run_gradle(&t, &c, &index(&[(&build, 100, 500), (&plugin, 60, 500)]));
    let u = find(&units, &plugin);
    assert!(!u.coverage.supported);
    assert_eq!(u.role, ArtifactRole::Residual);
    assert!(
        limits_say(u, "never evaluates"),
        "the limit says why swamp cannot know: {:?}",
        u.coverage.limits
    );
}

#[test]
fn gradle_identification_reads_no_more_than_manifest_cap() {
    // Identification is by layout alone: what files hold changes nothing.
    let mut t = Tree::new();
    let build = tmp().join("build");
    t.put(&build.join("libs/app.jar"), &"x".repeat(300_000));
    let c = BuildContainer::project("gradle", build.copy(), tmp());
    let idx = index(&[(&build, 100, 500), (&build.join("libs"), 90, 500)]);
    let units = run_gradle(&t, &c, &idx);
    t.put(&build.join("libs/app.jar"), "y");
    assert_eq!(
        units,
        run_gradle(&t, &c, &idx),
        "Gradle identification is layout-only and reads no file contents"
    );
}

#[test]
fn gradle_variants_never_collapse_by_basename() {
    // Two cache layout generations, and two wrapper distributions. Both differ
    // only in a suffix, and neither may collapse.
    let mut t = Tree::new();
    let home = tmp().join("gradle-home");
    let caches = home.join("caches");
    let m2 = caches.join("modules-2");
    let t3 = caches.join("transforms-3");
    let t4 = caches.join("transforms-4");
    for p in [&m2, &t3, &t4] {
        t.dir(p);
    }
    let c = BuildContainer::shared_store("gradle", home.copy());
    let idx = index(&[
        (&home, 1_000, 500),
        (&caches, 900, 500),
        (&m2, 400, 500),
        (&t3, 250, 500),
        (&t4, 250, 500),
    ]);
    let units = run_gradle(&t, &c, &idx);
    let a = find(&units, &t3);
    let b = find(&units, &t4);
    assert_ne!(a.id, b.id);
    assert_eq!(a.variant.configuration.as_deref(), Some("transforms layout 3"));
    assert_eq!(b.variant.configuration.as_deref(), Some("transforms layout 4"));
}

#[test]
fn gradle_age_is_not_obsolescence() {
    let mut t = Tree::new();
    let home = tmp().join("gradle-home");
    let caches = home.join("caches");
    let m2 = caches.join("modules-2");
    t.dir(&m2);
    let c = BuildContainer::shared_store("gradle", home.copy());
    let units = run_gradle(&t, &c, &index(&[(&home, 1_000, 1), (&caches, 900, 1), (&m2, 400, 1)]));
    let u = find(&units, &m2);
    assert_eq!(u.time_source, TimeSource::FoldedDirectoryModification);
    assert!(
        limits_say(u, "no retention or last-read evidence"),
        "a very old cache entry says what its timestamp does *not* establish: {:?}",
        u.coverage.limits
    );
}

#[test]
fn a_missing_gradle_marker_claims_nothing() {
    let mut t = Tree::new();
    t.dir(&tmp().join("build"));
    assert!(
        gradle::Adapter.containers(&tmp(), &vec![], &t.facts()).is_empty(),
        "a `build/` with no Gradle marker beside it is not Gradle's"
    );
}

#[test]
fn two_gradle_versions_project_caches_stay_distinct() {
    // `.gradle/8.5` and `.gradle/8.9` are two tool versions' caches side by
    // side. Neither supersedes the other, and the version is what keeps them
    // apart.
    let mut t = Tree::new();
    let dot = tmp().join(".gradle");
    let a = dot.join("8.5");
    let b = dot.join("8.9");
    for p in [&a, &b] {
        t.dir(p);
    }
    let c = BuildContainer::project("gradle", dot.copy(), tmp());
    let units = run_gradle(&t, &c, &index(&[(&dot, 600, 500), (&a, 300, 400), (&b, 300, 900)]));
    let ua = find(&units, &a);
    let ub = find(&units, &b);
    assert_ne!(ua.id, ub.id);
    assert_eq!(ua.variant.toolchain.as_deref(), Some("gradle 8.5"));
    assert_eq!(ub.variant.toolchain.as_deref(), Some("gradle 8.9"));
    assert_eq!(
        ua.action,
        NestedActionCapability::InspectionOnly,
        "the older version's cache gets no different treatment for being older"
    );
}

#[test]
fn an_incompletely_measured_build_directory_says_so_and_stays_identified() {
    let mut t = Tree::new();
    let build = tmp().join("build");
    t.dir(&build);
    let partial = FoldedIndex::from_dirs(vec![FoldedDir {
        path: build.copy(),
        allocated_total: 4_000,
        mtime_max: 500,
        complete: false,
    }]);
    let units = run_gradle(&t, &BuildContainer::project("gradle", build.copy(), tmp()), &partial);
    let u = &units[0];
    assert!(!u.coverage.complete);
    assert!(u.coverage.supported, "incomplete is not unsupported");
    assert!(limits_say(u, "could not read all of this directory"), "{:?}", u.coverage.limits);
}

#[test]
fn a_custom_gradle_user_home_is_identified_by_its_layout_not_its_name() {
    let mut t = Tree::new();
    let home = tmp().join("ci/gradle-cache");
    let caches = home.join("caches");
    let modules = caches.join("modules-2");
    let meta = modules.join("metadata-2.106");
    let files = modules.join("files-2.1");
    let group = files.join("org.slf4j");
    let art = group.join("slf4j-api");
    let ver = art.join("2.0.9");
    let daemon = home.join("daemon");
    let d85 = daemon.join("8.5");
    let d89 = daemon.join("8.9");
    let odd = modules.join("journal-1");
    for p in [&meta, &ver, &d85, &d89, &odd] {
        t.dir(p);
    }
    let c = BuildContainer::shared_store("gradle", home.copy());
    let units = run_gradle(
        &t,
        &c,
        &index(&[
            (&home, 1_000, 500),
            (&caches, 800, 500),
            (&modules, 800, 500),
            (&meta, 100, 500),
            (&files, 600, 500),
            (&group, 600, 500),
            (&art, 600, 500),
            (&ver, 600, 500),
            (&odd, 100, 500),
            (&daemon, 200, 500),
            (&d85, 100, 400),
            (&d89, 100, 900),
        ]),
    );
    let module = find(&units, &art);
    assert_eq!(module.variant.package.as_deref(), Some("org.slf4j:slf4j-api"));
    let m = find(&units, &meta);
    assert_eq!(m.role, ArtifactRole::Metadata);
    let j = find(&units, &odd);
    assert!(!j.coverage.supported, "an unknown entry is a named residual");
    let a = find(&units, &d85);
    let b = find(&units, &d89);
    assert_eq!(a.variant.toolchain.as_deref(), Some("gradle 8.5"));
    assert_eq!(b.variant.toolchain.as_deref(), Some("gradle 8.9"));
    assert_ne!(a.id, b.id, "two daemon versions' logs never collapse");
}

#[test]
fn a_module_cache_entry_carries_its_coordinates() {
    let mut t = Tree::new();
    let home = tmp().join("gradle-home");
    let files = home.join("caches/modules-2/files-2.1");
    let art = files.join("com.squareup.okhttp3/okhttp");
    t.dir(&art);
    let c = BuildContainer::shared_store("gradle", home.copy());
    let idx = index(&[
        (&home, 1_000, 500),
        (&home.join("caches"), 900, 500),
        (&home.join("caches/modules-2"), 800, 500),
        (&files, 800, 500),
        (&files.join("com.squareup.okhttp3"), 700, 500),
        (&art, 700, 500),
    ]);
    let units = run_gradle(&t, &c, &idx);
    let u = find(&units, &art);
    assert_eq!(u.variant.package.as_deref(), Some("com.squareup.okhttp3:okhttp"));
    assert!(matches!(u.action, NestedActionCapability::Unsupported { .. }));
}

// ---------------------------------------------------------------------
// The published claims
// ---------------------------------------------------------------------

#[test]
fn action_matrix_matches_adapter_contracts() {
    let registry = Registry::with_builtins();
    for e in matrix::matrix() {
        assert_eq!(
            e.actions == matrix::PROJECT_TRASH,
            registry.get(e.id).is_some_and(|a| !a.trash_roles().is_empty()),
            "{} action documentation differs from its contract",
            e.id
        );
    }
}

#[test]
fn every_implemented_row_states_its_attribution_limits() {
    for e in matrix::matrix().iter().filter(|e| e.status == matrix::Status::Implemented) {
        assert!(
            !e.attribution_limits.is_empty(),
            "{} claims support with no stated limits; \"supported\" with no limits is the claim nobody can keep",
            e.id
        );
        assert!(!e.families.is_empty(), "{} identifies no families", e.id);
        assert!(!e.known_layouts.is_empty(), "{} names no layouts", e.id);
    }
}

#[test]
fn ids_are_unique_and_kebab_case() {
    let rows = matrix::matrix();
    let mut ids: Vec<&str> = rows.iter().map(|e| e.id).collect();
    let before = ids.len();
    ids.sort_unstable();
    ids.dedup();
    assert_eq!(before, ids.len(), "duplicate matrix id");
    for id in ids {
        assert!(
            id.chars().all(|c| c.is_ascii_lowercase() || c == '-'),
            "matrix id {id} is not kebab-case; ids must match module names and docs rows"
        );
    }
}

#[test]
fn a_row_is_found_by_its_id() {
    assert_eq!(matrix::get("gradle").map(|e| e.status.label()), Some("implemented"));
    assert!(matrix::get("no-such-family").is_none());
}

#[test]
fn every_adapter_is_registered_exactly_once() {
    let mut ids = Registry::with_builtins().ids();
    let before = ids.len();
    ids.sort_unstable();
    ids.dedup();
    assert_eq!(before, ids.len(), "a duplicate registration: {ids:?}");
}

#[test]
fn registry_ids_are_exactly_the_matrix_implemented_ids() {
    // The matrix is the published support claim; the registry is what runs. A
    // family in one and not the other is either an undocumented adapter or a
    // documented family with no code.
    let mut registered = Registry::with_builtins().ids();
    registered.sort_unstable();
    let mut documented = matrix::implemented_ids();
    documented.sort_unstable();
    assert_eq!(registered, documented);
}

#[test]
fn action_claims_have_explicit_role_contracts() {
    for a in Registry::with_builtins().adapters() {
        assert_eq!(
            a.capabilities().actions_available,
            !a.trash_roles().is_empty(),
            "{}",
            a.id()
        );
    }
}

// ---------------------------------------------------------------------
// Units, replay and summaries
// ---------------------------------------------------------------------

fn container(path: &FsPath) -> BuildContainer {
    BuildContainer::project("cargo", path.copy(), path.copy())
}

fn supported(c: &BuildContainer, role: ArtifactRole, path: FsPath) -> NestedUnitBuilder {
    NestedUnitBuilder::new(c, role, path).supported_with_reason("fixture layout")
}

#[test]
fn builder_defaults_understate_rather_than_overstate() {
    let c = container(&tmp());
    let u = NestedUnitBuilder::new(&c, ArtifactRole::Output, tmp().join("dist")).build();
    assert!(!u.coverage.supported, "support is claimed, never assumed");
    assert!(!u.coverage.complete);
    assert_eq!(u.basis, AccountingBasis::Unknown);
    assert_eq!(u.time_source, TimeSource::Unknown);
    assert_eq!(u.membership, Membership::Unknown);
    assert_eq!(u.physical_total, 0, "an aggregate carries no charge");
    assert_eq!(u.action, NestedActionCapability::InspectionOnly);
}

#[test]
fn an_unchanged_container_is_replayed_only_under_trusted_coverage() {
    let c = container(&tmp());
    let folded = FoldedIndex::default();
    let prior = vec![NestedUnitBuilder::new(&c, ArtifactRole::Output, tmp().join("dist")).build()];
    let cache = ContainerCache::from_previous(prior, 100);

    let untrusted = EventCoverage::untrusted();
    let ctx = BuildCtx::new(200, &folded, &untrusted, &cache);
    assert!(!ctx.can_reuse(&c), "no window, no reuse -- a stamp is not a substitute");

    let trusted = EventCoverage::trusted(tmp(), Vec::new(), 100);
    let ctx = BuildCtx::new(200, &folded, &trusted, &cache);
    assert!(ctx.can_reuse(&c));

    let noisy = EventCoverage::trusted(tmp(), vec![tmp().join("dist/app.js")], 100);
    let ctx = BuildCtx::new(200, &folded, &noisy, &cache);
    assert!(!ctx.can_reuse(&c), "an event *inside* the container is a change to it");
}

#[test]
fn rows_written_by_another_adapter_are_never_replayed() {
    let node = BuildContainer::project("node", tmp().join("build"), tmp());
    let gradle = BuildContainer::project("gradle", tmp().join("build"), tmp());
    let prior = vec![NestedUnitBuilder::new(&node, ArtifactRole::Output, tmp().join("build")).build()];
    let cache = ContainerCache::from_previous(prior, 100);
    let folded = FoldedIndex::default();
    let trusted = EventCoverage::trusted(tmp(), Vec::new(), 100);
    let ctx = BuildCtx::new(200, &folded, &trusted, &cache);
    assert!(ctx.can_reuse(&node));
    assert!(
        !ctx.can_reuse(&gradle),
        "the claim moved to another adapter through a marker outside the container; no event under the container \
         can say so, so the old adapter's rows are not evidence"
    );
}

#[test]
fn a_family_summary_stops_at_the_outermost_unit() {
    let c = container(&tmp());
    let outer = supported(&c, ArtifactRole::Output, tmp().join("dist"))
        .is_dir(true)
        .bytes_on_basis(1000, AccountingBasis::Allocated)
        .build();
    let inner = supported(&c, ArtifactRole::Output, tmp().join("dist/assets"))
        .is_dir(true)
        .bytes_on_basis(400, AccountingBasis::Allocated)
        .build();
    let s = summarize_families(&tmp(), &vec![outer, inner]);
    let outputs = s.iter().find(|f| f.family == RoleFamily::Outputs).unwrap();
    assert_eq!(outputs.count, 1);
    assert_eq!(
        outputs.bytes, 1000,
        "a descendant's bytes are already inside its ancestor's total"
    );
}

#[test]
fn a_family_mixing_accounting_bases_reports_no_total() {
    let c = container(&tmp());
    let a = supported(&c, ArtifactRole::Output, tmp().join("a"))
        .bytes_on_basis(100, AccountingBasis::Allocated)
        .build();
    let b = supported(&c, ArtifactRole::Output, tmp().join("b"))
        .bytes_on_basis(100, AccountingBasis::Logical)
        .build();
    let s = summarize_families(&tmp(), &vec![a, b]);
    let outputs = s.iter().find(|f| f.family == RoleFamily::Outputs).unwrap();
    assert_eq!(outputs.basis, AccountingBasis::Unknown);
    assert_eq!(outputs.bytes, 0, "a mixed-basis number is worse than no number");
}

#[test]
fn unknown_ages_are_counted_not_folded_into_the_oldest() {
    let c = container(&tmp());
    let dated = supported(&c, ArtifactRole::Output, tmp().join("a"))
        .bytes_on_basis(1, AccountingBasis::Allocated)
        .modified(5_000, TimeSource::FoldedDirectoryModification)
        .build();
    let undated = supported(&c, ArtifactRole::Output, tmp().join("b"))
        .bytes_on_basis(1, AccountingBasis::Allocated)
        .build();
    let units = vec![dated, undated];
    let s = summarize_families(&tmp(), &units);
    let outputs = s.iter().find(|f| f.family == RoleFamily::Outputs).unwrap();
    assert_eq!(outputs.oldest_modified, Some(5_000));
    assert_eq!(
        outputs.unknown_age, 1,
        "an unknown age is reported, never treated as epoch and ranked ancient"
    );
    let order: Vec<FsPath> = family_members(&tmp(), &units, RoleFamily::Outputs)
        .iter()
        .map(|u| u.path.copy())
        .collect();
    assert_eq!(
        order,
        vec![tmp().join("a"), tmp().join("b")],
        "the undated unit sorts after the dated one, not before it as if it were ancient"
    );
}

#[test]
fn only_nonempty_supported_candidates_are_counted() {
    let c = container(&tmp());
    let real = supported(&c, ArtifactRole::Output, tmp().join("dist"))
        .is_dir(true)
        .bytes_on_basis(700, AccountingBasis::Allocated)
        .build();
    let empty = supported(&c, ArtifactRole::Output, tmp().join("out"))
        .is_dir(true)
        .bytes_on_basis(0, AccountingBasis::Allocated)
        .build();
    let unknown = NestedUnitBuilder::new(&c, ArtifactRole::Output, tmp().join("weird"))
        .is_dir(true)
        .bytes_on_basis(200, AccountingBasis::Allocated)
        .unsupported_layout("fixture: not a layout this adapter knows")
        .build();
    let s = summarize_container(&tmp(), &vec![real, empty, unknown]);
    let outputs = s.families.iter().find(|f| f.family == RoleFamily::Outputs).unwrap();
    assert_eq!(outputs.count, 1, "{s:?}");
    assert_eq!(outputs.bytes, 700);
    assert_eq!(s.unsupported_count, 1);
    assert_eq!(s.unsupported_bytes, Some(200));
    assert_eq!(s.empty, 1);
}

#[test]
fn leaf_totals_reconcile_to_the_container_through_an_explicit_residual() {
    let c = container(&tmp());
    let root = supported(&c, ArtifactRole::Output, tmp())
        .is_dir(true)
        .bytes_on_basis(1_000, AccountingBasis::Allocated)
        .build();
    let a = supported(&c, ArtifactRole::Output, tmp().join("a"))
        .is_dir(true)
        .bytes_on_basis(600, AccountingBasis::Allocated)
        .build();
    let a_inner = supported(&c, ArtifactRole::Intermediate, tmp().join("a/cache"))
        .is_dir(true)
        .bytes_on_basis(500, AccountingBasis::Allocated)
        .build();
    let b = NestedUnitBuilder::new(&c, ArtifactRole::Residual, tmp().join("b"))
        .is_dir(true)
        .bytes_on_basis(150, AccountingBasis::Allocated)
        .unsupported_layout("fixture")
        .build();
    let s = summarize_container(&tmp(), &vec![root.clone(), a, a_inner, b]);
    assert_eq!(
        s.unaccounted_bytes,
        Some(250),
        "1000 in the container, 600 + 150 in its outermost units: 250 are loose files no unit claims, and saying \
         so is what makes the leaves reconcile"
    );
    let over = supported(&c, ArtifactRole::Output, tmp().join("big"))
        .is_dir(true)
        .bytes_on_basis(5_000, AccountingBasis::Allocated)
        .build();
    let s = summarize_container(&tmp(), &vec![root, over]);
    assert_eq!(
        s.unaccounted_bytes, None,
        "members adding up to more than their container are a double count upstream, never a residual of zero"
    );
}

#[test]
fn a_family_with_several_consequences_says_so() {
    let c = container(&tmp());
    let big = supported(&c, ArtifactRole::Intermediate, tmp().join(".turbo"))
        .bytes_on_basis(900, AccountingBasis::Allocated)
        .consequence("the next task run re-executes")
        .build();
    let small = supported(&c, ArtifactRole::Intermediate, tmp().join(".vite"))
        .bytes_on_basis(100, AccountingBasis::Allocated)
        .consequence("the next dev server start re-optimizes")
        .build();
    let s = summarize_families(&tmp(), &vec![small, big]);
    let f = &s[0];
    assert_eq!(
        f.consequence.as_deref(),
        Some("the next task run re-executes"),
        "the largest member's consequence leads"
    );
    assert_eq!(
        f.other_consequences, 1,
        "and the family says it has another, rather than presenting one member's cost as all of them"
    );
    assert_eq!(f.recommendation, family_guidance(RoleFamily::Intermediates));
}

#[test]
fn family_guidance_fits_the_narrow_advice_column() {
    for f in RoleFamily::all().iter().chain([&RoleFamily::Container]) {
        assert!(
            family_guidance(*f).chars().count() <= 32,
            "{:?}: `{}` is truncated at 80 columns",
            f,
            family_guidance(*f)
        );
    }
}

#[test]
fn amending_a_unit_keeps_its_identity() {
    let c = container(&tmp());
    let u = supported(&c, ArtifactRole::Dependency, tmp().join("deps/x"))
        .modified(100, TimeSource::FoldedDirectoryModification)
        .complete(true)
        .build();
    let id = u.id.clone();
    let amended = NestedUnitBuilder::amend(u)
        .role(ArtifactRole::TestExecutable)
        .modified_at_least(50)
        .complete_only_if(false)
        .build();
    assert_eq!(amended.id, id, "a role is not identity");
    assert_eq!(amended.mtime_max, 100, "at least, never earlier");
    assert!(!amended.coverage.complete);
    assert_eq!(amended.role, ArtifactRole::TestExecutable);
}

// ---------------------------------------------------------------------
// Node
// ---------------------------------------------------------------------

fn run_node(t: &Tree, c: &BuildContainer, idx: &FoldedIndex) -> Vec<NestedArtifact> {
    t.run(&node::Adapter, c, idx, 1_000)
}

fn node_project(name: &str, root: &FsPath) -> BuildContainer {
    BuildContainer::project("node", root.join(name), root.copy())
}

#[test]
fn node_unknown_layout_is_explicit_not_empty() {
    let mut t = Tree::new();
    let nm = tmp().join("node_modules");
    let weird = nm.join(".rollup.cache");
    t.dir(&weird);
    let c = node_project("node_modules", &tmp());
    let units = run_node(&t, &c, &index(&[(&nm, 100, 500), (&weird, 40, 500)]));
    let residual = find(&units, &weird);
    assert!(!residual.coverage.supported);
    assert_eq!(residual.role, ArtifactRole::Residual);
    assert!(
        limits_say(residual, ".rollup.cache"),
        "the limit names the entry: {:?}",
        residual.coverage.limits
    );
}

#[test]
fn node_identification_reads_no_more_than_manifest_cap() {
    let mut t = Tree::new();
    let nm = tmp().join("node_modules");
    let pkg = nm.join("huge");
    // A package.json far larger than the cap. Identification stops at the cap
    // and reports an unknown identity rather than parsing a prefix.
    t.put(
        &pkg.join("package.json"),
        &format!("{{\"name\":\"huge\",\"pad\":\"{}\"}}", "x".repeat(MAX_MANIFEST_BYTES * 2)),
    );
    let c = node_project("node_modules", &tmp());
    let units = run_node(&t, &c, &index(&[(&nm, 100, 500), (&pkg, 90, 500)]));
    let u = find(&units, &pkg);
    assert_eq!(
        u.variant.package, None,
        "a manifest that hit the cap yields an unknown identity, never a prefix parse"
    );
    assert!(u.variant.unknowns.iter().any(|x| x == "package"));
}

#[test]
fn node_variants_never_collapse_by_basename() {
    // Two workspace packages each with a `dist`. A name-only grouper reports one
    // `dist`; the identity is the path inside its own container, so these are
    // two units with two ids.
    let mut t = Tree::new();
    let a = tmp().join("packages/a");
    let b = tmp().join("packages/b");
    t.dir(&a.join("dist"));
    t.dir(&b.join("dist"));
    let ca = node_project("dist", &a);
    let cb = node_project("dist", &b);
    let ua = run_node(&t, &ca, &index(&[(&a.join("dist"), 10, 500)]));
    let ub = run_node(&t, &cb, &index(&[(&b.join("dist"), 20, 500)]));
    assert_ne!(ua[0].id, ub[0].id, "two workspaces' dist directories are two identities");
    assert_eq!(ua[0].role, ArtifactRole::Output);
    assert_ne!(ua[0].bytes, ub[0].bytes);
}

#[test]
fn node_age_is_not_obsolescence() {
    let mut t = Tree::new();
    let dist = tmp().join("dist");
    t.dir(&dist);
    let c = node_project("dist", &tmp());
    let units = run_node(&t, &c, &index(&[(&dist, 1_000, 1)]));
    let u = &units[0];
    assert_eq!(u.time_source, TimeSource::FoldedDirectoryModification);
    assert_eq!(u.action, NestedActionCapability::InspectionOnly);
    assert!(u.consequence.as_deref().unwrap().contains("rebuild"));
}

#[test]
fn a_package_is_named_by_its_manifest_not_its_directory() {
    let mut t = Tree::new();
    let nm = tmp().join("node_modules");
    let dir = nm.join("lodash");
    t.put(&dir.join("package.json"), r#"{"name":"lodash-es","version":"4.17.21"}"#);
    let c = node_project("node_modules", &tmp());
    let units = run_node(&t, &c, &index(&[(&nm, 100, 500), (&dir, 90, 500)]));
    let u = find(&units, &dir);
    assert_eq!(u.variant.package.as_deref(), Some("lodash-es"));
    assert_eq!(u.variant.version.as_deref(), Some("4.17.21"));
}

#[test]
fn a_malformed_manifest_leaves_the_identity_unknown() {
    let mut t = Tree::new();
    let nm = tmp().join("node_modules");
    let dir = nm.join("broken");
    t.put(&dir.join("package.json"), "{ this is not json");
    let c = node_project("node_modules", &tmp());
    let units = run_node(&t, &c, &index(&[(&nm, 100, 500), (&dir, 90, 500)]));
    let u = find(&units, &dir);
    assert_eq!(u.variant.package, None);
    assert!(
        limits_say(u, "is not guessed from the directory name"),
        "{:?}",
        u.coverage.limits
    );
}

#[test]
fn a_pnpm_virtual_store_is_not_charged_twice() {
    let mut t = Tree::new();
    let nm = tmp().join("node_modules");
    let pnpm = nm.join(".pnpm");
    t.dir(&pnpm);
    let c = node_project("node_modules", &tmp());
    let units = run_node(&t, &c, &index(&[(&nm, 500, 500), (&pnpm, 480, 500)]));
    let u = find(&units, &pnpm);
    assert_eq!(u.membership, Membership::SharedHardlink);
    assert_eq!(u.physical_total, 0, "a shared subtree carries no charge");
    assert!(matches!(u.action, NestedActionCapability::Unsupported { .. }));
}

#[test]
fn a_framework_cache_is_separated_from_the_output_it_sits_in() {
    let mut t = Tree::new();
    let next = tmp().join(".next");
    let cache = next.join("cache");
    t.dir(&cache);
    let c = node_project(".next", &tmp());
    let units = run_node(&t, &c, &index(&[(&next, 1_000, 500), (&cache, 900, 500)]));
    let out = find(&units, &next);
    let cu = find(&units, &cache);
    assert_eq!(out.role, ArtifactRole::Output);
    assert_eq!(cu.role, ArtifactRole::Intermediate);
    assert_eq!(cu.role.family(), RoleFamily::Intermediates);
    assert_ne!(
        out.consequence, cu.consequence,
        "removing the output means a rebuild; removing the cache means a slower one"
    );
}

#[test]
fn an_ambiguous_directory_goes_to_the_ecosystem_whose_marker_is_present() {
    let mut t = Tree::new();
    let root = tmp();
    t.put(&root.join("package.json"), "{}");
    t.put(&root.join("build.gradle"), "");
    t.dir(&root.join("build"));
    t.dir(&root.join("dist"));
    let claimed: Vec<String> = node::Adapter
        .containers(&root, &vec![], &t.facts())
        .into_iter()
        .map(|c| c.path.file_name().unwrap())
        .collect();
    assert!(claimed.contains(&"dist".to_string()));
    assert!(
        !claimed.contains(&"build".to_string()),
        "a Gradle marker at the root means `build/` is Gradle's: {claimed:?}"
    );
}

#[test]
fn a_workspace_packages_own_output_root_is_claimed_from_the_walks_candidates() {
    // A monorepo's outputs are not at the project root. The walk classified
    // `packages/ui/dist` as an artifact; the adapter claims it from that
    // candidate list rather than by guessing where a bundler was configured to
    // write.
    let mut t = Tree::new();
    let root = tmp();
    t.put(&root.join("package.json"), "{}");
    let nested = root.join("packages/ui/dist");
    t.dir(&nested);
    let claimed: Vec<FsPath> = node::Adapter
        .containers(&root, &vec![nested.copy()], &t.facts())
        .into_iter()
        .map(|c| c.path)
        .collect();
    assert!(
        claimed.contains(&nested),
        "a custom output root the walk found is claimed: {claimed:?}"
    );
}

#[test]
fn old_output_beside_current_dependencies_is_reported_as_two_separate_ages() {
    let mut t = Tree::new();
    let root = tmp();
    let dist = root.join("dist");
    let nm = root.join("node_modules");
    t.dir(&dist);
    t.dir(&nm);
    let old = 1_000u64;
    let recent = 900_000u64;
    let dist_units = run_node(&t, &node_project("dist", &root), &index(&[(&dist, 5_000, old)]));
    let nm_units = run_node(&t, &node_project("node_modules", &root), &index(&[(&nm, 90_000, recent)]));
    let d = &dist_units[0];
    let n = &nm_units[0];
    assert_eq!(d.mtime_max, old);
    assert_eq!(n.mtime_max, recent);
    assert_eq!(
        d.action,
        NestedActionCapability::InspectionOnly,
        "being older than the dependency tree changes nothing about what swamp can do"
    );
    assert!(d.coverage.supported && n.coverage.supported);
    assert_eq!(
        d.consequence.as_deref(),
        Some("rebuild with this project's build script (commonly `npm run build`)"),
        "the consequence is the role's, not a comparison with a sibling"
    );
}

#[test]
fn an_incompletely_measured_tree_says_so_and_stays_identified() {
    let mut t = Tree::new();
    let nm = tmp().join("node_modules");
    t.dir(&nm);
    let partial = FoldedIndex::from_dirs(vec![FoldedDir {
        path: nm.copy(),
        allocated_total: 1_000,
        mtime_max: 500,
        complete: false,
    }]);
    let units = run_node(&t, &node_project("node_modules", &tmp()), &partial);
    let u = &units[0];
    assert!(!u.coverage.complete);
    assert!(
        limits_say(u, "could not read all of this directory"),
        "an incomplete measurement is named, not silently reported as a total: {:?}",
        u.coverage.limits
    );
    assert!(
        u.coverage.supported,
        "an incomplete measurement is not an unsupported layout; they are different facts"
    );
}

#[test]
fn no_build_generation_is_invented() {
    let mut t = Tree::new();
    let nm = tmp().join("node_modules");
    let dir = nm.join("pkg");
    t.put(&dir.join("package.json"), r#"{"name":"pkg","version":"1.0.0"}"#);
    let c = node_project("node_modules", &tmp());
    let units = run_node(&t, &c, &index(&[(&nm, 100, 500), (&dir, 90, 500)]));
    let u = find(&units, &dir);
    assert!(
        u.variant.unknowns.iter().any(|x| x == "build-generation"),
        "npm records no build generation, and the unit says so: {:?}",
        u.variant.unknowns
    );
}

// ---------------------------------------------------------------------
// Python
// ---------------------------------------------------------------------

fn run_python(t: &Tree, c: &BuildContainer, idx: &FoldedIndex) -> Vec<NestedArtifact> {
    t.run(&python::Adapter, c, idx, 1_000)
}

fn python_project(root: &FsPath, name: &str) -> BuildContainer {
    BuildContainer::project("python", root.join(name), root.copy())
}

#[test]
fn python_unknown_layout_is_explicit_not_empty() {
    let mut t = Tree::new();
    let build = tmp().join("build");
    t.dir(&build.join("lib"));
    t.dir(&build.join("weird-plugin-output"));
    let units = run_python(&t, &python_project(&tmp(), "build"), &t.index_of(&build, 500));
    let odd = find(&units, &build.join("weird-plugin-output"));
    assert!(!odd.coverage.supported);
    assert_eq!(odd.role, ArtifactRole::Residual);
    assert!(limits_say(odd, "weird-plugin-output"), "{:?}", odd.coverage.limits);
}

#[test]
fn python_identification_reads_no_more_than_manifest_cap() {
    let mut t = Tree::new();
    let egg = tmp().join("pkg.egg-info");
    t.put(
        &egg.join("PKG-INFO"),
        &format!("Name: pkg\nVersion: 1.0\n{}", "X".repeat(MAX_MANIFEST_BYTES * 2)),
    );
    let units = run_python(&t, &python_project(&tmp(), "pkg.egg-info"), &t.index_of(&egg, 500));
    assert_eq!(
        units[0].variant.package, None,
        "a PKG-INFO that hit the cap is an unknown identity, never a prefix parse"
    );
}

#[test]
fn python_a_whole_pkg_info_names_the_package() {
    let mut t = Tree::new();
    let egg = tmp().join("pkg.egg-info");
    t.put(&egg.join("PKG-INFO"), "Name: pkg\nVersion: 1.0\n");
    let units = run_python(&t, &python_project(&tmp(), "pkg.egg-info"), &t.index_of(&egg, 500));
    assert_eq!(units[0].variant.package.as_deref(), Some("pkg"));
    assert_eq!(units[0].variant.version.as_deref(), Some("1.0"));
}

#[test]
fn python_variants_never_collapse_by_basename() {
    // Two interpreters' setuptools trees and two mypy caches: a name-only
    // grouper reports one `lib` and one cache.
    let mut t = Tree::new();
    let build = tmp().join("build");
    t.dir(&build.join("lib.macosx-11.0-arm64-cpython-311"));
    t.dir(&build.join("lib.macosx-11.0-arm64-cpython-312"));
    let units = run_python(&t, &python_project(&tmp(), "build"), &t.index_of(&build, 500));
    let libs: Vec<&NestedArtifact> = units.iter().filter(|u| u.path.parent() == Some(build.copy())).collect();
    assert_eq!(libs.len(), 2);
    assert_ne!(libs[0].id, libs[1].id);
    let tools: Vec<Option<String>> = libs.iter().map(|u| u.variant.toolchain.clone()).collect();
    assert!(tools.contains(&owned("cpython-311")), "{tools:?}");
    assert!(tools.contains(&owned("cpython-312")), "{tools:?}");

    let mypy = tmp().join(".mypy_cache");
    t.dir(&mypy.join("3.11"));
    t.dir(&mypy.join("3.12"));
    let units = run_python(&t, &python_project(&tmp(), ".mypy_cache"), &t.index_of(&mypy, 500));
    let versions: Vec<Option<String>> =
        units.iter().filter(|u| u.path != mypy).map(|u| u.variant.toolchain.clone()).collect();
    assert_eq!(versions, vec![owned("python 3.11"), owned("python 3.12")]);
}

#[test]
fn python_age_is_not_obsolescence() {
    let mut t = Tree::new();
    let cache = tmp().join("__pycache__");
    t.dir(&cache);
    let units = run_python(&t, &python_project(&tmp(), "__pycache__"), &t.index_of(&cache, 1));
    let u = &units[0];
    assert_eq!(u.time_source, TimeSource::FoldedDirectoryModification);
    assert_eq!(u.mtime_max, 1, "an ancient time is reported as what it is");
    assert_eq!(u.action, NestedActionCapability::InspectionOnly);
    assert!(u.consequence.as_deref().unwrap().contains("recompiles"));
}

#[test]
fn a_wheel_and_an_sdist_are_named_by_their_filenames() {
    let mut t = Tree::new();
    let dist = tmp().join("dist");
    t.put(&dist.join("demo_pkg-1.4.0-cp312-cp312-macosx_11_0_arm64.whl"), "w");
    t.put(&dist.join("demo_pkg-1.4.0.tar.gz"), "s");
    t.put(&dist.join("notes.txt"), "n");
    let units = run_python(&t, &python_project(&tmp(), "dist"), &t.index_of(&dist, 500));
    let wheel = units.iter().find(|u| u.relative_path.ends_with(".whl")).unwrap();
    assert_eq!(wheel.variant.package.as_deref(), Some("demo_pkg"));
    assert_eq!(wheel.variant.version.as_deref(), Some("1.4.0"));
    assert_eq!(wheel.variant.toolchain.as_deref(), Some("cp312"));
    assert_eq!(wheel.variant.architecture.as_deref(), Some("macosx_11_0_arm64"));
    let sdist = units.iter().find(|u| u.relative_path.ends_with(".tar.gz")).unwrap();
    assert_eq!(sdist.variant.configuration.as_deref(), Some("sdist"));
    assert_ne!(wheel.id, sdist.id, "one version, two distributions, two units");
    let notes = units.iter().find(|u| u.relative_path.ends_with("notes.txt")).unwrap();
    assert!(!notes.coverage.supported);
}

#[test]
fn an_environment_names_its_interpreter_packages_and_local_sources() {
    let mut t = Tree::new();
    let venv = tmp().join(".venv");
    let python_home = tmp().join("python/bin");
    t.dir(&python_home);
    t.put(
        &venv.join("pyvenv.cfg"),
        &format!(
            "home = {}\nimplementation = CPython\nversion_info = 3.12.4.final.0\nuv = 0.4.18\n",
            python_home.text()
        ),
    );
    let site = venv.join("lib/python3.12/site-packages");
    t.put(&site.join("yaml/__init__.py"), "x");
    t.put(&site.join("PyYAML-6.0.1.dist-info/top_level.txt"), "_yaml\nyaml\n");
    t.put(&site.join("mylib/__init__.py"), "x");
    t.put(
        &site.join("mylib-0.1.0.dist-info/direct_url.json"),
        r#"{"url": "file:///src/mylib", "dir_info": {"editable": true}}"#,
    );
    t.put(&site.join("mylib-0.1.0.dist-info/top_level.txt"), "mylib\n");
    t.put(&site.join("orphan/__init__.py"), "x");
    let units = run_python(&t, &python_project(&tmp(), ".venv"), &t.index_of(&venv, 500));
    let root = find(&units, &venv);
    assert_eq!(root.variant.toolchain.as_deref(), Some("cpython 3.12.4.final.0"));
    assert!(
        limits_say(root, "uv links packages"),
        "a uv environment says its bytes may be shared with the cache: {:?}",
        root.coverage.limits
    );
    let yaml = find(&units, &site.join("yaml"));
    assert_eq!(
        yaml.variant.package.as_deref(),
        Some("PyYAML"),
        "the directory is named by the distribution whose top_level.txt lists it"
    );
    let mylib = find(&units, &site.join("mylib"));
    assert!(
        mylib.consequence.as_deref().unwrap().contains("/src/mylib"),
        "an editable install's cost is its local source, not the index: {:?}",
        mylib.consequence
    );
    let orphan = find(&units, &site.join("orphan"));
    assert_eq!(
        orphan.variant.package, None,
        "no distribution claims it, and its name is not a guess"
    );
}

#[test]
fn a_missing_interpreter_and_incomplete_metadata_are_said_not_guessed() {
    let mut t = Tree::new();
    let venv = tmp().join("venv");
    t.put(&venv.join("pyvenv.cfg"), "home = /definitely/not/here/bin\n");
    let units = run_python(&t, &python_project(&tmp(), "venv"), &t.index_of(&venv, 500));
    let root = &units[0];
    assert!(
        limits_say(root, "is not at `/definitely/not/here/bin`"),
        "{:?}",
        root.coverage.limits
    );
    assert!(limits_say(root, "names no interpreter version"));
    assert!(root.variant.unknowns.iter().any(|x| x == "toolchain"));
    assert!(
        root.coverage.supported,
        "an environment with gaps is still an environment"
    );
}

#[test]
fn uv_cache_buckets_and_local_source_builds_are_distinct() {
    let mut t = Tree::new();
    let cache = tmp().join("uv");
    t.dir(&cache.join("archive-v0/abc123"));
    t.dir(&cache.join("wheels-v5/pypi/requests"));
    t.dir(&cache.join("sdists-v9/path/9f8e7d"));
    t.dir(&cache.join("simple-v16/pypi"));
    t.dir(&cache.join("mystery"));
    let c = BuildContainer::shared_store_of("python", cache.copy(), BuildStoreKind::UvCache);
    let units = run_python(&t, &c, &t.index_of(&cache, 500));
    let archive = find(&units, &cache.join("archive-v0"));
    assert_eq!(archive.variant.configuration.as_deref(), Some("archive layout 0"));
    let req = find(&units, &cache.join("wheels-v5/pypi/requests"));
    assert_eq!(req.variant.package.as_deref(), Some("requests"));
    let local = find(&units, &cache.join("sdists-v9/path"));
    assert!(local.consequence.as_deref().unwrap().contains("local source"));
    let mystery = find(&units, &cache.join("mystery"));
    assert!(!mystery.coverage.supported);
    assert!(
        units
            .iter()
            .filter(|u| u.path != cache && u.coverage.supported)
            .all(|u| matches!(u.action, NestedActionCapability::Unsupported { .. })),
        "every identified cache entry withholds actions: other environments link to it"
    );
}

#[test]
fn uv_managed_interpreters_are_installations_by_version() {
    let mut t = Tree::new();
    let py = tmp().join("python");
    t.dir(&py.join("cpython-3.12.4-macos-aarch64-none"));
    t.dir(&py.join("cpython-3.11.9-macos-aarch64-none"));
    let c = BuildContainer::shared_store_of("python", py.copy(), BuildStoreKind::UvPythonInstallations);
    let units = run_python(&t, &c, &t.index_of(&py, 500));
    let installs: Vec<&NestedArtifact> = units.iter().filter(|u| u.path != py).collect();
    assert_eq!(installs.len(), 2);
    assert!(installs.iter().all(|u| u.role == ArtifactRole::Installation));
    assert!(
        installs.iter().all(|u| u.role.family() != RoleFamily::Outputs),
        "an interpreter is never build output"
    );
    let versions: Vec<Option<String>> = installs.iter().map(|u| u.variant.version.clone()).collect();
    assert!(versions.contains(&owned("3.11.9")) && versions.contains(&owned("3.12.4")));
}

#[test]
fn distribution_names_parse_only_in_the_specified_shapes() {
    assert_eq!(
        python::parse_distribution("pkg-1.0-py3-none-any.whl").map(|d| d.version),
        owned("1.0")
    );
    assert_eq!(
        python::parse_distribution("pkg-1.0-1-py3-none-any.whl").map(|d| d.python),
        Some(owned("py3")),
        "an optional build tag keeps the python/abi/platform positions"
    );
    assert_eq!(python::parse_distribution("pkg.whl"), None);
    assert_eq!(python::parse_distribution("pkg-latest.tar.gz"), None);
}

// ---------------------------------------------------------------------
// Xcode and Swift
// ---------------------------------------------------------------------

fn run_xcode_at(t: &Tree, c: &BuildContainer, idx: &FoldedIndex, now: u64) -> Vec<NestedArtifact> {
    t.run(&xcode_swift::Adapter, c, idx, now)
}

fn run_xcode(t: &Tree, c: &BuildContainer, idx: &FoldedIndex) -> Vec<NestedArtifact> {
    run_xcode_at(t, c, idx, 1_000_000)
}

fn info_plist(ws: &str) -> String {
    format!(
        "<?xml version=\"1.0\"?><plist version=\"1.0\"><dict><key>WorkspacePath</key>\
         <string>{ws}</string></dict></plist>"
    )
}

fn xcode_store(root: &FsPath, kind: BuildStoreKind) -> BuildContainer {
    BuildContainer::shared_store_of("xcode-swift", root.copy(), kind)
}

fn derived(root: &FsPath) -> BuildContainer {
    xcode_store(root, BuildStoreKind::XcodeDerivedData)
}

#[test]
fn xcode_swift_unknown_layout_is_explicit_not_empty() {
    let mut t = Tree::new();
    let dd = tmp().join("DerivedData");
    t.dir(&dd.join("Stray"));
    let units = run_xcode(&t, &derived(&dd), &t.index_of(&dd, 5));
    let stray = find(&units, &dd.join("Stray"));
    assert!(!stray.coverage.supported);
    assert!(limits_say(stray, "Stray"));
}

#[test]
fn xcode_swift_identification_reads_no_more_than_manifest_cap() {
    let mut t = Tree::new();
    let dd = tmp().join("DerivedData");
    let folder = dd.join("App-abcdefghijklmnopqrstuvwxyzab");
    t.dir(&folder.join("Build"));
    t.put(
        &folder.join("info.plist"),
        &format!("{}{}", info_plist("/w/App.xcworkspace"), " ".repeat(MAX_MANIFEST_BYTES)),
    );
    let units = run_xcode(&t, &derived(&dd), &t.index_of(&dd, 5));
    let f = find(&units, &folder);
    assert_eq!(
        f.variant.package, None,
        "a plist that hit the cap is not parsed from its prefix"
    );
}

#[test]
fn xcode_swift_variants_never_collapse_by_basename() {
    let mut t = Tree::new();
    let dd = tmp().join("DerivedData");
    let folder = dd.join("App-abcdefghijklmnopqrstuvwxyzab");
    t.put(&folder.join("info.plist"), &info_plist("/w/App.xcworkspace"));
    for cfg in ["Debug-iphonesimulator", "Release-iphoneos", "Debug"] {
        t.dir(&folder.join(&format!("Build/Products/{cfg}/App.app")));
    }
    let units = run_xcode(&t, &derived(&dd), &t.index_of(&dd, 5));
    let apps: Vec<(Option<String>, Option<String>)> = units
        .iter()
        .filter(|u| u.variant.target.as_deref() == Some("App.app"))
        .map(|u| (u.variant.profile.clone(), u.variant.configuration.clone()))
        .collect();
    assert_eq!(apps.len(), 3, "three App.app products, three units: {apps:?}");
    assert!(apps.contains(&(owned("Debug"), owned("iphonesimulator"))));
    assert!(apps.contains(&(owned("Release"), owned("iphoneos"))));
    assert!(apps.contains(&(owned("Debug"), owned("macosx"))));
}

#[test]
fn xcode_swift_age_is_not_obsolescence() {
    let mut t = Tree::new();
    let dd = tmp().join("DerivedData");
    let folder = dd.join("Old-abcdefghijklmnopqrstuvwxyzab");
    t.put(&folder.join("info.plist"), &info_plist("/nowhere/Old.xcodeproj"));
    t.dir(&folder.join("Build/Intermediates.noindex"));
    let units = run_xcode(&t, &derived(&dd), &t.index_of(&dd, 1));
    let f = find(&units, &folder);
    assert_eq!(f.time_source, TimeSource::FoldedDirectoryModification);
    assert!(
        limits_say(f, "is not at `/nowhere/Old.xcodeproj` now"),
        "a missing project is a fact about the project, not about the build: {:?}",
        f.coverage.limits
    );
    assert!(f.coverage.supported);
    assert_eq!(f.role, ArtifactRole::Output);
}

#[test]
fn a_derived_data_folder_splits_products_tests_intermediates_index_and_packages() {
    let mut t = Tree::new();
    let dd = tmp().join("DerivedData");
    let folder = dd.join("App-abcdefghijklmnopqrstuvwxyzab");
    let ws = tmp().join("App.xcworkspace");
    t.dir(&ws);
    t.put(&folder.join("info.plist"), &info_plist(&ws.text()));
    t.dir(&folder.join("Build/Products/Debug-iphonesimulator/AppTests.xctest"));
    t.dir(&folder.join("Build/Products/Debug-iphonesimulator/App.app.dSYM"));
    t.dir(&folder.join("Build/Intermediates.noindex/App.build"));
    t.dir(&folder.join("Index.noindex/DataStore"));
    t.dir(&folder.join("Logs/Test/Run-App-2024.xcresult"));
    t.dir(&folder.join("SourcePackages/checkouts/swift-log"));
    t.put(
        &folder.join("SourcePackages/workspace-state.json"),
        r#"{"object":{"dependencies":[{"packageRef":{"identity":"swift-log"},"subpath":"swift-log","state":{"checkoutState":{"version":"1.5.4"}}}]}}"#,
    );
    let units = run_xcode(&t, &derived(&dd), &t.index_of(&dd, 5));
    let role = |suffix: &str| match units.iter().find(|u| ends(&u.path, suffix)) {
        Some(u) => u.role,
        None => panic!("no unit ends with {suffix}"),
    };
    assert_eq!(role("AppTests.xctest"), ArtifactRole::TestOutput);
    assert_eq!(role("App.app.dSYM"), ArtifactRole::Metadata);
    assert_eq!(role("Build/Intermediates.noindex"), ArtifactRole::Intermediate);
    assert_eq!(role("Index.noindex"), ArtifactRole::Intermediate);
    assert_eq!(role("Run-App-2024.xcresult"), ArtifactRole::TestOutput);
    let log = units.iter().find(|u| ends(&u.path, "checkouts/swift-log")).unwrap();
    assert_eq!(log.variant.package.as_deref(), Some("swift-log"));
    assert_eq!(log.variant.version.as_deref(), Some("1.5.4"));
    let f = find(&units, &folder);
    assert_eq!(f.variant.package.as_deref(), Some("App"));
}

#[test]
fn archives_runtimes_and_devices_are_never_build_output() {
    let mut t = Tree::new();
    let archives = tmp().join("Archives");
    let a = archives.join("2024-01-15/App 1-15-24, 10.32.xcarchive");
    t.put(
        &a.join("Info.plist"),
        "<plist><dict><key>Name</key><string>App</string><key>ApplicationProperties</key>\
         <dict><key>CFBundleShortVersionString</key><string>2.4</string></dict></dict></plist>",
    );
    let units = run_xcode(&t, &xcode_store(&archives, BuildStoreKind::XcodeArchives), &t.index_of(&archives, 5));
    let arch = find(&units, &a);
    assert_eq!(arch.role, ArtifactRole::Archive);
    assert_eq!(arch.role.family(), RoleFamily::State);
    assert_eq!(arch.variant.version.as_deref(), Some("2.4"));
    assert!(matches!(arch.action, NestedActionCapability::Unsupported { .. }));

    let devices = tmp().join("Devices");
    let dev = devices.join("0A1B2C3D-0000-0000-0000-000000000000");
    t.put(
        &dev.join("device.plist"),
        "<plist><dict><key>name</key><string>iPhone 15</string><key>runtime</key>\
         <string>com.apple.CoreSimulator.SimRuntime.iOS-17-2</string><key>state</key>\
         <integer>3</integer></dict></plist>",
    );
    let units = run_xcode(&t, &xcode_store(&devices, BuildStoreKind::SimulatorDevices), &t.index_of(&devices, 5));
    let d = find(&units, &dev);
    assert_eq!(d.role, ArtifactRole::DeviceState);
    assert_eq!(d.variant.toolchain.as_deref(), Some("iOS-17-2"));
    assert!(limits_say(d, "booted"));

    let runtimes = tmp().join("Runtimes");
    t.dir(&runtimes.join("iOS 17.2.simruntime"));
    let units = run_xcode(&t, &xcode_store(&runtimes, BuildStoreKind::SimulatorRuntimes), &t.index_of(&runtimes, 5));
    assert!(
        units.iter().all(|u| u.role == ArtifactRole::Installation),
        "a runtime is an installation: {:?}",
        units.iter().map(|u| &u.role).collect::<Vec<_>>()
    );
}

#[test]
fn an_active_build_is_evidence_not_a_verdict() {
    let mut t = Tree::new();
    let root = tmp();
    t.put(&root.join("Package.swift"), "// swift-tools-version:5.9\n");
    t.put(&root.join(".build/.lock"), "");
    t.dir(&root.join(".build/arm64-apple-macosx/release"));
    let c = BuildContainer::project("xcode-swift", root.join(".build"), root.copy());
    let now = 5_000;
    let units = run_xcode_at(&t, &c, &t.index_of(&root.join(".build"), now - 30), now);
    let r = &units[0];
    assert!(
        r.writer_lock.is_some(),
        "the lock SwiftPM holds while it runs is recorded"
    );
    assert!(limits_say(r, "30 seconds before"));
    assert!(matches!(r.action, NestedActionCapability::Unsupported { .. }));
    let rel = units.iter().find(|u| u.variant.profile.as_deref() == Some("release")).unwrap();
    assert_eq!(rel.variant.architecture.as_deref(), Some("arm64"));
}

#[test]
fn a_project_folder_without_info_plist_keeps_an_unknown_project() {
    let mut t = Tree::new();
    let dd = tmp().join("DerivedData");
    let folder = dd.join("Mystery-abcdefghijklmnopqrstuvwxyzab");
    t.dir(&folder.join("Build/Products/Debug"));
    let units = run_xcode(&t, &derived(&dd), &t.index_of(&dd, 5));
    let f = find(&units, &folder);
    assert_eq!(f.variant.package, None);
    assert!(f.variant.unknowns.iter().any(|x| x == "package"));
    assert!(
        f.coverage.supported,
        "partial metadata: still a DerivedData folder, still inspectable"
    );
}

// ---------------------------------------------------------------------
// What every adapter may claim
// ---------------------------------------------------------------------

#[test]
fn every_unit_is_its_containers_own_and_says_what_it_rests_on() {
    let mut t = Tree::new();
    let build = tmp().join("build");
    for name in ["classes", "libs", "jacocoHtml"] {
        t.dir(&build.join(name));
    }
    let c = BuildContainer::project("gradle", build.copy(), tmp());
    let units = run_gradle(&t, &c, &t.index_of(&build, 500));
    assert_eq!(units[0].path, build, "the container's own row comes first");
    assert_eq!(units.len(), 4);
    let ids: BTreeSet<&String> = units.iter().map(|u| &u.id).collect();
    assert_eq!(ids.len(), units.len(), "no two paths share an id");
    for u in &units {
        assert_eq!(u.container_id, Some(c.scope()));
        assert_eq!(u.adapter.as_deref(), Some("gradle"));
        assert_eq!(u.basis, AccountingBasis::Allocated);
        assert_eq!(u.time_source, TimeSource::FoldedDirectoryModification);
        assert_eq!((u.physical_bytes, u.growth_bytes, u.regrowth_count), (0, None, 0));
        assert_ne!(u.action, NestedActionCapability::TrashPath);
        assert!(u.coverage.supported || !u.coverage.limits.is_empty());
        assert!(!u.coverage.supported || !u.producer_evidence.is_empty());
    }
}

#[test]
fn a_build_folder_that_was_not_measured_itself_has_no_row() {
    let t = Tree::new();
    let root = tmp().join("DerivedData");
    let c = xcode_store(&root, BuildStoreKind::XcodeDerivedData);
    let units = run_xcode(&t, &c, &index(&[(&root.join("Build"), 10, 5)]));
    assert_eq!(units, vec![]);
    let units = run_xcode(&t, &c, &index(&[]));
    assert_eq!(units[0].path, root);
}

#[test]
fn a_family_row_says_what_its_members_say() {
    let c = container(&tmp());
    let unit = |name: &str, bytes: u64, at: u64, complete: bool| {
        supported(&c, ArtifactRole::Output, tmp().join(name))
            .bytes_on_basis(bytes, AccountingBasis::Allocated)
            .modified(at, TimeSource::FoldedDirectoryModification)
            .complete(complete)
            .build()
    };
    let units = vec![
        unit("c", 10, 300, true),
        unit("a", 500, 100, false),
        unit("b", 20, 0, true),
        supported(&c, ArtifactRole::TestOutput, tmp().join("t"))
            .bytes_on_basis(7, AccountingBasis::Allocated)
            .build(),
    ];
    let rows = summarize_families(&tmp(), &units);
    assert_eq!(rows.iter().map(|r| r.family).collect::<Vec<_>>(), vec![RoleFamily::Outputs, RoleFamily::Tests]);
    for row in &rows {
        let m = family_members(&tmp(), &units, row.family);
        assert_eq!(row.count, m.len());
        assert_eq!(row.bytes, m.iter().map(|u| u.bytes).sum::<u64>());
        assert!(m.iter().all(|u| u.basis == row.basis));
        assert_eq!(row.complete, m.iter().all(|u| u.coverage.complete));
    }
    assert_eq!(rows[0].oldest_modified, Some(100));
    assert_eq!(rows[0].unknown_age, 1);
    assert!(!rows[0].complete);
    let order: Vec<String> =
        family_members(&tmp(), &units, RoleFamily::Outputs).iter().map(|u| u.path.text()).collect();
    assert_eq!(order, ["a", "c", "b"].iter().map(|n| tmp().join(n).text()).collect::<Vec<_>>());
}

#[test]
fn a_family_that_nothing_reads_is_taken_whole() {
    let t = Tree::new();
    let repo = tmp().join("repo");
    let c = BuildContainer::shared_store_of("maven", repo.copy(), BuildStoreKind::MavenRepository);
    let units = t.run(&maven::Adapter, &c, &index(&[(&repo, 100, 5)]), 1_000);
    assert_eq!(units.len(), 1);
    assert_eq!(units[0].path, repo);
    assert_eq!(units[0].bytes, 100);
    assert!(!units[0].coverage.supported);
}

#[test]
fn a_pass_offers_only_what_an_adapter_stands_behind_and_replays_it() {
    let mut t = Tree::new();
    let root = tmp().join("app");
    t.put(&root.join("build.gradle"), "");
    t.dir(&root.join("build/libs"));
    t.dir(&root.join("build/jacocoHtml"));
    let home = tmp().join("gradle-home");
    t.dir(&home.join("caches/modules-2"));
    let stores = vec![BuildContainer::shared_store("gradle", home.copy())];
    let idx = t.index_of(&tmp(), 500);
    let facts = t.facts();
    let projects = vec![(root.copy(), vec![root.join("build")])];
    let untrusted = EventCoverage::untrusted();
    let disabled = ContainerCache::disabled();
    let mut ctx = BuildCtx::new(1_000, &idx, &untrusted, &disabled).with_facts(&facts);
    let first = identify_all(&Registry::default(), &projects, &facts, &stores, &mut ctx);
    let offered: Vec<String> =
        first.iter().filter(|u| u.action == NestedActionCapability::TrashPath).map(|u| u.path.text()).collect();
    assert!(offered.contains(&root.join("build/libs").text()), "{offered:?}");
    assert!(!offered.contains(&root.join("build/jacocoHtml").text()), "a layout that is not understood");
    assert!(offered.iter().all(|p| p.starts_with("/fixture/app/")), "nothing shared: {offered:?}");

    let cache = ContainerCache::from_previous(first.clone(), 1_000);
    let quiet = EventCoverage::trusted(tmp(), Vec::new(), 900);
    let empty = FoldedIndex::default();
    let none = FileFacts::none();
    let mut ctx = BuildCtx::new(2_000, &empty, &quiet, &cache).with_facts(&none);
    let again = identify_all(&Registry::default(), &projects, &facts, &stores, &mut ctx);
    assert_eq!(again, first, "nothing changed, so nothing is read and everything stays");
    let (at, _) = ctx.cache().stored(&stores[0].scope()).unwrap();
    assert_eq!(at, 2_000, "what is replayed is verified as of this pass");
}

#[test]
fn what_an_adapter_identified_reads_back_from_its_rows() {
    let mut t = Tree::new();
    let home = tmp().join("gradle-home");
    t.dir(&home.join("caches/modules-2/files-2.1/com.example/lib/1.0"));
    t.dir(&home.join("wrapper/dists/gradle-8.5-bin"));
    let c = BuildContainer::shared_store("gradle", home.copy());
    let units = run_gradle(&t, &c, &t.index_of(&home, 500));
    assert!(units.len() > 5);
    assert_eq!(decode(&encode(&units)), units);
}
