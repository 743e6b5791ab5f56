//! Android module build directories, native intermediates, the Android SDK and
//! virtual devices.
//!
//! A variant's build type, flavor and test set come from the directory names
//! the plugin records them in, never from evaluating a build script.

use super::adapter::{
    append_paths, claim_all, claimed, each, each_dir, filter_paths, find_part, flat, no_paths, no_units, one,
    part_named, views, BuildAdapter, BuildCapabilities, KnownPart, PartModel,
};
use super::builder::NestedUnitBuilder;
use super::container::{child_rows, dir_refs, BuildContainer, ContainerModel, DirModel, FoldedDir};
use super::context::{BuildCtx, CtxModel};
use super::gradle::{gradle_marker, has_marker};
use super::jvm_common::{gradle_build_entries, gradle_build_entries_spec};
use super::layout::{property, property_of};
use crate::artifact::{
    append_units, no_variant, relative, relative_path, units_view, ArtifactRole, ArtifactVariant, Confidence,
    Membership, NestedArtifact, UnitModel, VariantModel,
};
use crate::facts::{
    is_file_at, opt_manifest_ref, stat_of, whole_manifest_of, FactModel, FileFacts, Manifest, ManifestModel,
};
use crate::locations::BuildStoreKind;
use crate::path::{joined_path, name_of, parent, paths, push_path, FsPath, PathModel};
use crate::text::{
    after_prefix, all_hex, before_suffix, cat2, cat3, cat4, cat5, cat8, char_is_upper, chars_of, copy_opt, drop_prefix,
    drop_suffix, ends, finishes, is_upper, join_texts, joined, lower, lowered, only_hex, opt_text, push_text,
    replace_char, replaced, same, starts, text_of, texts,
};
use vstd::prelude::*;

verus! {

pub struct Adapter;

/// The build types the plugin defines by default.
pub open spec fn build_type_spec() -> Seq<Seq<char>> {
    seq!["debug"@, "release"@, "benchmark"@, "profile"@, "staging"@]
}

/// Whether a name is one of them.
pub fn is_build_type(name: &str) -> (r: bool)
    ensures
        r == build_type_spec().contains(name@),
{
    let ghost all = build_type_spec();
    if same(name, "debug") {
        assert(all[0] == name@);
        return true;
    }
    if same(name, "release") {
        assert(all[1] == name@);
        return true;
    }
    if same(name, "benchmark") {
        assert(all[2] == name@);
        return true;
    }
    if same(name, "profile") {
        assert(all[3] == name@);
        return true;
    }
    if same(name, "staging") {
        assert(all[4] == name@);
        return true;
    }
    assert forall|k: int| 0 <= k < all.len() implies all[k] != name@ by {
        assert(all[k] == "debug"@ || all[k] == "release"@ || all[k] == "benchmark"@ || all[k] == "profile"@ || all[k] == "staging"@);
    }
    false
}

/// The processor architectures native builds are laid out by.
pub open spec fn abi_spec() -> Seq<Seq<char>> {
    seq!["arm64-v8a"@, "armeabi-v7a"@, "x86"@, "x86_64"@, "riscv64"@]
}

/// Whether a name is one of them.
pub fn is_abi(name: &str) -> (r: bool)
    ensures
        r == abi_spec().contains(name@),
{
    let ghost all = abi_spec();
    if same(name, "arm64-v8a") {
        assert(all[0] == name@);
        return true;
    }
    if same(name, "armeabi-v7a") {
        assert(all[1] == name@);
        return true;
    }
    if same(name, "x86") {
        assert(all[2] == name@);
        return true;
    }
    if same(name, "x86_64") {
        assert(all[3] == name@);
        return true;
    }
    if same(name, "riscv64") {
        assert(all[4] == name@);
        return true;
    }
    assert forall|k: int| 0 <= k < all.len() implies all[k] != name@ by {
        assert(all[k] == "arm64-v8a"@ || all[k] == "armeabi-v7a"@ || all[k] == "x86"@ || all[k] == "x86_64"@ || all[k] == "riscv64"@);
    }
    false
}

/// Whether a module is an Android module: its manifest is where the plugin
/// requires it.
pub open spec fn android_module(p: PathModel, facts: Seq<FactModel>) -> bool {
    match parent(p) {
        Some(m) => is_file_at(facts, joined_path(m, "src/main/AndroidManifest.xml"@)),
        None => false,
    }
}

fn is_android_module(p: &FsPath, facts: &FileFacts) -> (r: bool)
    ensures
        r == android_module(p@, facts@),
{
    match p.parent() {
        Some(m) => facts.is_file(&m.join("src/main/AndroidManifest.xml")),
        None => false,
    }
}

pub open spec fn is_ours(facts: Seq<FactModel>, p: PathModel) -> bool {
    (name_of(p) == "build"@ && android_module(p, facts)) || name_of(p) == ".cxx"@ || name_of(p)
        == ".externalNativeBuild"@
}

/// The paths this adapter wants as containers.
pub open spec fn wanted(root: PathModel, candidates: Seq<PathModel>, facts: Seq<FactModel>) -> Seq<PathModel> {
    let app = joined_path(root, "app/build"@);
    let own = joined_path(root, "build"@);
    if has_marker(root, facts) {
        candidates.filter(|p: PathModel| is_ours(facts, p)) + (if android_module(app, facts) {
            seq![app]
        } else {
            Seq::empty()
        }) + (if android_module(own, facts) {
            seq![own]
        } else {
            Seq::empty()
        })
    } else {
        Seq::empty()
    }
}

fn paths_if(p: FsPath, facts: &FileFacts) -> (r: Vec<FsPath>)
    ensures
        paths(r@) == (if android_module(p@, facts@) {
            seq![p@]
        } else {
            Seq::empty()
        }),
{
    let mut v = no_paths();
    if is_android_module(&p, facts) {
        let ghost at = p@;
        push_path(&mut v, p);
        assert(paths(v@) =~= seq![at]);
    }
    v
}

impl BuildAdapter for Adapter {
    open spec fn trash_roles_spec(&self) -> Seq<ArtifactRole> {
        seq![ArtifactRole::Output, ArtifactRole::TestOutput, ArtifactRole::Intermediate]
    }

    open spec fn id_spec(&self) -> Seq<char> {
        "android"@
    }

    open spec fn name_spec(&self) -> Seq<char> {
        "Android"@
    }

    open spec fn capabilities_spec(&self) -> BuildCapabilities {
        BuildCapabilities {
            identifies_shared_stores: true,
            attributes_package_identity: false,
            actions_available: true,
        }
    }

    open spec fn store_kinds_spec(&self) -> Seq<BuildStoreKind> {
        seq![BuildStoreKind::AndroidSdkPackages, BuildStoreKind::AndroidVirtualDevices]
    }

    open spec fn containers_spec(&self, root: PathModel, candidates: Seq<PathModel>, facts: Seq<FactModel>) -> Seq<
        ContainerModel,
    > {
        claimed("android"@, wanted(root, candidates, facts), root, facts)
    }

    open spec fn identify_spec(&self, c: ContainerModel, ctx: CtxModel) -> Seq<UnitModel> {
        match c.store_kind {
            Some(BuildStoreKind::AndroidSdkPackages) => sdk_packages(c, ctx),
            Some(BuildStoreKind::AndroidVirtualDevices) => avds(c, ctx),
            _ => if name_of(c.path) == ".cxx"@ || name_of(c.path) == ".externalNativeBuild"@ {
                native(c, ctx)
            } else {
                module_build(c, ctx)
            },
        }
    }

    fn trash_roles(&self) -> (r: Vec<ArtifactRole>) {
        let r: Vec<ArtifactRole> = vec![ArtifactRole::Output, ArtifactRole::TestOutput, ArtifactRole::Intermediate];
        assert(r@ =~= self.trash_roles_spec());
        r
    }

    fn id(&self) -> (r: &'static str) {
        "android"
    }

    fn name(&self) -> (r: &'static str) {
        "Android"
    }

    fn capabilities(&self) -> (r: BuildCapabilities) {
        BuildCapabilities {
            identifies_shared_stores: true,
            attributes_package_identity: false,
            actions_available: true,
        }
    }

    fn store_kinds(&self) -> (r: Vec<BuildStoreKind>) {
        let r: Vec<BuildStoreKind> = vec![BuildStoreKind::AndroidSdkPackages, BuildStoreKind::AndroidVirtualDevices];
        assert(r@ =~= self.store_kinds_spec());
        r
    }

    fn containers(&self, project_root: &FsPath, candidates: &Vec<FsPath>, facts: &FileFacts) -> (r: Vec<
        BuildContainer,
    >) {
        let mut want = no_paths();
        if gradle_marker(project_root, facts) {
            want = filter_paths(
                candidates,
                |p: &FsPath| -> (keep: bool)
                    ensures
                        keep == is_ours(facts@, p@)
                    {
                        let name = p.name();
                        (same(name.as_str(), "build") && is_android_module(p, facts)) || same(
                            name.as_str(),
                            ".cxx",
                        ) || same(name.as_str(), ".externalNativeBuild")
                    },
                Ghost(|p: PathModel| is_ours(facts@, p)),
            );
            append_paths(&mut want, paths_if(project_root.join("app/build"), facts));
            append_paths(&mut want, paths_if(project_root.join("build"), facts));
        }
        claim_all("android", &want, project_root, facts)
    }

    fn identify(&self, container: &BuildContainer, ctx: &BuildCtx) -> (r: Vec<NestedArtifact>) {
        match container.store_kind {
            Some(BuildStoreKind::AndroidSdkPackages) => identify_sdk_packages(container, ctx),
            Some(BuildStoreKind::AndroidVirtualDevices) => identify_avds(container, ctx),
            _ => {
                let name = container.path.name();
                if same(name.as_str(), ".cxx") || same(name.as_str(), ".externalNativeBuild") {
                    identify_native(container, ctx)
                } else {
                    identify_module_build(container, ctx)
                }
            },
        }
    }
}

// ---------------------------------------------------------------------
// Variant names
// ---------------------------------------------------------------------

/// What a variant's name says: flavor, build type and test set.
pub struct VariantName {
    pub flavor: Option<Seq<char>>,
    pub build_type: Option<Seq<char>>,
    pub test: Option<Seq<char>>,
}

pub open spec fn splits_at_type(base: Seq<char>, bt: Seq<char>) -> bool {
    finishes(lowered(base), bt) && base.len() > bt.len() > 0 && is_upper(base[base.len() - bt.len()])
}

/// The split of `base`, with the build types tried from place `i` on.
pub open spec fn base_split(base: Seq<char>, i: int) -> (Option<Seq<char>>, Option<Seq<char>>)
    decreases build_type_spec().len() - i,
{
    if i < 0 || i >= build_type_spec().len() {
        (None, None)
    } else {
        let bt = build_type_spec()[i];
        if lowered(base) == bt {
            (None, Some(bt))
        } else if splits_at_type(base, bt) {
            (Some(base.take(base.len() - bt.len())), Some(bt))
        } else {
            base_split(base, i + 1)
        }
    }
}

/// A name without its test suffix, and the test set the suffix names.
pub open spec fn test_split(name: Seq<char>) -> (Seq<char>, Option<Seq<char>>) {
    match before_suffix(name, "AndroidTest"@) {
        Some(b) => (b, Some("androidTest"@)),
        None => match before_suffix(name, "UnitTest"@) {
            Some(b) => (b, Some("unitTest"@)),
            None => (name, None),
        },
    }
}

pub open spec fn variant_name(name: Seq<char>) -> VariantName {
    let (base, test) = test_split(name);
    let (flavor, build_type) = base_split(base, 0);
    VariantName { flavor, build_type, test }
}

fn try_type(base: &str, bt: &'static str) -> (r: Option<Option<String>>)
    ensures
        match r {
            Some(None) => lowered(base@) == bt@,
            Some(Some(flavor)) => lowered(base@) != bt@ && splits_at_type(base@, bt@) && flavor@ == base@.take(
                base@.len() - bt@.len(),
            ),
            None => lowered(base@) != bt@ && !splits_at_type(base@, bt@),
        },
{
    let low = lower(base);
    if same(low.as_str(), bt) {
        return Some(None);
    }
    let v = chars_of(base);
    let n: usize = v.len();
    let t: usize = bt.unicode_len();
    if ends(low.as_str(), bt) && n > t && t > 0 && char_is_upper(v[n - t]) {
        let flavor = text_of(&v, 0, n - t);
        assert(flavor@ =~= base@.take(base@.len() - bt@.len()));
        Some(Some(flavor))
    } else {
        None
    }
}

/// The flavor, build type and test set a variant's name says. A name that ends
/// in no known build type is kept whole, never guessed.
pub fn split_variant(name: &str) -> (r: (Option<String>, Option<String>, Option<&'static str>))
    ensures
        opt_text(r.0) == variant_name(name@).flavor,
        opt_text(r.1) == variant_name(name@).build_type,
        crate::json::opt_str(r.2) == variant_name(name@).test,
{
    let (base, test): (String, Option<&'static str>) = match drop_suffix(name, "AndroidTest") {
        Some(b) => (b, Some("androidTest")),
        None => match drop_suffix(name, "UnitTest") {
            Some(b) => (b, Some("unitTest")),
            None => (name.to_owned(), None),
        },
    };
    let (flavor, build_type) = split_base(base.as_str());
    (flavor, build_type, test)
}

fn split_base(base: &str) -> (r: (Option<String>, Option<String>))
    ensures
        (opt_text(r.0), opt_text(r.1)) == base_split(base@, 0),
{
    proof {
        reveal_with_fuel(base_split, 6);
    }
    match try_type(base, "debug") {
        Some(flavor) => {
            return (flavor, Some("debug".to_owned()));
        },
        None => {},
    }
    match try_type(base, "release") {
        Some(flavor) => {
            return (flavor, Some("release".to_owned()));
        },
        None => {},
    }
    match try_type(base, "benchmark") {
        Some(flavor) => {
            return (flavor, Some("benchmark".to_owned()));
        },
        None => {},
    }
    match try_type(base, "profile") {
        Some(flavor) => {
            return (flavor, Some("profile".to_owned()));
        },
        None => {},
    }
    match try_type(base, "staging") {
        Some(flavor) => {
            return (flavor, Some("staging".to_owned()));
        },
        None => {},
    }
    (None, None)
}

/// A flavor and a build type put together again are the name they were split
/// from, but for the capital that marks the boundary; and a flavor is never
/// found without a build type.
pub proof fn law_split_names_join_again(base: Seq<char>, i: int)
    requires
        0 <= i,
    ensures
        ({
            let (flavor, build_type) = base_split(base, i);
            &&& flavor is Some ==> build_type is Some && lowered(flavor->0) + build_type->0 == lowered(base)
            &&& flavor is None && build_type is Some ==> lowered(base) == build_type->0
            &&& build_type is Some ==> build_type_spec().contains(build_type->0)
        }),
    decreases build_type_spec().len() - i,
{
    if i < build_type_spec().len() {
        let bt = build_type_spec()[i];
        if lowered(base) != bt && splits_at_type(base, bt) {
            let cut = base.len() - bt.len();
            assert(lowered(base).skip(cut) == bt);
            assert(lowered(base.take(cut)) + bt =~= lowered(base));
        } else if lowered(base) != bt {
            law_split_names_join_again(base, i + 1);
        }
    }
}

/// What a variant's name makes of a unit.
pub open spec fn variant_for(name: Seq<char>) -> VariantModel {
    let n = variant_name(name);
    let v = VariantModel {
        profile: n.build_type,
        features: n.flavor,
        configuration: Some(name),
        target: n.test,
        ..no_variant()
    };
    if n.build_type is None {
        v.unknown("profile"@).unknown("build-generation"@)
    } else {
        v.unknown("build-generation"@)
    }
}

pub fn variant_of(name: &str) -> (r: ArtifactVariant)
    ensures
        r@ == variant_for(name@),
{
    let (flavor, build_type, test) = split_variant(name);
    let known = build_type.is_some();
    let mut v = ArtifactVariant::none();
    v.profile = build_type;
    v.features = flavor;
    v.configuration = Some(name.to_owned());
    v.target = match test {
        Some(t) => Some(t.to_owned()),
        None => None,
    };
    if !known {
        v.unknown("profile").unknown("build-generation")
    } else {
        v.unknown("build-generation")
    }
}

// ---------------------------------------------------------------------
// Module build directories
// ---------------------------------------------------------------------

pub open spec fn module_name(c: ContainerModel) -> Seq<char> {
    match parent(c.path) {
        Some(p) => name_of(p),
        None => Seq::empty(),
    }
}

/// A module build directory's own unit.
pub open spec fn module_root(c: ContainerModel, ctx: CtxModel) -> UnitModel {
    UnitModel::container_root(c, ctx, ArtifactRole::Output).supported(
        "the build directory of the Android module `"@ + module_name(c)
            + "` (its manifest is at src/main/AndroidManifest.xml)"@,
    ).evidence("android-layout"@, "module "@ + module_name(c), Confidence::Medium).consequence(
        "the next Gradle build of this module regenerates it"@,
    )
}

fn identify_module_root(container: &BuildContainer, ctx: &BuildCtx) -> (r: NestedArtifact)
    ensures
        r@ == module_root(container@, ctx@),
{
    let module = match container.path.parent() {
        Some(p) => p.name(),
        None => {
            let s = String::new();
            assert(s@ =~= Seq::<char>::empty());
            s
        },
    };
    let reason = cat3(
        "the build directory of the Android module `",
        module.as_str(),
        "` (its manifest is at src/main/AndroidManifest.xml)",
    );
    let detail = cat2("module ", module.as_str());
    NestedUnitBuilder::container_root(container, ctx, ArtifactRole::Output).supported_with_reason(
        reason.as_str(),
    ).evidence("android-layout", detail.as_str(), Confidence::Medium).consequence(
        "the next Gradle build of this module regenerates it",
    ).build()
}

/// One directory of a module's build directory.
pub open spec fn module_child(c: ContainerModel, ctx: CtxModel, d: DirModel) -> Seq<UnitModel> {
    let name = name_of(d.path);
    if name == "outputs"@ {
        outputs(c, ctx, d.path)
    } else if name == "intermediates"@ {
        per_task(
            c,
            ctx,
            d.path,
            ArtifactRole::Intermediate,
            "the Android Gradle plugin's intermediates for one task type"@,
            "the next build of those variants regenerates them (a slower build)"@,
        )
    } else if name == "test-results"@ || name == "reports"@ {
        test_dirs(c, ctx, d.path)
    } else {
        match part_named(gradle_build_entries_spec(), name) {
            Some(p) => seq![
                UnitModel::known_dir(
                    c,
                    p.role,
                    d,
                    "`build/"@ + name + "` is part of Gradle's conventional build layout"@,
                    p.consequence,
                ),
            ],
            None => seq![
                UnitModel::unknown_dir(
                    c,
                    d,
                    "`build/"@ + name
                        + "` is not part of the Gradle or Android plugin layout; a plugin chose it, and swamp never evaluates build scripts"@,
                ),
            ],
        }
    }
}

fn identify_module_child(container: &BuildContainer, ctx: &BuildCtx, d: &FoldedDir) -> (r: Vec<NestedArtifact>)
    ensures
        units_view(r@) == module_child(container@, ctx@, d@),
{
    let owned = d.path.name();
    let name = owned.as_str();
    if same(name, "outputs") {
        identify_outputs(container, ctx, &d.path)
    } else if same(name, "intermediates") {
        identify_per_task(
            container,
            ctx,
            &d.path,
            ArtifactRole::Intermediate,
            "the Android Gradle plugin's intermediates for one task type",
            "the next build of those variants regenerates them (a slower build)",
        )
    } else if same(name, "test-results") || same(name, "reports") {
        identify_test_dirs(container, ctx, &d.path)
    } else {
        let table = gradle_build_entries();
        match find_part(&table, name) {
            Some(p) => {
                let reason = cat3("`build/", name, "` is part of Gradle's conventional build layout");
                one(
                    NestedUnitBuilder::known_dir(container, p.role, d, reason.as_str(), p.consequence).build(),
                )
            },
            None => {
                let limit = cat3(
                    "`build/",
                    name,
                    "` is not part of the Gradle or Android plugin layout; a plugin chose it, and swamp never evaluates build scripts",
                );
                one(NestedUnitBuilder::unknown_dir(container, d, limit.as_str()).build())
            },
        }
    }
}

pub open spec fn module_build(c: ContainerModel, ctx: CtxModel) -> Seq<UnitModel> {
    seq![module_root(c, ctx)] + flat(child_rows(ctx.rows, c.path), |d: DirModel| module_child(c, ctx, d))
}

pub fn identify_module_build(container: &BuildContainer, ctx: &BuildCtx) -> (r: Vec<NestedArtifact>)
    ensures
        units_view(r@) == module_build(container@, ctx@),
{
    let mut units = one(identify_module_root(container, ctx));
    let dirs = ctx.folded().children(&container.path);
    let more = each_dir(
        &dirs,
        |d: &FoldedDir| -> (out: Vec<NestedArtifact>)
            ensures
                units_view(out@) == module_child(container@, ctx@, d@)
            { identify_module_child(container, ctx, d) },
        Ghost(|d: DirModel| module_child(container@, ctx@, d)),
    );
    append_units(&mut units, more);
    units
}

/// What one kind of variant output is.
pub open spec fn output_kind(k: Seq<char>) -> Option<PartModel> {
    part_named(output_kinds_spec(), k)
}

/// The outputs laid out by variant.
pub open spec fn output_kinds_spec() -> Seq<PartModel> {
    seq![
        PartModel {
            name: "apk"@,
            role: ArtifactRole::Output,
            what: "an APK"@,
            consequence: "the next assemble of this variant builds it again"@,
        },
        PartModel {
            name: "bundle"@,
            role: ArtifactRole::Output,
            what: "an app bundle"@,
            consequence: "the next bundle task for this variant builds it again"@,
        },
        PartModel {
            name: "mapping"@,
            role: ArtifactRole::Metadata,
            what: "R8/ProGuard mapping files"@,
            consequence: "the next minified build writes a new mapping, which matches only that build; a mapping for a build already shipped is not regenerated"@,
        },
        PartModel {
            name: "native-debug-symbols"@,
            role: ArtifactRole::Metadata,
            what: "native debug symbols"@,
            consequence: "the next build writes new symbols, matching only that build"@,
        },
    ]
}

fn output_kinds() -> (r: Vec<KnownPart>)
    ensures
        views(r@) == output_kinds_spec(),
{
    let r: Vec<KnownPart> = vec![
        KnownPart {
            name: "apk",
            role: ArtifactRole::Output,
            what: "an APK",
            consequence: "the next assemble of this variant builds it again",
        },
        KnownPart {
            name: "bundle",
            role: ArtifactRole::Output,
            what: "an app bundle",
            consequence: "the next bundle task for this variant builds it again",
        },
        KnownPart {
            name: "mapping",
            role: ArtifactRole::Metadata,
            what: "R8/ProGuard mapping files",
            consequence: "the next minified build writes a new mapping, which matches only that build; a mapping for a build already shipped is not regenerated",
        },
        KnownPart {
            name: "native-debug-symbols",
            role: ArtifactRole::Metadata,
            what: "native debug symbols",
            consequence: "the next build writes new symbols, matching only that build",
        },
    ];
    assert(views(r@) =~= output_kinds_spec());
    r
}

/// Whether any row is named for a build type.
pub open spec fn has_build_type(rows: Seq<DirModel>) -> bool {
    exists|i: int| 0 <= i < rows.len() && build_type_spec().contains(name_of(#[trigger] rows[i].path))
}

fn any_build_type(dirs: &Vec<&FoldedDir>) -> (r: bool)
    ensures
        r == has_build_type(dir_refs(dirs@)),
{
    let mut i: usize = 0;
    while i < dirs.len()
        invariant
            i <= dirs@.len(),
            forall|k: int| 0 <= k < i ==> !build_type_spec().contains(name_of(#[trigger] dir_refs(dirs@)[k].path)),
        decreases dirs@.len() - i,
    {
        let name = dirs[i].path.name();
        assert(dir_refs(dirs@)[i as int] == dirs@[i as int]@);
        if is_build_type(name.as_str()) {
            assert(build_type_spec().contains(name_of(dir_refs(dirs@)[i as int].path)));
            return true;
        }
        i += 1;
    }
    false
}

/// One build type of one flavor's output; nothing for any other directory.
pub open spec fn flavor_output(c: ContainerModel, p: PartModel, flavor: Seq<char>, d: DirModel) -> Seq<UnitModel> {
    let bt = name_of(d.path);
    if build_type_spec().contains(bt) {
        seq![
            UnitModel::known_dir(
                c,
                p.role,
                d,
                "`outputs/"@ + p.name + "/"@ + flavor + "/"@ + bt + "` holds "@ + p.what + " for flavor "@ + flavor,
                p.consequence,
            ).variant(
                VariantModel {
                    features: Some(flavor),
                    configuration: Some(flavor + "/"@ + bt),
                    ..variant_for(bt)
                },
            ),
        ]
    } else {
        Seq::empty()
    }
}

fn identify_flavor_output(container: &BuildContainer, p: &KnownPart, flavor: &str, d: &FoldedDir) -> (r: Vec<NestedArtifact>)
    ensures
        units_view(r@) == flavor_output(container@, p@, flavor@, d@),
{
    let bt = d.path.name();
    if is_build_type(bt.as_str()) {
        let mut reason = cat8("`outputs/", p.name, "/", flavor, "/", bt.as_str(), "` holds ", p.what);
        reason.append(" for flavor ");
        reason.append(flavor);
        let mut v = variant_of(bt.as_str());
        v.features = Some(flavor.to_owned());
        v.configuration = Some(cat3(flavor, "/", bt.as_str()));
        one(
            NestedUnitBuilder::known_dir(container, p.role, d, reason.as_str(), p.consequence).variant(v).build(),
        )
    } else {
        no_units()
    }
}

/// One variant's output, or one flavor's outputs by build type.
pub open spec fn variant_output(c: ContainerModel, ctx: CtxModel, p: PartModel, d: DirModel) -> Seq<UnitModel> {
    let name = name_of(d.path);
    let inside = child_rows(ctx.rows, d.path);
    if p.name == "apk"@ && has_build_type(inside) {
        flat(inside, |x: DirModel| flavor_output(c, p, name, x))
    } else {
        seq![
            UnitModel::known_dir(
                c,
                p.role,
                d,
                "`outputs/"@ + p.name + "/"@ + name + "` holds "@ + p.what + " for variant "@ + name,
                p.consequence,
            ).variant(variant_for(name)),
        ]
    }
}

fn identify_variant_output(container: &BuildContainer, ctx: &BuildCtx, p: &KnownPart, d: &FoldedDir) -> (r: Vec<NestedArtifact>)
    ensures
        units_view(r@) == variant_output(container@, ctx@, p@, d@),
{
    let owned = d.path.name();
    let name = owned.as_str();
    let inside = ctx.folded().children(&d.path);
    if same(p.name, "apk") && any_build_type(&inside) {
        each_dir(
            &inside,
            |x: &FoldedDir| -> (out: Vec<NestedArtifact>)
                ensures
                    units_view(out@) == flavor_output(container@, p@, name@, x@)
                { identify_flavor_output(container, p, name, x) },
            Ghost(|x: DirModel| flavor_output(container@, p@, name@, x)),
        )
    } else {
        let reason = cat8("`outputs/", p.name, "/", name, "` holds ", p.what, " for variant ", name);
        one(
            NestedUnitBuilder::known_dir(container, p.role, d, reason.as_str(), p.consequence).variant(
                variant_of(name),
            ).build(),
        )
    }
}

/// One directory of `outputs`.
pub open spec fn output_child(c: ContainerModel, ctx: CtxModel, d: DirModel) -> Seq<UnitModel> {
    let k = name_of(d.path);
    match output_kind(k) {
        Some(p) => flat(child_rows(ctx.rows, d.path), |v: DirModel| variant_output(c, ctx, p, v)),
        None => if k == "aar"@ {
            seq![
                UnitModel::known_dir(
                    c,
                    ArtifactRole::Output,
                    d,
                    "`outputs/aar` holds the library's packaged archives"@,
                    "the next assemble packages them again"@,
                ),
            ]
        } else if k == "logs"@ || k == "sdk-dependencies"@ {
            seq![
                UnitModel::known_dir(
                    c,
                    ArtifactRole::Metadata,
                    d,
                    "`outputs/"@ + k + "` is the plugin's own bookkeeping"@,
                    "the next build rewrites it"@,
                ),
            ]
        } else {
            seq![
                UnitModel::unknown_dir(
                    c,
                    d,
                    "`outputs/"@ + k + "` is not an output type this adapter identifies"@,
                ),
            ]
        },
    }
}

fn identify_output_child(container: &BuildContainer, ctx: &BuildCtx, d: &FoldedDir) -> (r: Vec<NestedArtifact>)
    ensures
        units_view(r@) == output_child(container@, ctx@, d@),
{
    let owned = d.path.name();
    let k = owned.as_str();
    let table = output_kinds();
    match find_part(&table, k) {
        Some(p) => {
            let dirs = ctx.folded().children(&d.path);
            each_dir(
                &dirs,
                |v: &FoldedDir| -> (out: Vec<NestedArtifact>)
                    ensures
                        units_view(out@) == variant_output(container@, ctx@, p@, v@)
                    { identify_variant_output(container, ctx, p, v) },
                Ghost(|v: DirModel| variant_output(container@, ctx@, p@, v)),
            )
        },
        None => {
            if same(k, "aar") {
                one(
                    NestedUnitBuilder::known_dir(
                        container,
                        ArtifactRole::Output,
                        d,
                        "`outputs/aar` holds the library's packaged archives",
                        "the next assemble packages them again",
                    ).build(),
                )
            } else if same(k, "logs") || same(k, "sdk-dependencies") {
                let reason = cat3("`outputs/", k, "` is the plugin's own bookkeeping");
                one(
                    NestedUnitBuilder::known_dir(
                        container,
                        ArtifactRole::Metadata,
                        d,
                        reason.as_str(),
                        "the next build rewrites it",
                    ).build(),
                )
            } else {
                let limit = cat3("`outputs/", k, "` is not an output type this adapter identifies");
                one(NestedUnitBuilder::unknown_dir(container, d, limit.as_str()).build())
            }
        },
    }
}

pub open spec fn outputs(c: ContainerModel, ctx: CtxModel, dir: PathModel) -> Seq<UnitModel> {
    flat(child_rows(ctx.rows, dir), |d: DirModel| output_child(c, ctx, d))
}

pub fn identify_outputs(container: &BuildContainer, ctx: &BuildCtx, dir: &FsPath) -> (r: Vec<NestedArtifact>)
    ensures
        units_view(r@) == outputs(container@, ctx@, dir@),
{
    let dirs = ctx.folded().children(dir);
    each_dir(
        &dirs,
        |d: &FoldedDir| -> (out: Vec<NestedArtifact>)
            ensures
                units_view(out@) == output_child(container@, ctx@, d@)
            { identify_output_child(container, ctx, d) },
        Ghost(|d: DirModel| output_child(container@, ctx@, d)),
    )
}

/// The names of rows.
pub open spec fn row_names(rows: Seq<DirModel>) -> Seq<Seq<char>> {
    Seq::new(rows.len(), |i: int| name_of(rows[i].path))
}

fn names_of(dirs: &Vec<&FoldedDir>) -> (r: Vec<String>)
    ensures
        texts(r@) == row_names(dir_refs(dirs@)),
{
    let ghost rows = dir_refs(dirs@);
    let mut out: Vec<String> = Vec::new();
    let mut i: usize = 0;
    assert(texts(out@) =~= row_names(rows).take(0));
    while i < dirs.len()
        invariant
            i <= dirs@.len(),
            rows == dir_refs(dirs@),
            texts(out@) == row_names(rows).take(i as int),
        decreases dirs@.len() - i,
    {
        let name = dirs[i].path.name();
        push_text(&mut out, name.as_str());
        i += 1;
        assert(texts(out@) =~= row_names(rows).take(i as int));
    }
    assert(row_names(rows).take(i as int) =~= row_names(rows));
    out
}

/// One task type's directory, naming the variants it holds.
pub open spec fn task_unit(
    c: ContainerModel,
    ctx: CtxModel,
    role: ArtifactRole,
    what: Seq<char>,
    consequence: Seq<char>,
    d: DirModel,
) -> Seq<UnitModel> {
    let variants = row_names(child_rows(ctx.rows, d.path));
    seq![
        UnitModel::known_dir(
            c,
            role,
            d,
            "`"@ + relative(c.path, d.path) + "` holds "@ + what,
            consequence,
        ).variant(
            VariantModel {
                target: Some(name_of(d.path)),
                configuration: if variants.len() > 0 {
                    Some(joined(variants, ", "@))
                } else {
                    None
                },
                ..no_variant()
            },
        ),
    ]
}

fn identify_task(
    container: &BuildContainer,
    ctx: &BuildCtx,
    role: ArtifactRole,
    what: &str,
    consequence: &str,
    d: &FoldedDir,
) -> (r: Vec<NestedArtifact>)
    ensures
        units_view(r@) == task_unit(container@, ctx@, role, what@, consequence@, d@),
{
    let inside = ctx.folded().children(&d.path);
    let variants = names_of(&inside);
    let rel = relative_path(&container.path, &d.path);
    let reason = cat4("`", rel.as_str(), "` holds ", what);
    let mut v = ArtifactVariant::none();
    v.target = Some(d.path.name());
    v.configuration = if variants.len() > 0 {
        Some(join_texts(&variants, ", "))
    } else {
        None
    };
    one(NestedUnitBuilder::known_dir(container, role, d, reason.as_str(), consequence).variant(v).build())
}

pub open spec fn per_task(
    c: ContainerModel,
    ctx: CtxModel,
    dir: PathModel,
    role: ArtifactRole,
    what: Seq<char>,
    consequence: Seq<char>,
) -> Seq<UnitModel> {
    flat(child_rows(ctx.rows, dir), |d: DirModel| task_unit(c, ctx, role, what, consequence, d))
}

pub fn identify_per_task(
    container: &BuildContainer,
    ctx: &BuildCtx,
    dir: &FsPath,
    role: ArtifactRole,
    what: &str,
    consequence: &str,
) -> (r: Vec<NestedArtifact>)
    ensures
        units_view(r@) == per_task(container@, ctx@, dir@, role, what@, consequence@),
{
    let dirs = ctx.folded().children(dir);
    each_dir(
        &dirs,
        |d: &FoldedDir| -> (out: Vec<NestedArtifact>)
            ensures
                units_view(out@) == task_unit(container@, ctx@, role, what@, consequence@, d@)
            { identify_task(container, ctx, role, what, consequence, d) },
        Ghost(|d: DirModel| task_unit(container@, ctx@, role, what@, consequence@, d)),
    )
}

/// The variant of a `test<Variant>UnitTest` task, told with its suffix; nothing
/// of any other name.
pub open spec fn tested_variant(name: Seq<char>) -> Option<Seq<char>> {
    match after_prefix(name, "test"@) {
        Some(rest) => match before_suffix(rest, "UnitTest"@) {
            Some(variant) => if variant.len() > 0 {
                Some(rest)
            } else {
                None
            },
            None => None,
        },
        None => None,
    }
}

fn read_tested_variant(name: &str) -> (r: Option<String>)
    ensures
        opt_text(r) == tested_variant(name@),
{
    match drop_prefix(name, "test") {
        Some(rest) => match drop_suffix(rest.as_str(), "UnitTest") {
            Some(variant) => if !variant.as_str().is_empty() {
                Some(rest)
            } else {
                None
            },
            None => None,
        },
        None => None,
    }
}

/// One directory of test output, with the variant of a unit-test task where its
/// name is one.
pub open spec fn test_dir(c: ContainerModel, above: Seq<char>, d: DirModel) -> Seq<UnitModel> {
    let name = name_of(d.path);
    seq![
        UnitModel::known_dir(
            c,
            ArtifactRole::TestOutput,
            d,
            "`"@ + above + "/"@ + name + "` is test output"@,
            "the next test run for this variant regenerates it"@,
        ).variant(
            match tested_variant(name) {
                Some(rest) => variant_for(rest),
                None => no_variant().with_target(name),
            },
        ),
    ]
}

fn identify_test_dir(container: &BuildContainer, above: &str, d: &FoldedDir) -> (r: Vec<NestedArtifact>)
    ensures
        units_view(r@) == test_dir(container@, above@, d@),
{
    let name = d.path.name();
    let v = match read_tested_variant(name.as_str()) {
        Some(rest) => variant_of(rest.as_str()),
        None => ArtifactVariant::none().with_target(name.as_str()),
    };
    let reason = cat5("`", above, "/", name.as_str(), "` is test output");
    one(
        NestedUnitBuilder::known_dir(
            container,
            ArtifactRole::TestOutput,
            d,
            reason.as_str(),
            "the next test run for this variant regenerates it",
        ).variant(v).build(),
    )
}

pub open spec fn test_dirs(c: ContainerModel, ctx: CtxModel, dir: PathModel) -> Seq<UnitModel> {
    flat(child_rows(ctx.rows, dir), |d: DirModel| test_dir(c, name_of(dir), d))
}

pub fn identify_test_dirs(container: &BuildContainer, ctx: &BuildCtx, dir: &FsPath) -> (r: Vec<NestedArtifact>)
    ensures
        units_view(r@) == test_dirs(container@, ctx@, dir@),
{
    let above = dir.name();
    let dirs = ctx.folded().children(dir);
    each_dir(
        &dirs,
        |d: &FoldedDir| -> (out: Vec<NestedArtifact>)
            ensures
                units_view(out@) == test_dir(container@, name_of(dir@), d@)
            { identify_test_dir(container, above.as_str(), d) },
        Ghost(|d: DirModel| test_dir(container@, name_of(dir@), d)),
    )
}

// ---------------------------------------------------------------------
// Native intermediates
// ---------------------------------------------------------------------

/// The first name of a trail that is neither `cmake` nor a hash, from place `i`
/// on; nothing when there is none.
pub open spec fn trail_variant(trail: Seq<Seq<char>>, i: int) -> Seq<char>
    decreases trail.len() - i,
{
    if i < 0 || i >= trail.len() {
        Seq::empty()
    } else if trail[i] != "cmake"@ && !all_hex(trail[i]) {
        trail[i]
    } else {
        trail_variant(trail, i + 1)
    }
}

fn find_trail_variant(trail: &Vec<String>) -> (r: String)
    ensures
        r@ == trail_variant(texts(trail@), 0),
{
    let ghost all = texts(trail@);
    let mut i: usize = 0;
    while i < trail.len()
        invariant
            i <= trail@.len(),
            all == texts(trail@),
            trail_variant(all, 0) == trail_variant(all, i as int),
        decreases trail@.len() - i,
    {
        let t = trail[i].as_str();
        assert(all[i as int] == t@);
        if !same(t, "cmake") && !only_hex(t) {
            return t.to_owned();
        }
        i += 1;
    }
    let s = String::new();
    assert(s@ =~= Seq::<char>::empty());
    s
}

/// One variant's native build for one architecture.
pub open spec fn native_leaf(c: ContainerModel, d: DirModel, trail: Seq<Seq<char>>) -> UnitModel {
    let name = name_of(d.path);
    UnitModel::known_dir(
        c,
        ArtifactRole::Intermediate,
        d,
        "`"@ + relative(c.path, d.path) + "` holds one variant's native build for "@ + name,
        "the next native build of this variant and ABI reconfigures and recompiles"@,
    ).variant(VariantModel { architecture: Some(name), ..variant_for(lowered(trail_variant(trail, 0))) }).limit(
        "a hash component in this path is the plugin's configuration key; its inputs are not recorded"@,
    )
}

fn identify_native_leaf(container: &BuildContainer, d: &FoldedDir, trail: &Vec<String>) -> (r: NestedArtifact)
    ensures
        r@ == native_leaf(container@, d@, texts(trail@)),
{
    let name = d.path.name();
    let rel = relative_path(&container.path, &d.path);
    let reason = cat4("`", rel.as_str(), "` holds one variant's native build for ", name.as_str());
    let variant = find_trail_variant(trail);
    let low = lower(variant.as_str());
    let mut v = variant_of(low.as_str());
    v.architecture = Some(name);
    NestedUnitBuilder::known_dir(
        container,
        ArtifactRole::Intermediate,
        d,
        reason.as_str(),
        "the next native build of this variant and ABI reconfigures and recompiles",
    ).variant(v).limit(
        "a hash component in this path is the plugin's configuration key; its inputs are not recorded",
    ).build()
}

/// What is under one directory of a native build, `trail` being the names that
/// lead to it: an architecture's build, or what is inside, or after four names
/// nothing this adapter identifies.
pub open spec fn native_dir(c: ContainerModel, ctx: CtxModel, d: DirModel, trail: Seq<Seq<char>>, depth: nat) -> Seq<
    UnitModel,
>
    decreases depth, 0nat,
{
    if abi_spec().contains(name_of(d.path)) {
        seq![native_leaf(c, d, trail)]
    } else if depth == 0 {
        seq![
            UnitModel::unknown_dir(
                c,
                d,
                "`"@ + relative(c.path, d.path) + "` holds no ABI directory this adapter identifies"@,
            ),
        ]
    } else {
        native_rows(c, ctx, child_rows(ctx.rows, d.path), trail, (depth - 1) as nat)
    }
}

/// What is under each row, the last row first.
pub open spec fn native_rows(
    c: ContainerModel,
    ctx: CtxModel,
    rows: Seq<DirModel>,
    trail: Seq<Seq<char>>,
    depth: nat,
) -> Seq<UnitModel>
    decreases depth, 1 + rows.len(),
{
    if rows.len() == 0 {
        Seq::empty()
    } else {
        native_dir(c, ctx, rows.last(), trail.push(name_of(rows.last().path)), depth) + native_rows(
            c,
            ctx,
            rows.drop_last(),
            trail,
            depth,
        )
    }
}

fn identify_native_dir(
    container: &BuildContainer,
    ctx: &BuildCtx,
    d: &FoldedDir,
    trail: &Vec<String>,
    depth: u32,
) -> (r: Vec<NestedArtifact>)
    ensures
        units_view(r@) == native_dir(container@, ctx@, d@, texts(trail@), depth as nat),
    decreases depth, 0nat,
{
    let name = d.path.name();
    if is_abi(name.as_str()) {
        return one(identify_native_leaf(container, d, trail));
    }
    if depth == 0 {
        let rel = relative_path(&container.path, &d.path);
        let limit = cat3("`", rel.as_str(), "` holds no ABI directory this adapter identifies");
        return one(NestedUnitBuilder::unknown_dir(container, d, limit.as_str()).build());
    }
    let dirs = ctx.folded().children(&d.path);
    identify_native_rows(container, ctx, &dirs, trail, depth - 1)
}

fn identify_native_rows(
    container: &BuildContainer,
    ctx: &BuildCtx,
    dirs: &Vec<&FoldedDir>,
    trail: &Vec<String>,
    depth: u32,
) -> (r: Vec<NestedArtifact>)
    ensures
        units_view(r@) == native_rows(container@, ctx@, dir_refs(dirs@), texts(trail@), depth as nat),
    decreases depth, 1nat,
{
    let ghost rows = dir_refs(dirs@);
    let mut units = no_units();
    let mut i: usize = dirs.len();
    assert(rows.take(i as int) =~= rows);
    assert(units_view(units@) + native_rows(container@, ctx@, rows, texts(trail@), depth as nat) =~= native_rows(
        container@,
        ctx@,
        rows,
        texts(trail@),
        depth as nat,
    ));
    while i > 0
        invariant
            i <= dirs@.len(),
            rows == dir_refs(dirs@),
            units_view(units@) + native_rows(
                container@,
                ctx@,
                rows.take(i as int),
                texts(trail@),
                depth as nat,
            ) == native_rows(container@, ctx@, rows, texts(trail@), depth as nat),
        decreases i,
    {
        let d = dirs[i - 1];
        let ghost before = units_view(units@);
        assert(rows.take(i as int).last() == d@);
        assert(rows.take(i as int).drop_last() =~= rows.take(i - 1));
        let mut longer = crate::text::copy_all(trail);
        let name = d.path.name();
        push_text(&mut longer, name.as_str());
        let more = identify_native_dir(container, ctx, d, &longer, depth);
        let ghost added = units_view(more@);
        append_units(&mut units, more);
        proof {
            let rest = native_rows(container@, ctx@, rows.take(i - 1), texts(trail@), depth as nat);
            assert(before + (added + rest) =~= (before + added) + rest);
        }
        i -= 1;
    }
    assert(rows.take(0).len() == 0);
    assert(units_view(units@) + Seq::<UnitModel>::empty() =~= units_view(units@));
    units
}

/// `.cxx` and `.externalNativeBuild`: one unit per variant and architecture.
pub open spec fn native(c: ContainerModel, ctx: CtxModel) -> Seq<UnitModel> {
    seq![
        UnitModel::container_root(c, ctx, ArtifactRole::Intermediate).supported(
            "the NDK/CMake intermediates the Android Gradle plugin keeps"@,
        ).consequence("the next native build reconfigures and recompiles (a slower build)"@),
    ] + native_rows(c, ctx, child_rows(ctx.rows, c.path), Seq::empty(), 3)
}

pub fn identify_native(container: &BuildContainer, ctx: &BuildCtx) -> (r: Vec<NestedArtifact>)
    ensures
        units_view(r@) == native(container@, ctx@),
{
    let mut units = one(
        NestedUnitBuilder::container_root(container, ctx, ArtifactRole::Intermediate).supported_with_reason(
            "the NDK/CMake intermediates the Android Gradle plugin keeps",
        ).consequence("the next native build reconfigures and recompiles (a slower build)").build(),
    );
    let dirs = ctx.folded().children(&container.path);
    let none: Vec<String> = Vec::new();
    assert(texts(none@) =~= Seq::<Seq<char>>::empty());
    let more = identify_native_rows(container, ctx, &dirs, &none, 3);
    append_units(&mut units, more);
    units
}

// ---------------------------------------------------------------------
// SDK packages and virtual devices
// ---------------------------------------------------------------------

/// The revision that a package's own `source.properties` names.
pub open spec fn package_revision(ctx: CtxModel, d: DirModel) -> Option<Seq<char>> {
    match whole_manifest_of(ctx.facts, joined_path(d.path, "source.properties"@)) {
        Some(m) => property_of(m.text, "Pkg.Revision"@),
        None => None,
    }
}

fn read_revision(ctx: &BuildCtx, d: &FoldedDir) -> (r: Option<String>)
    ensures
        opt_text(r) == package_revision(ctx@, d@),
{
    match ctx.whole_manifest(&d.path.join("source.properties")) {
        Some(m) => property(m.text.as_str(), "Pkg.Revision"),
        None => None,
    }
}

/// One installed SDK package, its revision from its own `source.properties`.
pub open spec fn package_unit(c: ContainerModel, ctx: CtxModel, d: DirModel, label: Seq<char>) -> UnitModel {
    let category = name_of(c.path);
    let revision = package_revision(ctx, d);
    let b = UnitModel::known_dir(
        c,
        ArtifactRole::Installation,
        d,
        "`"@ + category + "/"@ + label + "` is an installed SDK package"@,
        "reinstall `"@ + category + ";"@ + replaced(label, '/', ';') + "` with sdkmanager -- a download"@,
    ).variant(VariantModel { toolchain: Some(label), version: revision, ..no_variant() }).no_action_because(
        "SDK packages are shared by every Android project on this machine"@,
    );
    match revision {
        Some(rev) => b.evidence("android-source-properties"@, "Pkg.Revision="@ + rev, Confidence::High),
        None => b.limit("no readable source.properties: the package revision is unknown"@),
    }
}

fn identify_package(container: &BuildContainer, ctx: &BuildCtx, d: &FoldedDir, label: &str) -> (r: NestedArtifact)
    ensures
        r@ == package_unit(container@, ctx@, d@, label@),
{
    let category = container.path.name();
    let revision = read_revision(ctx, d);
    let reason = cat5("`", category.as_str(), "/", label, "` is an installed SDK package");
    let spelled = replace_char(label, '/', ';');
    let consequence = cat5(
        "reinstall `",
        category.as_str(),
        ";",
        spelled.as_str(),
        "` with sdkmanager -- a download",
    );
    let mut v = ArtifactVariant::none();
    v.toolchain = Some(label.to_owned());
    v.version = copy_opt(&revision);
    let b = NestedUnitBuilder::known_dir(
        container,
        ArtifactRole::Installation,
        d,
        reason.as_str(),
        consequence.as_str(),
    ).variant(v).no_action_because("SDK packages are shared by every Android project on this machine");
    match &revision {
        Some(rev) => {
            let detail = cat2("Pkg.Revision=", rev.as_str());
            b.evidence("android-source-properties", detail.as_str(), Confidence::High).build()
        },
        None => b.limit("no readable source.properties: the package revision is unknown").build(),
    }
}

/// One system image: a package named by level, tag and architecture, with its
/// own revision.
pub open spec fn image_unit(c: ContainerModel, ctx: CtxModel, level: Seq<char>, tag: Seq<char>, d: DirModel) -> Seq<
    UnitModel,
> {
    let abi = name_of(d.path);
    seq![
        package_unit(c, ctx, d, level + "/"@ + tag + "/"@ + abi).variant(
            VariantModel {
                version: package_revision(ctx, d),
                ..no_variant().with_toolchain(level).with_configuration(tag).with_architecture(abi)
            },
        ),
    ]
}

fn identify_image(container: &BuildContainer, ctx: &BuildCtx, level: &str, tag: &str, d: &FoldedDir) -> (r: Vec<NestedArtifact>)
    ensures
        units_view(r@) == image_unit(container@, ctx@, level@, tag@, d@),
{
    let abi = d.path.name();
    let label = cat5(level, "/", tag, "/", abi.as_str());
    let u = identify_package(container, ctx, d, label.as_str());
    let mut v = ArtifactVariant::none().with_toolchain(level).with_configuration(tag).with_architecture(abi.as_str());
    v.version = read_revision(ctx, d);
    one(NestedUnitBuilder::amend(u).variant(v).build())
}

pub open spec fn images_of_tag(c: ContainerModel, ctx: CtxModel, level: Seq<char>, tag: DirModel) -> Seq<UnitModel> {
    flat(child_rows(ctx.rows, tag.path), |d: DirModel| image_unit(c, ctx, level, name_of(tag.path), d))
}

fn identify_tag(container: &BuildContainer, ctx: &BuildCtx, level: &str, tag: &FoldedDir) -> (r: Vec<NestedArtifact>)
    ensures
        units_view(r@) == images_of_tag(container@, ctx@, level@, tag@),
{
    let name = tag.path.name();
    let dirs = ctx.folded().children(&tag.path);
    each_dir(
        &dirs,
        |d: &FoldedDir| -> (out: Vec<NestedArtifact>)
            ensures
                units_view(out@) == image_unit(container@, ctx@, level@, name_of(tag@.path), d@)
            { identify_image(container, ctx, level, name.as_str(), d) },
        Ghost(|d: DirModel| image_unit(container@, ctx@, level@, name_of(tag@.path), d)),
    )
}

pub open spec fn sdk_child(c: ContainerModel, ctx: CtxModel, d: DirModel) -> Seq<UnitModel> {
    let name = name_of(d.path);
    if name_of(c.path) == "system-images"@ {
        flat(child_rows(ctx.rows, d.path), |tag: DirModel| images_of_tag(c, ctx, name, tag))
    } else {
        seq![package_unit(c, ctx, d, name)]
    }
}

fn identify_sdk_child(container: &BuildContainer, ctx: &BuildCtx, d: &FoldedDir) -> (r: Vec<NestedArtifact>)
    ensures
        units_view(r@) == sdk_child(container@, ctx@, d@),
{
    let owned = d.path.name();
    let name = owned.as_str();
    let category = container.path.name();
    if same(category.as_str(), "system-images") {
        let tags = ctx.folded().children(&d.path);
        each_dir(
            &tags,
            |tag: &FoldedDir| -> (out: Vec<NestedArtifact>)
                ensures
                    units_view(out@) == images_of_tag(container@, ctx@, name@, tag@)
                { identify_tag(container, ctx, name, tag) },
            Ghost(|tag: DirModel| images_of_tag(container@, ctx@, name@, tag)),
        )
    } else {
        one(identify_package(container, ctx, d, name))
    }
}

/// One SDK package directory, each child an installed package. The emulator and
/// the platform tools are one package each: their own unit is all there is.
pub open spec fn sdk_packages(c: ContainerModel, ctx: CtxModel) -> Seq<UnitModel> {
    let category = name_of(c.path);
    let root = UnitModel::container_root(c, ctx, ArtifactRole::Installation).supported(
        "the Android SDK's `"@ + category + "` packages"@,
    ).membership(Membership::Unknown).consequence(
        "reinstall with `sdkmanager` (or Android Studio's SDK Manager) -- a download"@,
    ).no_action_because("SDK packages are shared by every Android project on this machine"@);
    if category == "emulator"@ || category == "platform-tools"@ {
        seq![root]
    } else {
        seq![root] + flat(child_rows(ctx.rows, c.path), |d: DirModel| sdk_child(c, ctx, d))
    }
}

pub fn identify_sdk_packages(container: &BuildContainer, ctx: &BuildCtx) -> (r: Vec<NestedArtifact>)
    ensures
        units_view(r@) == sdk_packages(container@, ctx@),
{
    let category = container.path.name();
    let reason = cat3("the Android SDK's `", category.as_str(), "` packages");
    let mut units = one(
        NestedUnitBuilder::container_root(container, ctx, ArtifactRole::Installation).supported_with_reason(
            reason.as_str(),
        ).membership(Membership::Unknown).consequence(
            "reinstall with `sdkmanager` (or Android Studio's SDK Manager) -- a download",
        ).no_action_because("SDK packages are shared by every Android project on this machine").build(),
    );
    if same(category.as_str(), "emulator") || same(category.as_str(), "platform-tools") {
        return units;
    }
    let dirs = ctx.folded().children(&container.path);
    let more = each_dir(
        &dirs,
        |d: &FoldedDir| -> (out: Vec<NestedArtifact>)
            ensures
                units_view(out@) == sdk_child(container@, ctx@, d@)
            { identify_sdk_child(container, ctx, d) },
        Ghost(|d: DirModel| sdk_child(container@, ctx@, d)),
    );
    append_units(&mut units, more);
    units
}

/// What a virtual device's `config.ini` says of it.
pub open spec fn avd_variant(label: Seq<char>, m: Option<ManifestModel>) -> VariantModel {
    VariantModel {
        configuration: Some(label),
        toolchain: match m {
            Some(m) => match property_of(m.text, "image.sysdir.1"@) {
                Some(s) => Some(s),
                None => property_of(m.text, "target"@),
            },
            None => None,
        },
        architecture: match m {
            Some(m) => property_of(m.text, "abi.type"@),
            None => None,
        },
        ..no_variant()
    }
}

fn variant_of_avd(label: &str, m: Option<&Manifest>) -> (r: ArtifactVariant)
    ensures
        r@ == avd_variant(label@, opt_manifest_ref(m)),
{
    let mut v = ArtifactVariant::none();
    v.configuration = Some(label.to_owned());
    match m {
        Some(m) => {
            v.toolchain = match property(m.text.as_str(), "image.sysdir.1") {
                Some(s) => Some(s),
                None => property(m.text.as_str(), "target"),
            };
            v.architecture = property(m.text.as_str(), "abi.type");
        },
        None => {},
    }
    v
}

/// One virtual device; an emulator's lock files are evidence that it runs.
pub open spec fn avd_unit(c: ContainerModel, ctx: CtxModel, d: DirModel) -> Seq<UnitModel> {
    let name = name_of(d.path);
    match before_suffix(name, ".avd"@) {
        None => seq![UnitModel::unknown_dir(c, d, "`"@ + name + "` is not an .avd directory"@)],
        Some(label) => {
            let m = whole_manifest_of(ctx.facts, joined_path(d.path, "config.ini"@));
            let first = joined_path(d.path, "hardware-qemu.ini.lock"@);
            let second = joined_path(d.path, "multiinstance.lock"@);
            let b = UnitModel::known_dir(
                c,
                ArtifactRole::DeviceState,
                d,
                "an Android Virtual Device"@,
                "this emulator's apps and data are gone; a recreated AVD starts empty"@,
            ).variant(avd_variant(label, m)).no_action_because("an AVD holds data nothing regenerates"@);
            let b = if m is None {
                b.limit("no readable config.ini: the device's system image is unknown"@)
            } else {
                b
            };
            if stat_of(ctx.facts, first) is Some {
                seq![b.writer_lock(first, "the emulator"@)]
            } else if stat_of(ctx.facts, second) is Some {
                seq![b.writer_lock(second, "the emulator"@)]
            } else {
                seq![b]
            }
        },
    }
}

fn identify_avd(container: &BuildContainer, ctx: &BuildCtx, d: &FoldedDir) -> (r: Vec<NestedArtifact>)
    ensures
        units_view(r@) == avd_unit(container@, ctx@, d@),
{
    let name = d.path.name();
    match drop_suffix(name.as_str(), ".avd") {
        None => {
            let limit = cat3("`", name.as_str(), "` is not an .avd directory");
            one(NestedUnitBuilder::unknown_dir(container, d, limit.as_str()).build())
        },
        Some(label) => {
            let m = ctx.whole_manifest(&d.path.join("config.ini"));
            let b = NestedUnitBuilder::known_dir(
                container,
                ArtifactRole::DeviceState,
                d,
                "an Android Virtual Device",
                "this emulator's apps and data are gone; a recreated AVD starts empty",
            ).variant(variant_of_avd(label.as_str(), m)).no_action_because("an AVD holds data nothing regenerates");
            let b = if m.is_none() {
                b.limit("no readable config.ini: the device's system image is unknown")
            } else {
                b
            };
            let first = d.path.join("hardware-qemu.ini.lock");
            let second = d.path.join("multiinstance.lock");
            if ctx.stat(&first).is_some() {
                one(b.writer_lock(first, "the emulator").build())
            } else if ctx.stat(&second).is_some() {
                one(b.writer_lock(second, "the emulator").build())
            } else {
                one(b.build())
            }
        },
    }
}

/// Virtual devices: each one's mutable state.
pub open spec fn avds(c: ContainerModel, ctx: CtxModel) -> Seq<UnitModel> {
    seq![
        UnitModel::container_root(c, ctx, ArtifactRole::DeviceState).supported(
            "Android Virtual Devices: each emulator's disk images and state"@,
        ).membership(Membership::Unknown).consequence(
            "a removed AVD loses every app and every byte of data installed in it; a recreated one starts empty"@,
        ).no_action_because("an AVD holds data nothing regenerates"@),
    ] + flat(child_rows(ctx.rows, c.path), |d: DirModel| avd_unit(c, ctx, d))
}

pub fn identify_avds(container: &BuildContainer, ctx: &BuildCtx) -> (r: Vec<NestedArtifact>)
    ensures
        units_view(r@) == avds(container@, ctx@),
{
    let mut units = one(
        NestedUnitBuilder::container_root(container, ctx, ArtifactRole::DeviceState).supported_with_reason(
            "Android Virtual Devices: each emulator's disk images and state",
        ).membership(Membership::Unknown).consequence(
            "a removed AVD loses every app and every byte of data installed in it; a recreated one starts empty",
        ).no_action_because("an AVD holds data nothing regenerates").build(),
    );
    let dirs = ctx.folded().children(&container.path);
    let more = each_dir(
        &dirs,
        |d: &FoldedDir| -> (out: Vec<NestedArtifact>)
            ensures
                units_view(out@) == avd_unit(container@, ctx@, d@)
            { identify_avd(container, ctx, d) },
        Ghost(|d: DirModel| avd_unit(container@, ctx@, d)),
    );
    append_units(&mut units, more);
    units
}

} // verus!
