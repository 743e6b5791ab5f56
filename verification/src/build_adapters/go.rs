//! Go build outputs, vendored modules, and the module and build caches.
//!
//! Go keeps three stores with three meanings: the raw downloads under
//! `cache/download`, whose `@v` directories hold each version's archive; the
//! extracted, read-only source trees `<module>@<version>`; and the build cache,
//! whose entries are named by a hash of an action's inputs and so identify no
//! package, no test binary and no build.
//!
//! No `go` command runs: paths come from the detector, identities from names.

use super::adapter::{
    append_paths, claim_all, claimed, each, each_dir, filter_paths, flat, no_paths, no_units, one, views, BuildAdapter,
    BuildCapabilities,
};
use super::arrange::{by_path, by_size, filter_dirs, first_of, sort_by_path, sort_by_size, split_dirs};
use super::builder::NestedUnitBuilder;
use super::container::{child_rows, dir_refs, row_of, BuildContainer, ContainerModel, DirModel, FoldedDir, FoldedIndex};
use super::context::{BuildCtx, CtxModel};
use super::layout::{is_versionish, versionish};
use crate::artifact::{
    append_units, no_variant, relative, relative_path, units_view, ArtifactRole, ArtifactVariant, Confidence,
    Membership, NestedArtifact, UnitModel, VariantModel,
};
use crate::facts::{
    entries_view, is_file_at, listing_of, stat_of, whole_manifest_of, EntryModel, FactModel, FileFacts, ShallowEntry,
};
use crate::locations::BuildStoreKind;
use crate::number::{decimal, parse_u64, read_u64, write_u64};
use crate::path::{joined_path, name_of, parent, paths, push_path, within, FsPath, PathModel};
use crate::text::{
    after_prefix, all_hex, before_suffix, begins, cat2, cat3, cat5, cat6, char_is_lower, chars_of, cut_at, cut_last,
    drop_prefix, drop_repeats, drop_suffix, has_char, is_lower, is_upper, join_texts, joined, lines, lower_char,
    only_hex, opt_text, pair_text, push_text, same, sort_texts, sorted_texts, split, split_at, split_last, split_lines,
    split_text, split_words, starts, texts, trim, trimmed, without_repeats, words,
};
use vstd::prelude::*;

verus! {

pub struct Adapter;

/// How many modules of the download cache get their `@v` directory listed,
/// largest first; the rest are sized and say so.
pub const MODULE_LISTING_BUDGET: usize = 2_000;

/// How many names below where it starts a walk for modules goes on.
pub const MODULE_WALK_DEPTH: u32 = 7;

pub const CACHE_SHARED: &'static str = "the module cache is shared by every Go build on this machine";

pub const DOWNLOADS_SHARED: &'static str = "the download cache is shared by every Go build on this machine";

pub const BUILDS_SHARED: &'static str = "the build cache is shared by every Go build on this machine";

/// Whether a project is built with goreleaser.
pub open spec fn releases(root: PathModel, facts: Seq<FactModel>) -> bool {
    is_file_at(facts, joined_path(root, ".goreleaser.yml"@)) || is_file_at(
        facts,
        joined_path(root, ".goreleaser.yaml"@),
    )
}

pub open spec fn is_ours(p: PathModel) -> bool {
    name_of(p) == "vendor"@ || name_of(p) == "bin"@
}

/// The paths this adapter wants as containers.
pub open spec fn wanted(root: PathModel, candidates: Seq<PathModel>, facts: Seq<FactModel>) -> Seq<PathModel> {
    if is_file_at(facts, joined_path(root, "go.mod"@)) {
        seq![joined_path(root, "vendor"@), joined_path(root, "bin"@)] + (if releases(root, facts) {
            seq![joined_path(root, "dist"@)]
        } else {
            Seq::empty()
        }) + candidates.filter(|p: PathModel| is_ours(p))
    } else {
        Seq::empty()
    }
}

fn wanted_paths(root: &FsPath, candidates: &Vec<FsPath>, facts: &FileFacts) -> (r: Vec<FsPath>)
    ensures
        paths(r@) == wanted(root@, paths(candidates@), facts@),
{
    let mut want = no_paths();
    if facts.is_file(&root.join("go.mod")) {
        push_path(&mut want, root.join("vendor"));
        push_path(&mut want, root.join("bin"));
        assert(paths(want@) =~= seq![joined_path(root@, "vendor"@), joined_path(root@, "bin"@)]);
        let mut dist = no_paths();
        if facts.is_file(&root.join(".goreleaser.yml")) || facts.is_file(&root.join(".goreleaser.yaml")) {
            push_path(&mut dist, root.join("dist"));
            assert(paths(dist@) =~= seq![joined_path(root@, "dist"@)]);
        }
        append_paths(&mut want, dist);
        let named = filter_paths(
            candidates,
            |p: &FsPath| -> (keep: bool)
                ensures
                    keep == is_ours(p@)
                {
                    let name = p.name();
                    same(name.as_str(), "vendor") || same(name.as_str(), "bin")
                },
            Ghost(|p: PathModel| is_ours(p)),
        );
        append_paths(&mut want, named);
    }
    want
}

impl BuildAdapter for Adapter {
    open spec fn trash_roles_spec(&self) -> Seq<ArtifactRole> {
        seq![ArtifactRole::Output, ArtifactRole::TestOutput, ArtifactRole::Intermediate]
    }

    open spec fn id_spec(&self) -> Seq<char> {
        "go"@
    }

    open spec fn name_spec(&self) -> Seq<char> {
        "Go"@
    }

    open spec fn capabilities_spec(&self) -> BuildCapabilities {
        BuildCapabilities {
            identifies_shared_stores: true,
            attributes_package_identity: true,
            actions_available: true,
        }
    }

    open spec fn store_kinds_spec(&self) -> Seq<BuildStoreKind> {
        seq![BuildStoreKind::GoModuleCache, BuildStoreKind::GoModuleDownloads, BuildStoreKind::GoBuildCache]
    }

    open spec fn containers_spec(&self, root: PathModel, candidates: Seq<PathModel>, facts: Seq<FactModel>) -> Seq<
        ContainerModel,
    > {
        claimed("go"@, wanted(root, candidates, facts), root, facts)
    }

    open spec fn identify_spec(&self, c: ContainerModel, ctx: CtxModel) -> Seq<UnitModel> {
        if c.shared {
            match c.store_kind {
                Some(BuildStoreKind::GoModuleDownloads) => downloads(c, ctx),
                Some(BuildStoreKind::GoBuildCache) => build_cache(c, ctx),
                _ => module_cache(c, ctx),
            }
        } else if name_of(c.path) == "vendor"@ {
            vendor(c, ctx)
        } else if name_of(c.path) == "dist"@ {
            goreleaser_dist(c, ctx)
        } else {
            bin(c, ctx)
        }
    }

    fn trash_roles(&self) -> (r: Vec<ArtifactRole>) {
        let r: Vec<ArtifactRole> = vec![ArtifactRole::Output, ArtifactRole::TestOutput, ArtifactRole::Intermediate];
        assert(r@ =~= self.trash_roles_spec());
        r
    }

    fn id(&self) -> (r: &'static str) {
        "go"
    }

    fn name(&self) -> (r: &'static str) {
        "Go"
    }

    fn capabilities(&self) -> (r: BuildCapabilities) {
        BuildCapabilities {
            identifies_shared_stores: true,
            attributes_package_identity: true,
            actions_available: true,
        }
    }

    fn store_kinds(&self) -> (r: Vec<BuildStoreKind>) {
        let r: Vec<BuildStoreKind> = vec![BuildStoreKind::GoModuleCache, BuildStoreKind::GoModuleDownloads, BuildStoreKind::GoBuildCache];
        assert(r@ =~= self.store_kinds_spec());
        r
    }

    fn containers(&self, project_root: &FsPath, candidates: &Vec<FsPath>, facts: &FileFacts) -> (r: Vec<
        BuildContainer,
    >) {
        let want = wanted_paths(project_root, candidates, facts);
        claim_all("go", &want, project_root, facts)
    }

    fn identify(&self, container: &BuildContainer, ctx: &BuildCtx) -> (r: Vec<NestedArtifact>) {
        if container.shared {
            match container.store_kind {
                Some(BuildStoreKind::GoModuleDownloads) => identify_downloads(container, ctx),
                Some(BuildStoreKind::GoBuildCache) => identify_build_cache(container, ctx),
                _ => identify_module_cache(container, ctx),
            }
        } else {
            let name = container.path.name();
            if same(name.as_str(), "vendor") {
                identify_vendor(container, ctx)
            } else if same(name.as_str(), "dist") {
                identify_goreleaser_dist(container, ctx)
            } else {
                identify_bin(container, ctx)
            }
        }
    }
}

// ---------------------------------------------------------------------
// Module paths
// ---------------------------------------------------------------------

pub open spec fn upper_char(c: char) -> char {
    if is_lower(c) {
        (c as u32 - 32) as char
    } else {
        c
    }
}

/// A head put before what a text may be.
pub open spec fn after(head: Seq<char>, rest: Option<Seq<char>>) -> Option<Seq<char>> {
    match rest {
        Some(r) => Some(head + r),
        None => None,
    }
}

/// Go's module path escaping undone: `!x` is an upper-case `X`. An invalid
/// escape is nothing, never a guess.
pub open spec fn unescaped(s: Seq<char>) -> Option<Seq<char>>
    decreases s.len(),
{
    if s.len() == 0 {
        Some(Seq::empty())
    } else if s[0] != '!' {
        after(seq![s[0]], unescaped(s.skip(1)))
    } else if s.len() >= 2 && is_lower(s[1]) {
        after(seq![upper_char(s[1])], unescaped(s.skip(2)))
    } else {
        None
    }
}

/// Go's module path escaping: an upper-case letter becomes `!` and its small
/// letter.
pub open spec fn escaped(s: Seq<char>) -> Seq<char>
    decreases s.len(),
{
    if s.len() == 0 {
        Seq::empty()
    } else if is_upper(s[0]) {
        seq!['!', lower_char(s[0])] + escaped(s.skip(1))
    } else {
        seq![s[0]] + escaped(s.skip(1))
    }
}

/// An escaped module path unescapes to the path it was made from.
pub proof fn law_module_paths_read_back(s: Seq<char>)
    requires
        forall|i: int| 0 <= i < s.len() ==> s[i] != '!',
    ensures
        unescaped(escaped(s)) == Some(s),
    decreases s.len(),
{
    if s.len() > 0 {
        let rest = s.skip(1);
        assert forall|i: int| 0 <= i < rest.len() implies rest[i] != '!' by {
            assert(rest[i] == s[i + 1]);
        }
        law_module_paths_read_back(rest);
        let e = escaped(s);
        if is_upper(s[0]) {
            assert(e.skip(2) =~= escaped(rest));
            assert(upper_char(lower_char(s[0])) == s[0]);
        } else {
            assert(e.skip(1) =~= escaped(rest));
        }
        assert(seq![s[0]] + rest =~= s);
    }
}

fn capital(c: char) -> (r: char)
    ensures
        r == upper_char(c),
{
    if char_is_lower(c) {
        (c as u8 - 32) as char
    } else {
        c
    }
}

pub fn unescape_module_path(s: &str) -> (r: Option<String>)
    ensures
        opt_text(r) == unescaped(s@),
{
    let v = chars_of(s);
    let n: usize = v.len();
    let mut out = String::new();
    let mut i: usize = 0;
    proof {
        assert(s@.skip(0) =~= s@);
        let rest = unescaped(s@);
        if rest is Some {
            assert(out@ + rest->0 =~= rest->0);
        }
    }
    while i < n
        invariant
            i <= n,
            n == v@.len(),
            v@ == s@,
            unescaped(s@) == after(out@, unescaped(s@.skip(i as int))),
        decreases n - i,
    {
        let c = v[i];
        let ghost here = s@.skip(i as int);
        let ghost sofar = out@;
        assert(here[0] == c);
        if c == '!' {
            if i + 1 >= n || !char_is_lower(v[i + 1]) {
                return None;
            }
            assert(here[1] == s@[i + 1]);
            out.push(capital(v[i + 1]));
            assert(here.skip(2) =~= s@.skip(i + 2));
            i += 2;
        } else {
            out.push(c);
            assert(here.skip(1) =~= s@.skip(i + 1));
            i += 1;
        }
        proof {
            let rest = unescaped(s@.skip(i as int));
            if rest is Some {
                assert(sofar + (seq![out@.last()] + rest->0) =~= out@ + rest->0);
            }
        }
    }
    assert(s@.skip(i as int) =~= Seq::<char>::empty());
    assert(out@ + Seq::<char>::empty() =~= out@);
    Some(out)
}

/// The toolchain and platform of a Go toolchain that the `go` command
/// downloaded as a module.
pub open spec fn toolchain_named(module: Seq<char>, version: Seq<char>) -> Option<(Seq<char>, Seq<char>)> {
    if module != "golang.org/toolchain"@ {
        None
    } else {
        match cut_at(version, "-go"@) {
            None => None,
            Some((_, rest)) => match cut_last(rest, '.') {
                Some((v, platform)) => if platform.contains('-') {
                    Some(("go"@ + v, platform))
                } else {
                    Some(("go"@ + rest, Seq::empty()))
                },
                None => Some(("go"@ + rest, Seq::empty())),
            },
        }
    }
}

pub fn toolchain_of(module: &str, version: &str) -> (r: Option<(String, String)>)
    ensures
        pair_text(r) == toolchain_named(module@, version@),
{
    if !same(module, "golang.org/toolchain") {
        return None;
    }
    match split_at(version, "-go") {
        None => None,
        Some((_, rest)) => {
            match split_last(rest.as_str(), '.') {
                Some((v, platform)) => {
                    if has_char(platform.as_str(), '-') {
                        return Some((cat2("go", v.as_str()), platform));
                    }
                },
                None => {},
            }
            let none = String::new();
            assert(none@ =~= Seq::<char>::empty());
            Some((cat2("go", rest.as_str()), none))
        },
    }
}

// ---------------------------------------------------------------------
// Project-local
// ---------------------------------------------------------------------

pub open spec fn root_unit(c: ContainerModel, ctx: CtxModel, role: ArtifactRole, reason: Seq<char>, consequence: Seq<char>) -> UnitModel {
    UnitModel::container_root(c, ctx, role).supported(reason).evidence("go-layout"@, reason, Confidence::Medium).consequence(
        consequence,
    )
}

fn identify_root(
    container: &BuildContainer,
    ctx: &BuildCtx,
    role: ArtifactRole,
    reason: &str,
    consequence: &str,
) -> (r: NestedArtifact)
    ensures
        r@ == root_unit(container@, ctx@, role, reason@, consequence@),
{
    NestedUnitBuilder::container_root(container, ctx, role).supported_with_reason(reason).evidence(
        "go-layout",
        reason,
        Confidence::Medium,
    ).consequence(consequence).build()
}

/// The module and version a line of `vendor/modules.txt` names.
pub open spec fn vendored(line: Seq<char>) -> Option<(Seq<char>, Seq<char>)> {
    match after_prefix(line, "# "@) {
        None => None,
        Some(rest) => {
            let w = words(rest);
            if w.len() >= 2 && is_versionish(w[1]) {
                Some((w[0], w[1]))
            } else {
                None
            }
        },
    }
}

fn read_vendored(line: &str) -> (r: Option<(String, String)>)
    ensures
        pair_text(r) == vendored(line@),
{
    match drop_prefix(line, "# ") {
        None => None,
        Some(rest) => {
            let w = split_words(rest.as_str());
            assert(texts(w@).len() == w@.len());
            if w.len() >= 2 {
                assert(texts(w@)[0] == w@[0]@ && texts(w@)[1] == w@[1]@);
                if versionish(w[1].as_str()) {
                    return Some((w[0].as_str().to_owned(), w[1].as_str().to_owned()));
                }
            }
            None
        },
    }
}

/// The unit of one line of `vendor/modules.txt`, where the module it names was
/// measured.
pub open spec fn vendored_unit(c: ContainerModel, ctx: CtxModel, line: Seq<char>) -> Seq<UnitModel> {
    match vendored(line) {
        None => Seq::empty(),
        Some((module, version)) => match row_of(ctx.rows, joined_path(c.path, module)) {
            None => Seq::empty(),
            Some(d) => seq![
                UnitModel::known_dir(
                    c,
                    ArtifactRole::InstalledDependencies,
                    d,
                    "`vendor/"@ + module + "` is listed in vendor/modules.txt"@,
                    "recreate with `go mod vendor` -- needs module proxy access"@,
                ).variant(
                    no_variant().with_package(module).with_version(version).unknown("build-generation"@),
                ).evidence("go-modules-txt"@, module + "@"@ + version, Confidence::High),
            ],
        },
    }
}

fn identify_vendored(container: &BuildContainer, ctx: &BuildCtx, line: &str) -> (r: Vec<NestedArtifact>)
    ensures
        units_view(r@) == vendored_unit(container@, ctx@, line@),
{
    match read_vendored(line) {
        None => no_units(),
        Some((module, version)) => match ctx.folded().get(&container.path.join(module.as_str())) {
            None => no_units(),
            Some(d) => {
                let reason = cat3("`vendor/", module.as_str(), "` is listed in vendor/modules.txt");
                let detail = cat3(module.as_str(), "@", version.as_str());
                one(
                    NestedUnitBuilder::known_dir(
                        container,
                        ArtifactRole::InstalledDependencies,
                        d,
                        reason.as_str(),
                        "recreate with `go mod vendor` -- needs module proxy access",
                    ).variant(
                        ArtifactVariant::none().with_package(module.as_str()).with_version(
                            version.as_str(),
                        ).unknown("build-generation"),
                    ).evidence("go-modules-txt", detail.as_str(), Confidence::High).build(),
                )
            },
        },
    }
}

/// `vendor/`: one unit per vendored module that `modules.txt` lists and the
/// walk measured.
pub open spec fn vendor(c: ContainerModel, ctx: CtxModel) -> Seq<UnitModel> {
    let root = root_unit(
        c,
        ctx,
        ArtifactRole::InstalledDependencies,
        "`vendor/` holds the module sources `go mod vendor` copied"@,
        "recreate with `go mod vendor` -- needs module proxy access"@,
    );
    match whole_manifest_of(ctx.facts, joined_path(c.path, "modules.txt"@)) {
        Some(m) => seq![root] + flat(lines(m.text), |l: Seq<char>| vendored_unit(c, ctx, l)),
        None => seq![
            root.limit(
                "vendor/modules.txt is missing, unreadable or larger than the manifest cap: the vendored modules are sized as one tree, not identified"@,
            ),
        ],
    }
}

pub fn identify_vendor(container: &BuildContainer, ctx: &BuildCtx) -> (r: Vec<NestedArtifact>)
    ensures
        units_view(r@) == vendor(container@, ctx@),
{
    let root = identify_root(
        container,
        ctx,
        ArtifactRole::InstalledDependencies,
        "`vendor/` holds the module sources `go mod vendor` copied",
        "recreate with `go mod vendor` -- needs module proxy access",
    );
    match ctx.whole_manifest(&container.path.join("modules.txt")) {
        Some(m) => {
            let mut units = one(root);
            let ls = split_lines(m.text.as_str());
            assert(views(ls@) =~= texts(ls@));
            let more = each(
                &ls,
                |l: &String| -> (out: Vec<NestedArtifact>)
                    ensures
                        units_view(out@) == vendored_unit(container@, ctx@, l@)
                    { identify_vendored(container, ctx, l.as_str()) },
                Ghost(|l: Seq<char>| vendored_unit(container@, ctx@, l)),
            );
            append_units(&mut units, more);
            units
        },
        None => one(
            NestedUnitBuilder::amend(root).limit(
                "vendor/modules.txt is missing, unreadable or larger than the manifest cap: the vendored modules are sized as one tree, not identified",
            ).build(),
        ),
    }
}

/// One entry of `bin/`.
pub open spec fn bin_entry(c: ContainerModel, ctx: CtxModel, e: EntryModel) -> Seq<UnitModel> {
    let path = joined_path(c.path, e.name);
    if e.is_dir {
        match row_of(ctx.rows, path) {
            Some(d) => seq![
                UnitModel::unknown_dir(c, d, "`bin/"@ + e.name + "` is a directory, not a built binary"@),
            ],
            None => Seq::empty(),
        }
    } else {
        match stat_of(ctx.facts, path) {
            None => Seq::empty(),
            Some(meta) => seq![
                UnitModel::blank(c, ArtifactRole::Output, path).file_metadata(meta).supported(
                    "`bin/"@ + e.name + "` is a file in the build's output directory"@,
                ).variant(no_variant().with_target(e.name).unknown("build-generation"@)).limit(
                    "a binary does not record which build or commit produced it here"@,
                ).consequence("rebuild with this project's build"@),
            ],
        }
    }
}

fn identify_bin_entry(container: &BuildContainer, ctx: &BuildCtx, e: &ShallowEntry) -> (r: Vec<NestedArtifact>)
    ensures
        units_view(r@) == bin_entry(container@, ctx@, e@),
{
    let name = e.name.as_str();
    let path = container.path.join(name);
    if e.is_dir {
        match ctx.folded().get(&path) {
            Some(d) => {
                let limit = cat3("`bin/", name, "` is a directory, not a built binary");
                one(NestedUnitBuilder::unknown_dir(container, d, limit.as_str()).build())
            },
            None => no_units(),
        }
    } else {
        match ctx.stat(&path) {
            None => no_units(),
            Some(meta) => {
                let reason = cat3("`bin/", name, "` is a file in the build's output directory");
                one(
                    NestedUnitBuilder::new(container, ArtifactRole::Output, path).from_file_metadata(
                        &meta,
                    ).supported_with_reason(reason.as_str()).variant(
                        ArtifactVariant::none().with_target(name).unknown("build-generation"),
                    ).limit("a binary does not record which build or commit produced it here").consequence(
                        "rebuild with this project's build",
                    ).build(),
                )
            },
        }
    }
}

/// `bin/`: one unit per file, named by the file.
pub open spec fn bin(c: ContainerModel, ctx: CtxModel) -> Seq<UnitModel> {
    let root = root_unit(
        c,
        ctx,
        ArtifactRole::Output,
        "`bin/` beside a go.mod is where this project's build writes its binaries"@,
        "rebuild with this project's build (commonly `go build -o bin/ ./...`)"@,
    );
    let entries = listing_of(ctx.facts, c.path);
    if entries.len() == 0 {
        seq![root.limit("no binaries are present: nothing has been built here, or it was removed"@)]
    } else {
        seq![root] + flat(entries, |e: EntryModel| bin_entry(c, ctx, e))
    }
}

pub fn identify_bin(container: &BuildContainer, ctx: &BuildCtx) -> (r: Vec<NestedArtifact>)
    ensures
        units_view(r@) == bin(container@, ctx@),
{
    let root = identify_root(
        container,
        ctx,
        ArtifactRole::Output,
        "`bin/` beside a go.mod is where this project's build writes its binaries",
        "rebuild with this project's build (commonly `go build -o bin/ ./...`)",
    );
    let entries = ctx.list(&container.path);
    assert(views(entries@) =~= entries_view(entries@));
    if entries.len() == 0 {
        return one(
            NestedUnitBuilder::amend(root).limit(
                "no binaries are present: nothing has been built here, or it was removed",
            ).build(),
        );
    }
    let mut units = one(root);
    let more = each(
        &entries,
        |e: &ShallowEntry| -> (out: Vec<NestedArtifact>)
            ensures
                units_view(out@) == bin_entry(container@, ctx@, e@)
            { identify_bin_entry(container, ctx, e) },
        Ghost(|e: EntryModel| bin_entry(container@, ctx@, e)),
    );
    append_units(&mut units, more);
    units
}

/// One directory of goreleaser's output: `<build>_<os>_<arch>`.
pub open spec fn dist_child(c: ContainerModel, d: DirModel) -> Seq<UnitModel> {
    let name = name_of(d.path);
    let parts = split(name, '_');
    if parts.len() >= 3 {
        seq![
            UnitModel::known_dir(
                c,
                ArtifactRole::Output,
                d,
                "`dist/"@ + name + "` is one goreleaser build target"@,
                "recreate with `goreleaser build`"@,
            ).variant(
                no_variant().with_target(parts[0]).with_configuration(parts[1]).with_architecture(
                    joined(parts.skip(2), "_"@),
                ),
            ),
        ]
    } else {
        seq![UnitModel::unknown_dir(c, d, "`dist/"@ + name + "` is not named `<build>_<os>_<arch>`"@)]
    }
}

fn identify_dist_child(container: &BuildContainer, d: &FoldedDir) -> (r: Vec<NestedArtifact>)
    ensures
        units_view(r@) == dist_child(container@, d@),
{
    let name = d.path.name();
    let parts = split_text(name.as_str(), '_');
    assert(texts(parts@).len() == parts@.len());
    if parts.len() >= 3 {
        let rest = crate::text::texts_from(&parts, 2);
        assert(texts(parts@)[0] == parts@[0]@ && texts(parts@)[1] == parts@[1]@);
        let arch = join_texts(&rest, "_");
        let reason = cat3("`dist/", name.as_str(), "` is one goreleaser build target");
        one(
            NestedUnitBuilder::known_dir(
                container,
                ArtifactRole::Output,
                d,
                reason.as_str(),
                "recreate with `goreleaser build`",
            ).variant(
                ArtifactVariant::none().with_target(parts[0].as_str()).with_configuration(
                    parts[1].as_str(),
                ).with_architecture(arch.as_str()),
            ).build(),
        )
    } else {
        let limit = cat3("`dist/", name.as_str(), "` is not named `<build>_<os>_<arch>`");
        one(NestedUnitBuilder::unknown_dir(container, d, limit.as_str()).build())
    }
}

/// goreleaser's `dist/`: one unit per target, so two platforms never collapse.
pub open spec fn goreleaser_dist(c: ContainerModel, ctx: CtxModel) -> Seq<UnitModel> {
    seq![
        root_unit(
            c,
            ctx,
            ArtifactRole::Output,
            "`dist/` beside a goreleaser config is goreleaser's output directory"@,
            "recreate with `goreleaser build` (or `release`)"@,
        ),
    ] + flat(child_rows(ctx.rows, c.path), |d: DirModel| dist_child(c, d))
}

pub fn identify_goreleaser_dist(container: &BuildContainer, ctx: &BuildCtx) -> (r: Vec<NestedArtifact>)
    ensures
        units_view(r@) == goreleaser_dist(container@, ctx@),
{
    let mut units = one(
        identify_root(
            container,
            ctx,
            ArtifactRole::Output,
            "`dist/` beside a goreleaser config is goreleaser's output directory",
            "recreate with `goreleaser build` (or `release`)",
        ),
    );
    let dirs = ctx.folded().children(&container.path);
    let more = each_dir(
        &dirs,
        |d: &FoldedDir| -> (out: Vec<NestedArtifact>)
            ensures
                units_view(out@) == dist_child(container@, d@)
            { identify_dist_child(container, d) },
        Ghost(|d: DirModel| dist_child(container@, d)),
    );
    append_units(&mut units, more);
    units
}

// ---------------------------------------------------------------------
// The module cache
// ---------------------------------------------------------------------

/// Where a walk for modules stops.
#[derive(Clone, Copy, PartialEq, Eq, Structural)]
pub enum StopAt {
    /// At `<module>@<version>`.
    Version,
    /// At `@v`.
    Downloads,
}

pub open spec fn stops(at: StopAt, name: Seq<char>) -> bool {
    match at {
        StopAt::Version => name.contains('@'),
        StopAt::Downloads => name == "@v"@,
    }
}

fn stops_walk(at: StopAt, name: &str) -> (r: bool)
    ensures
        r == stops(at, name@),
{
    match at {
        StopAt::Version => has_char(name, '@'),
        StopAt::Downloads => same(name, "@v"),
    }
}

/// The directories a walk stops at, and those too deep to go on from.
pub struct Walked {
    pub found: Seq<DirModel>,
    pub too_deep: Seq<DirModel>,
}

impl Walked {
    pub open spec fn joined_to(self, other: Walked) -> Walked {
        Walked { found: self.found + other.found, too_deep: self.too_deep + other.too_deep }
    }
}

/// A walk from one directory, `depth` more names deep at most.
pub open spec fn walk_dir(rows: Seq<DirModel>, at: StopAt, d: DirModel, depth: nat) -> Walked
    decreases depth, 0nat,
{
    if stops(at, name_of(d.path)) {
        Walked { found: seq![d], too_deep: Seq::empty() }
    } else if depth == 0 {
        Walked { found: Seq::empty(), too_deep: seq![d] }
    } else {
        walk_all(rows, at, child_rows(rows, d.path), (depth - 1) as nat)
    }
}

/// A walk from each directory, the last first.
pub open spec fn walk_all(rows: Seq<DirModel>, at: StopAt, dirs: Seq<DirModel>, depth: nat) -> Walked
    decreases depth, 1 + dirs.len(),
{
    if dirs.len() == 0 {
        Walked { found: Seq::empty(), too_deep: Seq::empty() }
    } else {
        walk_dir(rows, at, dirs.last(), depth).joined_to(walk_all(rows, at, dirs.drop_last(), depth))
    }
}

/// The directories under `root` that a walk stops at, in path order, and those
/// too deep.
pub open spec fn modules_under(rows: Seq<DirModel>, at: StopAt, root: PathModel) -> Walked {
    let w = walk_all(rows, at, child_rows(rows, root), MODULE_WALK_DEPTH as nat);
    Walked { found: by_path(w.found), too_deep: w.too_deep }
}

fn append_dirs<'a>(list: &mut Vec<&'a FoldedDir>, more: Vec<&'a FoldedDir>)
    ensures
        dir_refs(final(list)@) == dir_refs(old(list)@) + dir_refs(more@),
{
    let mut rest = more;
    list.append(&mut rest);
    assert(dir_refs(list@) =~= dir_refs(old(list)@) + dir_refs(more@));
}

fn no_dirs<'a>() -> (r: Vec<&'a FoldedDir>)
    ensures
        dir_refs(r@) == Seq::<DirModel>::empty(),
{
    let v: Vec<&'a FoldedDir> = Vec::new();
    assert(dir_refs(v@) =~= Seq::<DirModel>::empty());
    v
}

fn one_dir<'a>(d: &'a FoldedDir) -> (r: Vec<&'a FoldedDir>)
    ensures
        dir_refs(r@) == seq![d@],
{
    let mut v: Vec<&'a FoldedDir> = Vec::new();
    v.push(d);
    assert(dir_refs(v@) =~= seq![d@]);
    v
}

fn walk_from<'a>(index: &'a FoldedIndex, at: StopAt, d: &'a FoldedDir, depth: u32) -> (r: (Vec<&'a FoldedDir>, Vec<&'a FoldedDir>))
    ensures
        (Walked { found: dir_refs(r.0@), too_deep: dir_refs(r.1@) }) == walk_dir(index@, at, d@, depth as nat),
    decreases depth, 0nat,
{
    let name = d.path.name();
    if stops_walk(at, name.as_str()) {
        return (one_dir(d), no_dirs());
    }
    if depth == 0 {
        return (no_dirs(), one_dir(d));
    }
    let dirs = index.children(&d.path);
    walk_each(index, at, &dirs, depth - 1)
}

fn walk_each<'a>(index: &'a FoldedIndex, at: StopAt, dirs: &Vec<&'a FoldedDir>, depth: u32) -> (r: (
    Vec<&'a FoldedDir>,
    Vec<&'a FoldedDir>,
))
    ensures
        (Walked { found: dir_refs(r.0@), too_deep: dir_refs(r.1@) }) == walk_all(
            index@,
            at,
            dir_refs(dirs@),
            depth as nat,
        ),
    decreases depth, 1nat,
{
    let ghost rows = dir_refs(dirs@);
    let ghost whole = walk_all(index@, at, rows, depth as nat);
    let mut found = no_dirs();
    let mut too_deep = no_dirs();
    let mut i: usize = dirs.len();
    assert(rows.take(i as int) =~= rows);
    assert(dir_refs(found@) + whole.found =~= whole.found);
    assert(dir_refs(too_deep@) + whole.too_deep =~= whole.too_deep);
    while i > 0
        invariant
            i <= dirs@.len(),
            rows == dir_refs(dirs@),
            whole == walk_all(index@, at, rows, depth as nat),
            (Walked { found: dir_refs(found@), too_deep: dir_refs(too_deep@) }).joined_to(
                walk_all(index@, at, rows.take(i as int), depth as nat),
            ) == whole,
        decreases i,
    {
        let d = dirs[i - 1];
        let ghost sofar = Walked { found: dir_refs(found@), too_deep: dir_refs(too_deep@) };
        let ghost rest = walk_all(index@, at, rows.take(i - 1), depth as nat);
        assert(rows.take(i as int).last() == d@);
        assert(rows.take(i as int).drop_last() =~= rows.take(i - 1));
        let (f, t) = walk_from(index, at, d, depth);
        let ghost here = Walked { found: dir_refs(f@), too_deep: dir_refs(t@) };
        append_dirs(&mut found, f);
        append_dirs(&mut too_deep, t);
        proof {
            assert(sofar.found + (here.found + rest.found) =~= (sofar.found + here.found) + rest.found);
            assert(sofar.too_deep + (here.too_deep + rest.too_deep) =~= (sofar.too_deep + here.too_deep)
                + rest.too_deep);
        }
        i -= 1;
    }
    proof {
        assert(rows.take(0).len() == 0);
        assert(dir_refs(found@) + Seq::<DirModel>::empty() =~= dir_refs(found@));
        assert(dir_refs(too_deep@) + Seq::<DirModel>::empty() =~= dir_refs(too_deep@));
    }
    (found, too_deep)
}

fn module_dirs<'a>(index: &'a FoldedIndex, at: StopAt, root: &FsPath) -> (r: (Vec<&'a FoldedDir>, Vec<&'a FoldedDir>))
    ensures
        (Walked { found: dir_refs(r.0@), too_deep: dir_refs(r.1@) }) == modules_under(index@, at, root@),
{
    let dirs = index.children(root);
    let (found, too_deep) = walk_each(index, at, &dirs, MODULE_WALK_DEPTH);
    (sort_by_path(&found), too_deep)
}

/// The module versions of a module cache, by its top directories but `cache`.
pub open spec fn cached_modules(rows: Seq<DirModel>, tops: Seq<DirModel>) -> Walked
    decreases tops.len(),
{
    if tops.len() == 0 {
        Walked { found: Seq::empty(), too_deep: Seq::empty() }
    } else {
        let t = tops.last();
        cached_modules(rows, tops.drop_last()).joined_to(
            if name_of(t.path).contains('@') {
                Walked { found: seq![t], too_deep: Seq::empty() }
            } else {
                modules_under(rows, StopAt::Version, t.path)
            },
        )
    }
}

fn find_cached_modules<'a>(index: &'a FoldedIndex, tops: &Vec<&'a FoldedDir>) -> (r: (
    Vec<&'a FoldedDir>,
    Vec<&'a FoldedDir>,
))
    ensures
        (Walked { found: dir_refs(r.0@), too_deep: dir_refs(r.1@) }) == cached_modules(index@, dir_refs(tops@)),
{
    let ghost rows = dir_refs(tops@);
    let mut found = no_dirs();
    let mut too_deep = no_dirs();
    let mut i: usize = 0;
    while i < tops.len()
        invariant
            i <= tops@.len(),
            rows == dir_refs(tops@),
            (Walked { found: dir_refs(found@), too_deep: dir_refs(too_deep@) }) == cached_modules(
                index@,
                rows.take(i as int),
            ),
        decreases tops@.len() - i,
    {
        let t = tops[i];
        assert(rows.take(i + 1).last() == t@);
        assert(rows.take(i + 1).drop_last() =~= rows.take(i as int));
        let name = t.path.name();
        if has_char(name.as_str(), '@') {
            append_dirs(&mut found, one_dir(t));
            append_dirs(&mut too_deep, no_dirs());
        } else {
            let (f, d) = module_dirs(index, StopAt::Version, &t.path);
            append_dirs(&mut found, f);
            append_dirs(&mut too_deep, d);
        }
        i += 1;
    }
    assert(rows.take(i as int) =~= rows);
    (found, too_deep)
}

/// What an extracted module version is: an ordinary dependency, or a toolchain.
pub open spec fn version_unit(c: ContainerModel, d: DirModel, rel: Seq<char>, module: Seq<char>, version: Seq<char>) -> UnitModel {
    let reason = "`"@ + rel + "` is an extracted module version (`<module>@<version>`)"@;
    let b = match toolchain_named(module, version) {
        Some((toolchain, platform)) => UnitModel::known_dir(
            c,
            ArtifactRole::Installation,
            d,
            reason,
            "the go command downloads this toolchain again when a module's `toolchain` line asks for it -- needs network access"@,
        ).variant(
            VariantModel {
                architecture: if platform.len() > 0 {
                    Some(platform)
                } else {
                    None
                },
                ..no_variant().with_package(module).with_version(version).with_toolchain(toolchain)
            },
        ),
        None => UnitModel::known_dir(
            c,
            ArtifactRole::SharedStoreEntry,
            d,
            reason,
            "the next build that needs this version downloads it again -- needs module proxy access"@,
        ).variant(no_variant().with_package(module).with_version(version).unknown("build-generation"@)),
    };
    b.evidence("go-module-path"@, module + "@"@ + version, Confidence::High)
}

fn identify_version(container: &BuildContainer, d: &FoldedDir, rel: &str, module: &str, version: &str) -> (r: NestedUnitBuilder)
    ensures
        r@ == version_unit(container@, d@, rel@, module@, version@),
{
    let reason = cat3("`", rel, "` is an extracted module version (`<module>@<version>`)");
    let detail = cat3(module, "@", version);
    let b = match toolchain_of(module, version) {
        Some((toolchain, platform)) => {
            let mut v = ArtifactVariant::none().with_package(module).with_version(version).with_toolchain(
                toolchain.as_str(),
            );
            v.architecture = if !platform.as_str().is_empty() {
                Some(platform)
            } else {
                None
            };
            NestedUnitBuilder::known_dir(
                container,
                ArtifactRole::Installation,
                d,
                reason.as_str(),
                "the go command downloads this toolchain again when a module's `toolchain` line asks for it -- needs network access",
            ).variant(v)
        },
        None => NestedUnitBuilder::known_dir(
            container,
            ArtifactRole::SharedStoreEntry,
            d,
            reason.as_str(),
            "the next build that needs this version downloads it again -- needs module proxy access",
        ).variant(
            ArtifactVariant::none().with_package(module).with_version(version).unknown("build-generation"),
        ),
    };
    b.evidence("go-module-path", detail.as_str(), Confidence::High)
}

/// One directory of the module cache named `<module>@<version>`.
pub open spec fn module_unit(c: ContainerModel, d: DirModel) -> Seq<UnitModel> {
    let rel = relative(c.path, d.path);
    match cut_last(rel, '@') {
        None => Seq::empty(),
        Some((path, version)) => {
            let b = match unescaped(path) {
                Some(module) => version_unit(c, d, rel, module, version),
                None => UnitModel::unknown_dir(c, d, "`"@ + rel + "` is not a validly escaped module path"@),
            };
            seq![b.membership(Membership::Unknown).no_action_because(CACHE_SHARED@)]
        },
    }
}

fn identify_module(container: &BuildContainer, d: &FoldedDir) -> (r: Vec<NestedArtifact>)
    ensures
        units_view(r@) == module_unit(container@, d@),
{
    let rel = relative_path(&container.path, &d.path);
    match split_last(rel.as_str(), '@') {
        None => no_units(),
        Some((path, version)) => {
            let b = match unescape_module_path(path.as_str()) {
                Some(module) => identify_version(
                    container,
                    d,
                    rel.as_str(),
                    module.as_str(),
                    version.as_str(),
                ),
                None => {
                    let limit = cat3("`", rel.as_str(), "` is not a validly escaped module path");
                    NestedUnitBuilder::unknown_dir(container, d, limit.as_str())
                },
            };
            one(b.membership(Membership::Unknown).no_action_because(CACHE_SHARED).build())
        },
    }
}

pub open spec fn deep_unit(c: ContainerModel, d: DirModel, limit: Seq<char>) -> Seq<UnitModel> {
    seq![UnitModel::unknown_dir(c, d, "`"@ + relative(c.path, d.path) + limit)]
}

fn identify_deep(container: &BuildContainer, d: &FoldedDir, limit: &str) -> (r: Vec<NestedArtifact>)
    ensures
        units_view(r@) == deep_unit(container@, d@, limit@),
{
    let rel = relative_path(&container.path, &d.path);
    let text = cat3("`", rel.as_str(), limit);
    one(NestedUnitBuilder::unknown_dir(container, d, text.as_str()).build())
}

/// The module cache's own bookkeeping beside the modules.
pub open spec fn cache_unit(c: ContainerModel, ctx: CtxModel) -> Seq<UnitModel> {
    match row_of(ctx.rows, joined_path(c.path, "cache"@)) {
        Some(d) => seq![
            UnitModel::known_dir(
                c,
                ArtifactRole::Intermediate,
                d,
                "`cache/` is the module cache's own bookkeeping (VCS clones, locks); its `download/` is measured as a separate store"@,
                "the next direct (non-proxy) fetch clones the repositories again"@,
            ).no_action_because(CACHE_SHARED@),
        ],
        None => Seq::empty(),
    }
}

fn identify_cache_unit(container: &BuildContainer, ctx: &BuildCtx) -> (r: Vec<NestedArtifact>)
    ensures
        units_view(r@) == cache_unit(container@, ctx@),
{
    match ctx.folded().get(&container.path.join("cache")) {
        Some(d) => one(
            NestedUnitBuilder::known_dir(
                container,
                ArtifactRole::Intermediate,
                d,
                "`cache/` is the module cache's own bookkeeping (VCS clones, locks); its `download/` is measured as a separate store",
                "the next direct (non-proxy) fetch clones the repositories again",
            ).no_action_because(CACHE_SHARED).build(),
        ),
        None => no_units(),
    }
}

/// The extracted module sources: one unit per version.
pub open spec fn module_cache(c: ContainerModel, ctx: CtxModel) -> Seq<UnitModel> {
    let tops = child_rows(ctx.rows, c.path).filter(|d: DirModel| name_of(d.path) != "cache"@);
    let w = cached_modules(ctx.rows, tops);
    seq![
        UnitModel::container_root(c, ctx, ArtifactRole::SharedStoreEntry).supported(
            "Go's module cache (GOMODCACHE): extracted, read-only module sources"@,
        ).membership(Membership::Unknown).consequence(
            "the next build downloads and extracts the modules it needs again -- needs module proxy access; Go makes these files read-only, so removal is `go clean -modcache`"@,
        ).no_action_because(CACHE_SHARED@),
    ] + cache_unit(c, ctx) + flat(w.found, |d: DirModel| module_unit(c, d)) + flat(
        w.too_deep,
        |d: DirModel| deep_unit(c, d, "` has no `@version` component within 8 levels"@),
    )
}

pub fn identify_module_cache(container: &BuildContainer, ctx: &BuildCtx) -> (r: Vec<NestedArtifact>)
    ensures
        units_view(r@) == module_cache(container@, ctx@),
{
    let mut units = one(
        NestedUnitBuilder::container_root(container, ctx, ArtifactRole::SharedStoreEntry).supported_with_reason(
            "Go's module cache (GOMODCACHE): extracted, read-only module sources",
        ).membership(Membership::Unknown).consequence(
            "the next build downloads and extracts the modules it needs again -- needs module proxy access; Go makes these files read-only, so removal is `go clean -modcache`",
        ).no_action_because(CACHE_SHARED).build(),
    );
    append_units(&mut units, identify_cache_unit(container, ctx));
    let all = ctx.folded().children(&container.path);
    let tops = filter_dirs(
        &all,
        |d: &FoldedDir| -> (keep: bool)
            ensures
                keep == (name_of(d@.path) != "cache"@)
            {
                let name = d.path.name();
                !same(name.as_str(), "cache")
            },
        Ghost(|d: DirModel| name_of(d.path) != "cache"@),
    );
    let (found, too_deep) = find_cached_modules(ctx.folded(), &tops);
    let more = each_dir(
        &found,
        |d: &FoldedDir| -> (out: Vec<NestedArtifact>)
            ensures
                units_view(out@) == module_unit(container@, d@)
            { identify_module(container, d) },
        Ghost(|d: DirModel| module_unit(container@, d)),
    );
    append_units(&mut units, more);
    let deep = each_dir(
        &too_deep,
        |d: &FoldedDir| -> (out: Vec<NestedArtifact>)
            ensures
                units_view(out@) == deep_unit(container@, d@, "` has no `@version` component within 8 levels"@)
            { identify_deep(container, d, "` has no `@version` component within 8 levels") },
        Ghost(|d: DirModel| deep_unit(container@, d, "` has no `@version` component within 8 levels"@)),
    );
    append_units(&mut units, deep);
    units
}

// ---------------------------------------------------------------------
// The download cache
// ---------------------------------------------------------------------

/// The version a file of an `@v` directory belongs to.
pub open spec fn version_of(file: Seq<char>) -> Option<Seq<char>> {
    match before_suffix(file, ".mod"@) {
        Some(v) => Some(v),
        None => match before_suffix(file, ".zip"@) {
            Some(v) => Some(v),
            None => before_suffix(file, ".info"@),
        },
    }
}

/// The versions of the first `n` entries, in listing order.
pub open spec fn listed_versions(entries: Seq<EntryModel>, n: int) -> Seq<Seq<char>>
    decreases n,
{
    if n <= 0 {
        Seq::empty()
    } else {
        let rest = listed_versions(entries, n - 1);
        let e = entries[n - 1];
        match version_of(e.name) {
            Some(v) => if e.is_dir {
                rest
            } else {
                rest.push(v)
            },
            None => rest,
        }
    }
}

/// The versions an `@v` directory holds: sorted, each once.
pub open spec fn versions_in(entries: Seq<EntryModel>) -> Seq<Seq<char>> {
    without_repeats(sorted_texts(listed_versions(entries, entries.len() as int)))
}

fn find_versions(entries: &Vec<ShallowEntry>) -> (r: Vec<String>)
    ensures
        texts(r@) == versions_in(entries_view(entries@)),
{
    let ghost all = entries_view(entries@);
    let mut out: Vec<String> = Vec::new();
    let mut i: usize = 0;
    assert(texts(out@) =~= listed_versions(all, 0));
    while i < entries.len()
        invariant
            i <= entries@.len(),
            all == entries_view(entries@),
            texts(out@) == listed_versions(all, i as int),
        decreases entries@.len() - i,
    {
        let e = &entries[i];
        assert(all[i as int] == e@);
        let name = e.name.as_str();
        let v = match drop_suffix(name, ".mod") {
            Some(v) => Some(v),
            None => match drop_suffix(name, ".zip") {
                Some(v) => Some(v),
                None => drop_suffix(name, ".info"),
            },
        };
        match v {
            Some(v) => {
                if !e.is_dir {
                    push_text(&mut out, v.as_str());
                }
            },
            None => {},
        }
        i += 1;
    }
    let sorted = sort_texts(&out);
    drop_repeats(&sorted)
}

/// Whether an entry has a name.
pub open spec fn has_entry(entries: Seq<EntryModel>, name: Seq<char>) -> bool {
    exists|i: int| 0 <= i < entries.len() && (#[trigger] entries[i]).name == name
}

fn holds_entry(entries: &Vec<ShallowEntry>, name: &str) -> (r: bool)
    ensures
        r == has_entry(entries_view(entries@), name@),
{
    let ghost all = entries_view(entries@);
    let mut i: usize = 0;
    while i < entries.len()
        invariant
            i <= entries@.len(),
            all == entries_view(entries@),
            forall|k: int| 0 <= k < i ==> (#[trigger] all[k]).name != name@,
        decreases entries@.len() - i,
    {
        assert(all[i as int] == entries@[i as int]@);
        if same(entries[i].name.as_str(), name) {
            return true;
        }
        i += 1;
    }
    false
}

/// The names of the first `n` entries that begin with `p`.
pub open spec fn names_with(entries: Seq<EntryModel>, p: Seq<char>, n: int) -> Seq<Seq<char>>
    decreases n,
{
    if n <= 0 {
        Seq::empty()
    } else if begins(entries[n - 1].name, p) {
        names_with(entries, p, n - 1).push(entries[n - 1].name)
    } else {
        names_with(entries, p, n - 1)
    }
}

fn find_names_with(entries: &Vec<ShallowEntry>, p: &str) -> (r: Vec<String>)
    ensures
        texts(r@) == names_with(entries_view(entries@), p@, entries@.len() as int),
{
    let ghost all = entries_view(entries@);
    let mut out: Vec<String> = Vec::new();
    let mut i: usize = 0;
    assert(texts(out@) =~= names_with(all, p@, 0));
    while i < entries.len()
        invariant
            i <= entries@.len(),
            all == entries_view(entries@),
            texts(out@) == names_with(all, p@, i as int),
        decreases entries@.len() - i,
    {
        assert(all[i as int] == entries@[i as int]@);
        if starts(entries[i].name.as_str(), p) {
            push_text(&mut out, entries[i].name.as_str());
        }
        i += 1;
    }
    out
}

/// One downloaded version: its archive, or the `go.mod` alone where the source
/// was never needed.
pub open spec fn download_unit(
    c: ContainerModel,
    ctx: CtxModel,
    at: PathModel,
    rel: Seq<char>,
    module: Seq<char>,
    v: Seq<char>,
) -> Seq<UnitModel> {
    let entries = listing_of(ctx.facts, at);
    let zipped = has_entry(entries, v + ".zip"@);
    let file = joined_path(
        at,
        if zipped {
            v + ".zip"@
        } else {
            v + ".mod"@
        },
    );
    let companions = names_with(entries, v + "."@, entries.len() as int);
    match stat_of(ctx.facts, file) {
        None => Seq::empty(),
        Some(meta) => seq![
            UnitModel::blank(
                c,
                if zipped {
                    ArtifactRole::SharedStoreEntry
                } else {
                    ArtifactRole::Metadata
                },
                file,
            ).file_metadata(meta).supported(
                "`"@ + rel + "/@v/"@ + v + "` is "@ + (if zipped {
                    "the downloaded source archive"@
                } else {
                    "only the module's go.mod (the source was never needed)"@
                }),
            ).variant(no_variant().with_package(module).with_version(v)).evidence(
                "go-module-path"@,
                module + "@"@ + v,
                Confidence::High,
            ).limit(
                "sized from its `"@ + (if zipped {
                    ".zip"@
                } else {
                    ".mod"@
                }) + "` alone; its companions ("@ + joined(companions, ", "@)
                    + ") are counted in the module directory's total"@,
            ).action_group(rel + "/@v/"@ + v).membership(Membership::Unknown).consequence(
                if zipped {
                    "the next build that needs this version downloads it again -- needs module proxy access"@
                } else {
                    "the next module-graph load fetches this go.mod again"@
                },
            ).no_action_because(DOWNLOADS_SHARED@),
        ],
    }
}

fn identify_download(
    container: &BuildContainer,
    ctx: &BuildCtx,
    at: &FsPath,
    entries: &Vec<ShallowEntry>,
    rel: &str,
    module: &str,
    v: &str,
) -> (r: Vec<NestedArtifact>)
    requires
        entries_view(entries@) == listing_of(ctx@.facts, at@),
    ensures
        units_view(r@) == download_unit(container@, ctx@, at@, rel@, module@, v@),
{
    let zip = cat2(v, ".zip");
    let zipped = holds_entry(entries, zip.as_str());
    let file = if zipped {
        at.join(zip.as_str())
    } else {
        at.join(cat2(v, ".mod").as_str())
    };
    let stem = cat2(v, ".");
    let companions = find_names_with(entries, stem.as_str());
    match ctx.stat(&file) {
        None => no_units(),
        Some(meta) => {
            let role = if zipped {
                ArtifactRole::SharedStoreEntry
            } else {
                ArtifactRole::Metadata
            };
            let what: &str = if zipped {
                "the downloaded source archive"
            } else {
                "only the module's go.mod (the source was never needed)"
            };
            let consequence: &str = if zipped {
                "the next build that needs this version downloads it again -- needs module proxy access"
            } else {
                "the next module-graph load fetches this go.mod again"
            };
            let reason = cat6("`", rel, "/@v/", v, "` is ", what);
            let detail = cat3(module, "@", v);
            let names = join_texts(&companions, ", ");
            let limit = cat5(
                "sized from its `",
                if zipped {
                    ".zip"
                } else {
                    ".mod"
                },
                "` alone; its companions (",
                names.as_str(),
                ") are counted in the module directory's total",
            );
            let group = cat3(rel, "/@v/", v);
            one(
                NestedUnitBuilder::new(container, role, file).from_file_metadata(&meta).supported_with_reason(
                    reason.as_str(),
                ).variant(ArtifactVariant::none().with_package(module).with_version(v)).evidence(
                    "go-module-path",
                    detail.as_str(),
                    Confidence::High,
                ).limit(limit.as_str()).action_group(group.as_str()).membership(Membership::Unknown).consequence(
                    consequence,
                ).no_action_because(DOWNLOADS_SHARED).build(),
            )
        },
    }
}

/// The unit of an `@v` directory whose module path is not validly escaped.
pub open spec fn bad_module(c: ContainerModel, d: DirModel, rel: Seq<char>) -> Seq<UnitModel> {
    seq![UnitModel::unknown_dir(c, d, "`"@ + rel + "` is not a validly escaped module path"@)]
}

/// One module of the download cache, its versions listed.
pub open spec fn listed_module(c: ContainerModel, ctx: CtxModel, d: DirModel) -> Seq<UnitModel> {
    match parent(d.path) {
        None => Seq::empty(),
        Some(dir) => {
            let rel = relative(c.path, dir);
            match unescaped(rel) {
                None => bad_module(c, d, rel),
                Some(module) => flat(
                    versions_in(listing_of(ctx.facts, d.path)),
                    |v: Seq<char>| download_unit(c, ctx, d.path, rel, module, v),
                ),
            }
        },
    }
}

fn identify_listed(container: &BuildContainer, ctx: &BuildCtx, d: &FoldedDir) -> (r: Vec<NestedArtifact>)
    ensures
        units_view(r@) == listed_module(container@, ctx@, d@),
{
    match d.path.parent() {
        None => no_units(),
        Some(dir) => {
            let rel = relative_path(&container.path, &dir);
            match unescape_module_path(rel.as_str()) {
                None => identify_bad_module(container, d, rel.as_str()),
                Some(module) => {
                    let entries = ctx.list(&d.path);
                    let versions = find_versions(&entries);
                    assert(views(versions@) =~= texts(versions@));
                    each(
                        &versions,
                        |v: &String| -> (out: Vec<NestedArtifact>)
                            ensures
                                units_view(out@) == download_unit(
                                    container@,
                                    ctx@,
                                    d@.path,
                                    rel@,
                                    module@,
                                    v@,
                                )
                            {
                                identify_download(
                                    container,
                                    ctx,
                                    &d.path,
                                    &entries,
                                    rel.as_str(),
                                    module.as_str(),
                                    v.as_str(),
                                )
                            },
                        Ghost(
                            |v: Seq<char>| download_unit(container@, ctx@, d@.path, rel@, module@, v),
                        ),
                    )
                },
            }
        },
    }
}

fn identify_bad_module(container: &BuildContainer, d: &FoldedDir, rel: &str) -> (r: Vec<NestedArtifact>)
    ensures
        units_view(r@) == bad_module(container@, d@, rel@),
{
    let limit = cat3("`", rel, "` is not a validly escaped module path");
    one(NestedUnitBuilder::unknown_dir(container, d, limit.as_str()).build())
}

/// One module of the download cache beyond those that get a listing.
pub open spec fn unlisted_module(c: ContainerModel, d: DirModel) -> Seq<UnitModel> {
    match parent(d.path) {
        None => Seq::empty(),
        Some(dir) => {
            let rel = relative(c.path, dir);
            match unescaped(rel) {
                None => bad_module(c, d, rel),
                Some(module) => seq![
                    UnitModel::known_dir(
                        c,
                        ArtifactRole::SharedStoreEntry,
                        d,
                        "`"@ + rel + "/@v` holds the downloads of one module"@,
                        "the next build that needs these versions downloads them again -- needs module proxy access"@,
                    ).variant(no_variant().with_package(module).unknown("version"@)).limit(
                        "versions not listed: only the 2000 largest modules get a listing"@,
                    ).membership(Membership::Unknown).no_action_because(DOWNLOADS_SHARED@),
                ],
            }
        },
    }
}

fn identify_unlisted(container: &BuildContainer, d: &FoldedDir) -> (r: Vec<NestedArtifact>)
    ensures
        units_view(r@) == unlisted_module(container@, d@),
{
    match d.path.parent() {
        None => no_units(),
        Some(dir) => {
            let rel = relative_path(&container.path, &dir);
            match unescape_module_path(rel.as_str()) {
                None => identify_bad_module(container, d, rel.as_str()),
                Some(module) => {
                    let reason = cat3("`", rel.as_str(), "/@v` holds the downloads of one module");
                    one(
                        NestedUnitBuilder::known_dir(
                            container,
                            ArtifactRole::SharedStoreEntry,
                            d,
                            reason.as_str(),
                            "the next build that needs these versions downloads them again -- needs module proxy access",
                        ).variant(ArtifactVariant::none().with_package(module.as_str()).unknown("version")).limit(
                            "versions not listed: only the 2000 largest modules get a listing",
                        ).membership(Membership::Unknown).no_action_because(DOWNLOADS_SHARED).build(),
                    )
                },
            }
        },
    }
}

pub open spec fn sumdb_unit(c: ContainerModel, ctx: CtxModel) -> Seq<UnitModel> {
    match row_of(ctx.rows, joined_path(c.path, "sumdb"@)) {
        Some(d) => seq![
            UnitModel::known_dir(
                c,
                ArtifactRole::Metadata,
                d,
                "`sumdb/` caches checksum-database tiles"@,
                "the go command fetches the checksum tiles it needs again"@,
            ),
        ],
        None => Seq::empty(),
    }
}

fn identify_sumdb(container: &BuildContainer, ctx: &BuildCtx) -> (r: Vec<NestedArtifact>)
    ensures
        units_view(r@) == sumdb_unit(container@, ctx@),
{
    match ctx.folded().get(&container.path.join("sumdb")) {
        Some(d) => one(
            NestedUnitBuilder::known_dir(
                container,
                ArtifactRole::Metadata,
                d,
                "`sumdb/` caches checksum-database tiles",
                "the go command fetches the checksum tiles it needs again",
            ).build(),
        ),
        None => no_units(),
    }
}

/// The modules of the download cache, the largest first; the checksum
/// database is none.
pub open spec fn downloaded_modules(c: ContainerModel, ctx: CtxModel) -> Seq<DirModel> {
    by_size(
        modules_under(ctx.rows, StopAt::Downloads, c.path).found.filter(
            |d: DirModel| !within(d.path, joined_path(c.path, "sumdb"@)),
        ),
    )
}

/// The raw downloads: one unit per downloaded version.
pub open spec fn downloads(c: ContainerModel, ctx: CtxModel) -> Seq<UnitModel> {
    let modules = downloaded_modules(c, ctx);
    let cut = first_of(modules.len(), MODULE_LISTING_BUDGET as nat);
    seq![
        UnitModel::container_root(c, ctx, ArtifactRole::SharedStoreEntry).supported(
            "Go's module download cache (GOMODCACHE/cache/download)"@,
        ).membership(Membership::Unknown).consequence(
            "the next build downloads the modules it needs again -- needs module proxy access"@,
        ).no_action_because(DOWNLOADS_SHARED@),
    ] + sumdb_unit(c, ctx) + flat(modules.take(cut), |d: DirModel| listed_module(c, ctx, d)) + flat(
        modules.skip(cut),
        |d: DirModel| unlisted_module(c, d),
    ) + flat(
        modules_under(ctx.rows, StopAt::Downloads, c.path).too_deep,
        |d: DirModel| deep_unit(c, d, "` has no `@v` directory within 8 levels"@),
    )
}

pub fn identify_downloads(container: &BuildContainer, ctx: &BuildCtx) -> (r: Vec<NestedArtifact>)
    ensures
        units_view(r@) == downloads(container@, ctx@),
{
    let mut units = one(
        NestedUnitBuilder::container_root(container, ctx, ArtifactRole::SharedStoreEntry).supported_with_reason(
            "Go's module download cache (GOMODCACHE/cache/download)",
        ).membership(Membership::Unknown).consequence(
            "the next build downloads the modules it needs again -- needs module proxy access",
        ).no_action_because(DOWNLOADS_SHARED).build(),
    );
    append_units(&mut units, identify_sumdb(container, ctx));
    let (found, too_deep) = module_dirs(ctx.folded(), StopAt::Downloads, &container.path);
    let sumdb = container.path.join("sumdb");
    let kept = filter_dirs(
        &found,
        |d: &FoldedDir| -> (keep: bool)
            ensures
                keep == !within(d@.path, joined_path(container@.path, "sumdb"@))
            { !d.path.within(&sumdb) },
        Ghost(|d: DirModel| !within(d.path, joined_path(container@.path, "sumdb"@))),
    );
    let modules = sort_by_size(&kept);
    assert(dir_refs(modules@) == downloaded_modules(container@, ctx@));
    assert(modules@.len() == dir_refs(modules@).len());
    let (listed, unlisted) = split_dirs(&modules, MODULE_LISTING_BUDGET);
    let more = each_dir(
        &listed,
        |d: &FoldedDir| -> (out: Vec<NestedArtifact>)
            ensures
                units_view(out@) == listed_module(container@, ctx@, d@)
            { identify_listed(container, ctx, d) },
        Ghost(|d: DirModel| listed_module(container@, ctx@, d)),
    );
    append_units(&mut units, more);
    let rest = each_dir(
        &unlisted,
        |d: &FoldedDir| -> (out: Vec<NestedArtifact>)
            ensures
                units_view(out@) == unlisted_module(container@, d@)
            { identify_unlisted(container, d) },
        Ghost(|d: DirModel| unlisted_module(container@, d)),
    );
    append_units(&mut units, rest);
    let deep = each_dir(
        &too_deep,
        |d: &FoldedDir| -> (out: Vec<NestedArtifact>)
            ensures
                units_view(out@) == deep_unit(container@, d@, "` has no `@v` directory within 8 levels"@)
            { identify_deep(container, d, "` has no `@v` directory within 8 levels") },
        Ghost(|d: DirModel| deep_unit(container@, d, "` has no `@v` directory within 8 levels"@)),
    );
    append_units(&mut units, deep);
    units
}

// ---------------------------------------------------------------------
// The build cache
// ---------------------------------------------------------------------

/// What a unit learns from a file in which Go keeps a time.
pub open spec fn with_record(u: UnitModel, c: ContainerModel, ctx: CtxModel, file: Seq<char>, what: Seq<char>) -> UnitModel {
    match whole_manifest_of(ctx.facts, joined_path(c.path, file)) {
        Some(m) => match read_u64(trimmed(m.text)) {
            Some(secs) => u.evidence(
                "go-build-cache"@,
                what + " "@ + decimal(secs as nat) + " (unix time, from "@ + file + ")"@,
                Confidence::High,
            ),
            None => u,
        },
        None => u,
    }
}

fn read_record(b: NestedUnitBuilder, container: &BuildContainer, ctx: &BuildCtx, file: &str, what: &str) -> (r: NestedUnitBuilder)
    ensures
        r@ == with_record(b@, container@, ctx@, file@, what@),
{
    match ctx.whole_manifest(&container.path.join(file)) {
        Some(m) => {
            let text = trim(m.text.as_str());
            match parse_u64(text.as_str()) {
                Some(secs) => {
                    let number = write_u64(secs);
                    let detail = cat6(what, " ", number.as_str(), " (unix time, from ", file, ")");
                    b.evidence("go-build-cache", detail.as_str(), Confidence::High)
                },
                None => b,
            }
        },
        None => b,
    }
}

/// One directory of the build cache: a bucket of hashed entries, or nothing
/// this adapter identifies.
pub open spec fn bucket_unit(c: ContainerModel, d: DirModel) -> Seq<UnitModel> {
    let name = name_of(d.path);
    let b = if name.len() == 2 && all_hex(name) {
        UnitModel::known_dir(
            c,
            ArtifactRole::Intermediate,
            d,
            "`"@ + name + "/` is one of the build cache's 256 hash-prefix buckets"@,
            "the builds whose entries hash here recompile what they would have reused"@,
        ).variant(
            no_variant().with_configuration("key prefix "@ + name).unknown("package"@).unknown("target"@).unknown(
                "build-generation"@,
            ),
        ).limit("a bucket's newest modification is its newest entry's write, not a read"@)
    } else {
        UnitModel::unknown_dir(c, d, "`"@ + name + "` is not a build-cache bucket"@)
    };
    seq![b.membership(Membership::Unknown).no_action_because(BUILDS_SHARED@)]
}

fn identify_bucket(container: &BuildContainer, d: &FoldedDir) -> (r: Vec<NestedArtifact>)
    ensures
        units_view(r@) == bucket_unit(container@, d@),
{
    let name = d.path.name();
    let b = if name.as_str().unicode_len() == 2 && only_hex(name.as_str()) {
        let reason = cat3("`", name.as_str(), "/` is one of the build cache's 256 hash-prefix buckets");
        let key = cat2("key prefix ", name.as_str());
        NestedUnitBuilder::known_dir(
            container,
            ArtifactRole::Intermediate,
            d,
            reason.as_str(),
            "the builds whose entries hash here recompile what they would have reused",
        ).variant(
            ArtifactVariant::none().with_configuration(key.as_str()).unknown("package").unknown("target").unknown(
                "build-generation",
            ),
        ).limit("a bucket's newest modification is its newest entry's write, not a read")
    } else {
        let limit = cat3("`", name.as_str(), "` is not a build-cache bucket");
        NestedUnitBuilder::unknown_dir(container, d, limit.as_str())
    };
    one(b.membership(Membership::Unknown).no_action_because(BUILDS_SHARED).build())
}

/// The build cache: its buckets, each opaque, and Go's own records of when it
/// trimmed it.
pub open spec fn build_cache(c: ContainerModel, ctx: CtxModel) -> Seq<UnitModel> {
    let root = UnitModel::container_root(c, ctx, ArtifactRole::Intermediate).supported(
        "Go's build cache (GOCACHE)"@,
    ).membership(Membership::Unknown).limit(
        "entries are named by a hash of an action's inputs: an entry identifies no package, no test binary and no build, and nothing on disk says whether a later build will read it"@,
    ).consequence(
        "the next builds recompile what they would have reused, and cached test results are run again"@,
    ).no_action_because(BUILDS_SHARED@);
    let trimmed_at = with_record(
        root,
        c,
        ctx,
        "trim.txt"@,
        "the go command last trimmed entries it had not used recently at"@,
    );
    let expired_at = with_record(
        trimmed_at,
        c,
        ctx,
        "testexpire.txt"@,
        "`go clean -testcache` last expired cached test results at"@,
    );
    seq![expired_at] + flat(child_rows(ctx.rows, c.path), |d: DirModel| bucket_unit(c, d))
}

pub fn identify_build_cache(container: &BuildContainer, ctx: &BuildCtx) -> (r: Vec<NestedArtifact>)
    ensures
        units_view(r@) == build_cache(container@, ctx@),
{
    let root = NestedUnitBuilder::container_root(container, ctx, ArtifactRole::Intermediate).supported_with_reason(
        "Go's build cache (GOCACHE)",
    ).membership(Membership::Unknown).limit(
        "entries are named by a hash of an action's inputs: an entry identifies no package, no test binary and no build, and nothing on disk says whether a later build will read it",
    ).consequence(
        "the next builds recompile what they would have reused, and cached test results are run again",
    ).no_action_because(BUILDS_SHARED);
    let trimmed_at = read_record(
        root,
        container,
        ctx,
        "trim.txt",
        "the go command last trimmed entries it had not used recently at",
    );
    let expired_at = read_record(
        trimmed_at,
        container,
        ctx,
        "testexpire.txt",
        "`go clean -testcache` last expired cached test results at",
    );
    let mut units = one(expired_at.build());
    let dirs = ctx.folded().children(&container.path);
    let more = each_dir(
        &dirs,
        |d: &FoldedDir| -> (out: Vec<NestedArtifact>)
            ensures
                units_view(out@) == bucket_unit(container@, d@)
            { identify_bucket(container, d) },
        Ghost(|d: DirModel| bucket_unit(container@, d)),
    );
    append_units(&mut units, more);
    units
}

} // verus!
