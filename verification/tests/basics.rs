//! Paths, numbers, keys, projects and whole passes.

use swamp_core::artifact::{
    AccountingBasis, ArtifactRole, Membership, NestedActionCapability, NestedArtifact, RoleFamily,
};
use swamp_core::build_adapters::container::CacheEntry;
use swamp_core::build_adapters::jvm_common::coordinates_from_relative;
use swamp_core::build_adapters::layout::{header, property, split_name_version};
use swamp_core::build_adapters::registry::Registry;
use swamp_core::build_adapters::{
    identify_all, BuildContainer, BuildCtx, ContainerCache, FoldedDir, FoldedIndex, NestedUnitBuilder,
};
use swamp_core::consumers::projects::{
    group_projects, DiscoveredWorktree, Event, ProjectsConsumer, Reconciliation, RootObserved,
};
use swamp_core::detectors::{anchored_places, Located, StoreAnchor};
use swamp_core::facts::{FileFact, FileFacts, FileKind, FileStat, ShallowEntry, Truncation};
use swamp_core::fs_events::EventCoverage;
use swamp_core::growth::{external_row_key, parse_external_key};
use swamp_core::locations::{BuildStoreKind, StorageCategory};
use swamp_core::number::{parse_flag, parse_u64, write_flag, write_u64};
use swamp_core::path::{order_once, FsPath};
use swamp_core::report::WorktreeKind;
use swamp_core::text::{join_texts, sort_texts, split_lines, split_text, trim};

fn at(text: &str) -> FsPath {
    FsPath::parse(text)
}

#[test]
fn paths_read_back_and_join() {
    for text in ["/", "/a", "/a/b c/d", "a/b", "../x"] {
        assert_eq!(at(text).text(), text);
    }
    assert_eq!(at("/a").join("b/c"), at("/a/b/c"));
    assert_eq!(at("/a").join("/b"), at("/b"), "an absolute path replaces");
    assert_eq!(at("/a/b").parent(), Some(at("/a")));
    assert_eq!(at("/").parent(), None);
    assert_eq!(at("/a/b.tar.gz").extension().as_deref(), Some("gz"));
    assert_eq!(at("/a/b.tar.gz").file_stem().as_deref(), Some("b.tar"));
    assert_eq!(at("/a/.hidden").extension(), None);
    assert_eq!(at("/a//b/./c"), at("/a/b/c"));
    assert_ne!(at("./a"), at("a"), "a leading dot is a component");
    assert_eq!(at("/w").join("./out"), at("/w/out"), "but not once it is joined");
    assert_eq!(at("daemon-store://default").text(), "daemon-store://default");
    assert_eq!(at("daemon-store://default").join("x").text(), "daemon-store://default/x");
}

#[test]
fn paths_are_shown_as_they_were_written() {
    for text in ["/a//b", "/a/./b", "/a/b/", "./a", "//a", ""] {
        assert_eq!(at(text).text(), text);
        assert_eq!(at(text).copy().text(), text);
    }
    assert_eq!(at("/a//b").join("c").text(), "/a//b/c");
    assert_eq!(at("/a/").join("c").text(), "/a/c");
    assert_eq!(at("/w").join("./out").text(), "/w/./out");
    assert_eq!(at("/a//b//c/").parent().unwrap().text(), "/a//b");
    assert_eq!(at("/a/./b").parent().unwrap().text(), "/a");
    assert_eq!(at("//a").parent().unwrap().text(), "/");
    assert_eq!(at("a").parent().unwrap().text(), "");
    assert_eq!(at("/a/b/").name(), "b");
    assert!(at("/a//b/./c").within(&at("/a/b/")));
}

#[test]
fn nesting_is_by_components() {
    assert!(at("/a/b").within(&at("/a")));
    assert!(at("/a").within(&at("/a")));
    assert!(!at("/a").inside(&at("/a")));
    assert!(!at("/ab").within(&at("/a")));
}

#[test]
fn paths_are_ordered_and_kept_once() {
    let list = vec![at("/b"), at("/a/z"), at("/b"), at("/a")];
    assert_eq!(order_once(&list), vec![at("/a"), at("/a/z"), at("/b")]);
}

#[test]
fn numbers_read_back() {
    for n in [0u64, 7, 10, 4096, u64::MAX] {
        assert_eq!(parse_u64(&write_u64(n)), Some(n));
        assert_eq!(write_u64(n), n.to_string());
    }
    assert_eq!(parse_u64(""), None);
    assert_eq!(parse_u64("18446744073709551616"), None, "one too many");
    assert_eq!(parse_u64("12a"), None);
    assert_eq!(parse_u64("+5"), Some(5));
    assert_eq!(parse_flag(&write_flag(true)), Some(true));
    assert_eq!(parse_flag("yes"), None);
}

#[test]
fn texts_are_cut_and_put_together() {
    let owned = |v: &[&str]| v.iter().map(|s| s.to_string()).collect::<Vec<String>>();
    assert_eq!(split_text("a,,b", ','), owned(&["a", "", "b"]));
    assert_eq!(join_texts(&owned(&["a", "", "b"]), ","), "a,,b");
    assert_eq!(split_lines("a\r\nb\n\nc"), owned(&["a", "b", "", "c"]));
    assert_eq!(trim(" \t x y \n"), "x y");
    assert_eq!(sort_texts(&owned(&["b", "a", "B"])), owned(&["B", "a", "b"]));
}

#[test]
fn history_keys_read_back() {
    let key = external_row_key("cargo-home", "cache", 42, "/home/u/.cargo");
    assert_eq!(
        parse_external_key(&key),
        Some(("cargo-home".to_string(), "cache".to_string(), 42, "/home/u/.cargo".to_string()))
    );
    assert_ne!(key, external_row_key("cargo-home", "cache", 43, "/home/u/.cargo"));
}

#[test]
fn manifests_give_properties_headers_and_versions() {
    assert_eq!(property("a=1\n b = 2 \n", "b").as_deref(), Some("2"));
    assert_eq!(property("a=1\n", "c"), None);
    assert_eq!(header("Name: pkg\nVersion: 1.0\n\nName: body\n", "Version").as_deref(), Some("1.0"));
    assert_eq!(
        split_name_version("my-lib-1.2.3"),
        Some(("my-lib".to_string(), "1.2.3".to_string()))
    );
    assert_eq!(split_name_version("latest"), None);
}

#[test]
fn coordinates_come_from_a_module_path() {
    let c = coordinates_from_relative("org.slf4j/slf4j-api/2.0.9").unwrap();
    assert_eq!(c.group, "org.slf4j");
    assert_eq!(c.artifact, "slf4j-api");
    assert_eq!(c.version.as_deref(), Some("2.0.9"));
    assert_eq!(c.display(), "org.slf4j:slf4j-api:2.0.9");
}

#[test]
fn role_labels_read_back() {
    for role in [
        ArtifactRole::Output,
        ArtifactRole::TestExecutable,
        ArtifactRole::SharedStoreEntry,
        ArtifactRole::DeviceState,
        ArtifactRole::Residual,
    ] {
        assert_eq!(ArtifactRole::from_label(role.label()), Some(role));
    }
    assert_eq!(ArtifactRole::from_label("nothing of the kind"), None);
    assert_eq!(ArtifactRole::Example.family(), RoleFamily::Outputs);
}

#[test]
fn anchors_find_the_places_a_detector_published() {
    let located = |category: StorageCategory, path: &str| Located {
        detector_id: "d".to_string(),
        category,
        path: at(path),
    };
    let list = vec![
        located(StorageCategory::Cache, "/h/registry/src"),
        located(StorageCategory::Cache, "/h/registry/cache"),
        located(StorageCategory::Installation, "/h/bin"),
    ];
    let found = |anchor: StoreAnchor| anchored_places(&list, "d", &anchor);
    assert_eq!(
        found(StoreAnchor::Categorized { category: StorageCategory::Cache, suffix: vec!["registry", "src"] }),
        vec![0]
    );
    assert_eq!(
        found(StoreAnchor::CategorizedExcept { category: StorageCategory::Cache, except: vec![vec!["src"]] }),
        vec![1]
    );
    assert_eq!(found(StoreAnchor::SoleLocation), vec![0, 1, 2]);
    assert_eq!(anchored_places(&list, "other", &StoreAnchor::SoleLocation), Vec::<usize>::new());
}

#[test]
fn a_window_trusts_only_what_it_covers() {
    let c = EventCoverage::trusted(at("/w"), vec![at("/w/a/x")], 100);
    assert!(c.unchanged_since(&at("/w/b"), 100));
    assert!(!c.unchanged_since(&at("/w/a"), 100), "an event inside");
    assert!(!c.unchanged_since(&at("/elsewhere"), 100), "outside the window");
    assert!(!c.unchanged_since(&at("/w/b"), 99), "stored before the window opened");
}

// ---------------------------------------------------------------------
// Whole passes
// ---------------------------------------------------------------------

fn directory(path: &FsPath, entries: &[(&str, bool)]) -> FileFact {
    FileFact {
        path: path.copy(),
        stat: Some(FileStat::new(FileKind::Directory, 8, 4096, 5, 1, 3, 2)),
        is_file: false,
        is_dir: true,
        listing: entries
            .iter()
            .map(|(n, d)| ShallowEntry { name: n.to_string(), is_dir: *d })
            .collect(),
        listed: Truncation::Complete,
        manifest: None,
    }
}

fn file(path: &FsPath) -> FileFact {
    FileFact {
        path: path.copy(),
        stat: Some(FileStat::new(FileKind::File, 1, 10, 5, 1, 4, 1)),
        is_file: true,
        is_dir: false,
        listing: Vec::new(),
        listed: Truncation::Unreadable,
        manifest: None,
    }
}

fn folded(path: &FsPath, bytes: u64) -> FoldedDir {
    FoldedDir { path: path.copy(), allocated_total: bytes, mtime_max: 50, complete: true }
}

#[test]
fn a_project_output_is_offered_and_a_shared_store_is_not() {
    let root = at("/p");
    let dist = root.join("dist");
    let npm = at("/home/u/.npm");
    let facts = FileFacts {
        facts: vec![
            directory(&root, &[("package.json", false), ("dist", true)]),
            file(&root.join("package.json")),
            directory(&dist, &[]),
            directory(&npm, &[]),
        ],
    };
    let rows = FoldedIndex::from_dirs(vec![folded(&dist, 4096), folded(&npm, 8192)]);
    let coverage = EventCoverage::untrusted();
    let cache = ContainerCache::disabled();
    let mut ctx = BuildCtx::new(1_000, &rows, &coverage, &cache).with_facts(&facts);
    let store = BuildContainer::shared_store_of("node", npm.copy(), BuildStoreKind::NpmCache);
    let units = identify_all(
        &Registry::with_builtins(),
        &vec![(root.copy(), vec![dist.copy()])],
        &facts,
        &vec![store],
        &mut ctx,
    );
    let out = units.iter().find(|u| u.path == dist).unwrap();
    assert_eq!(out.role, ArtifactRole::Output);
    assert_eq!(out.action, NestedActionCapability::TrashPath);
    let shared: Vec<&NestedArtifact> = units.iter().filter(|u| u.path.within(&npm)).collect();
    assert!(!shared.is_empty());
    assert!(shared.iter().all(|u| u.action != NestedActionCapability::TrashPath));
    let mut seen: Vec<String> = units.iter().map(|u| u.path.text()).collect();
    let before = seen.len();
    seen.sort();
    seen.dedup();
    assert_eq!(seen.len(), before, "one unit for each path");
}

#[test]
fn only_files_with_one_name_are_charged() {
    let c = BuildContainer::project("node", at("/p/dist"), at("/p"));
    let one = FileStat::new(FileKind::File, 4, 2000, 5, 1, 9, 1);
    let two = FileStat::new(FileKind::File, 4, 2000, 5, 1, 9, 2);
    let charged = |s: &FileStat| {
        NestedUnitBuilder::new(&c, ArtifactRole::Output, at("/p/dist/x"))
            .from_file_metadata(s)
            .charged_uniquely()
            .build()
    };
    assert_eq!(charged(&one).physical_total, 2048);
    assert_eq!(charged(&two).physical_total, 0);
    assert_eq!(charged(&two).membership, Membership::SharedHardlink);
}

#[test]
fn only_what_file_metadata_measured_is_charged() {
    let c = BuildContainer::project("go", at("/c"), at("/c"));
    let u = NestedUnitBuilder::new(&c, ArtifactRole::Output, at("/c/f"))
        .bytes_on_basis(100, AccountingBasis::Allocated)
        .membership(Membership::Exclusive)
        .charged_uniquely()
        .build();
    assert_eq!((u.physical_bytes, u.physical_total), (0, 0));
    assert_eq!((u.bytes, u.basis), (100, AccountingBasis::Allocated));
}

#[test]
fn a_replay_is_good_for_the_next_window_too() {
    let c = BuildContainer::project("node", at("/p/dist"), at("/p"));
    let kept = vec![NestedUnitBuilder::new(&c, ArtifactRole::Output, at("/p/dist")).build()];
    let cache = ContainerCache::from_previous(kept.clone(), 100);
    let rows = FoldedIndex::empty();
    let first = EventCoverage::trusted(at("/p"), Vec::new(), 100);
    let mut ctx = BuildCtx::new(200, &rows, &first, &cache);
    let units = ctx.container(&c, |_| panic!("a replayed container is not identified"));
    assert_eq!(units, kept);
    assert_eq!(ctx.cache().stored(&c.scope()).map(|(at, _)| at), Some(200));

    let second = EventCoverage::trusted(at("/p"), Vec::new(), 200);
    let late = BuildCtx::new(300, &rows, &second, &cache);
    assert!(!late.can_reuse(&c), "the window does not reach back to the first answer");
    let next = BuildCtx::new(300, &rows, &second, ctx.cache());
    assert!(next.can_reuse(&c), "the replay verified it again");

    let other = BuildContainer::project("node", at("/p/out"), at("/p"));
    let mut ctx = BuildCtx::new(400, &rows, &second, next.cache());
    let fresh = vec![NestedUnitBuilder::new(&other, ArtifactRole::Output, at("/p/out")).build()];
    let units = ctx.container(&other, |_| fresh.clone());
    assert_eq!(units, fresh);
    assert_eq!(ctx.cache().stored(&c.scope()).map(|(at, _)| at), Some(200), "nothing else is stamped");
}

#[test]
fn a_verified_empty_answer_is_replayed() {
    let c = BuildContainer::shared_store_of("node", at("/s/npm"), BuildStoreKind::NpmCache);
    let entry = CacheEntry { scope: c.scope(), stored_at: 100, units: Vec::new() };
    let cache = ContainerCache::from_stored(vec![entry]);
    let rows = FoldedIndex::empty();
    let quiet = EventCoverage::trusted(at("/s"), Vec::new(), 100);
    let mut ctx = BuildCtx::new(200, &rows, &quiet, &cache);
    assert!(ctx.can_reuse(&c));
    assert_eq!(ctx.container(&c, |_| panic!("an empty answer is an answer")), vec![]);
}

#[test]
fn an_adapter_is_not_asked_about_what_another_has_claimed() {
    let root = at("/p");
    let build = root.join("app/build");
    let facts = FileFacts {
        facts: vec![
            directory(&root, &[("settings.gradle", false), ("app", true)]),
            file(&root.join("settings.gradle")),
            directory(&root.join("app"), &[("build", true), ("build.gradle", false)]),
            file(&root.join("app/build.gradle")),
            file(&root.join("app/src/main/AndroidManifest.xml")),
            directory(&build, &[("libs", true)]),
            directory(&build.join("libs"), &[]),
        ],
    };
    let rows = FoldedIndex::from_dirs(vec![folded(&build, 4096), folded(&build.join("libs"), 1024)]);
    let coverage = EventCoverage::untrusted();
    let cache = ContainerCache::disabled();
    let mut ctx = BuildCtx::new(1_000, &rows, &coverage, &cache).with_facts(&facts);
    let store = BuildContainer::shared_store("gradle", build.copy());
    let units = identify_all(
        &Registry::with_builtins(),
        &vec![(root.copy(), vec![build.copy()])],
        &facts,
        &vec![store],
        &mut ctx,
    );
    assert!(!units.is_empty());
    assert!(units.iter().all(|u| u.adapter.as_deref() == Some("android")), "{units:?}");
}

#[test]
fn a_replayed_container_is_not_identified_again() {
    let c = BuildContainer::project("node", at("/p/dist"), at("/p"));
    let kept = vec![NestedUnitBuilder::new(&c, ArtifactRole::Output, at("/p/dist")).build()];
    let cache = ContainerCache::from_previous(kept.clone(), 100);
    let rows = FoldedIndex::empty();
    let coverage = EventCoverage::trusted(at("/p"), Vec::new(), 100);
    let ctx = BuildCtx::new(200, &rows, &coverage, &cache);
    assert_eq!(ctx.replay(&c), Some(kept));
}

// ---------------------------------------------------------------------
// Projects
// ---------------------------------------------------------------------

fn worktree(id: &str, path: &str, kind: WorktreeKind, remote: Option<&str>) -> DiscoveredWorktree {
    DiscoveredWorktree {
        project_id: id.to_string(),
        project_name: id.to_string(),
        path: at(path),
        kind,
        remote_url: remote.map(|r| format!("git@{r}")),
        remote: remote.map(str::to_string),
    }
}

#[test]
fn checkouts_with_one_remote_are_one_project() {
    let g = group_projects(&vec![
        worktree("a", "/w/a", WorktreeKind::Main, Some("host/x")),
        worktree("b", "/w/b", WorktreeKind::Main, Some("host/x")),
        worktree("c", "/w/c", WorktreeKind::Main, None),
    ]);
    assert_eq!(g.projects.len(), 2);
    let shared = g.projects.iter().find(|p| p.worktrees.len() == 2).unwrap();
    let mains = shared.worktrees.iter().filter(|w| w.kind == WorktreeKind::Main).count();
    assert_eq!(mains, 1, "one checkout is the main one");
    assert_eq!(g.worktree_paths.len(), 3);
}

#[test]
fn a_checkout_found_twice_has_the_remote_found_last() {
    let g = group_projects(&vec![
        worktree("a", "/w/a", WorktreeKind::Main, Some("host/x")),
        worktree("a", "/w/a", WorktreeKind::Main, Some("host/y")),
        worktree("b", "/w/b", WorktreeKind::Main, Some("host/z")),
    ]);
    assert_eq!(g.worktree_remotes.len(), 2);
    let a = g.worktree_remotes.iter().find(|(id, _)| id.contains("/w/a")).unwrap();
    assert_eq!(a.1, "git@host/y");
}

#[test]
fn an_observed_root_is_answered_with_its_projects() {
    let consumer = ProjectsConsumer;
    assert_eq!(consumer.name(), "projects");
    assert_eq!(consumer.on_event(&Event::Other), None);
    let event = Event::RootObserved(RootObserved {
        discovered: vec![worktree("a", "/w/a", WorktreeKind::Main, None)],
        attributed_total: 10,
        unowned_total: 2,
        walked_total: 12,
        notes: vec!["note".to_string()],
        rewalked: Vec::new(),
        unconfirmed_worktree_ids: Vec::new(),
    });
    let answer = consumer.on_event(&event).unwrap();
    assert_eq!(answer.grouped.projects.len(), 1);
    assert_eq!(
        answer.reconciliation,
        Reconciliation { attributed: 10, unowned: 2, walked_total: 12, docker_attributed: 0, docker_unowned: 0 }
    );
    assert_eq!(answer.notes, vec!["note".to_string()]);
}
