//! Who uses what.

use swamp_core::consumer_wiring::attach::{
    record_kept, worktree_roots, workspace_outcome, DefaultReading, FolderReading, GapAnswer, Readings, RecordReading,
    WorktreeReading,
};
use swamp_core::consumer_wiring::caches::{
    cached_declarations, cached_identities, declaration_files, declaration_sources, declarations_kept, fingerprint,
    fingerprint_string,
    CachedIdentity, DeclarationScope, FileTimes, Gap, LockfileReadings, ToolVersionDeclaration,
};
use swamp_core::consumer_wiring::matching::{DeclarationAnswer, Listing, StoreEntry};
use swamp_core::consumer_wiring::{attach_associations, attach_project_associations};
use swamp_core::build_stores::tables::CachedRows;
use swamp_core::evidence::{Evidence, EvidenceSource, FactKind, FactStatus, FactSubtype, FactValue};
use swamp_core::external::unit::Provenance;
use swamp_core::external::ExternalUnit;
use swamp_core::locations::{Registry, StorageCategory};
use swamp_core::path::FsPath;
use swamp_core::report::{ArtifactKind, ArtifactRow, ProjectRow, Report, WorktreeKind, WorktreeRow};

const NOW: u64 = 1_000;

fn at(text: &str) -> FsPath {
    FsPath::parse(text)
}

fn tmp() -> FsPath {
    at("/fixture")
}

fn external_unit(detector_id: &str, category: StorageCategory, path: &FsPath) -> ExternalUnit {
    ExternalUnit {
        detector_id: detector_id.to_string(),
        detector_name: detector_id.to_string(),
        category,
        provenance: Provenance::BuiltinConvention,
        path: path.copy(),
        bytes: 0,
        mtime_max: 0,
        hardlinked: false,
        growth_bytes: None,
        regrowth_count: 0,
        observed_at: 0,
        consumers: Vec::new(),
        note: None,
        evidence: Vec::new(),
    }
}

fn source_row(path: &FsPath) -> ArtifactRow {
    ArtifactRow { kind: ArtifactKind::Source, path: path.copy(), evidence: Vec::new() }
}

fn one_worktree_project(name: &str, root: &FsPath) -> ProjectRow {
    ProjectRow {
        project_id: name.to_string(),
        name: name.to_string(),
        worktrees: vec![WorktreeRow {
            worktree_id: name.to_string(),
            path: root.copy(),
            kind: WorktreeKind::Main,
            artifacts: vec![source_row(root)],
        }],
        ecosystems: Vec::new(),
        remote: None,
    }
}

/// Everything read, to be filled in.
struct Read {
    registry: Registry,
    listings: Vec<Listing>,
    entries: Vec<StoreEntry>,
    worktrees: Vec<WorktreeReading>,
    defaults: Vec<DefaultReading>,
    folders: Vec<FolderReading>,
}

impl Read {
    fn nothing() -> Read {
        Read {
            registry: Registry::with_builtins(),
            listings: Vec::new(),
            entries: Vec::new(),
            worktrees: Vec::new(),
            defaults: Vec::new(),
            folders: Vec::new(),
        }
    }

    fn readings(&self) -> Readings<'_> {
        Readings {
            registry: &self.registry,
            listings: &self.listings,
            entries: &self.entries,
            worktrees: &self.worktrees,
            defaults: &self.defaults,
            folders: &self.folders,
            now: NOW,
        }
    }
}

fn known(text: &str, path: &FsPath) -> Evidence {
    Evidence::known(
        FactKind::Consumer,
        FactSubtype::DeclaredConsumer,
        FactValue::Text(text.to_string()),
        EvidenceSource::ConfigDeclaration { path: path.text() },
        NOW,
    )
}

fn unknown(reason: &str) -> Evidence {
    Evidence::unknown(
        FactKind::Consumer,
        FactSubtype::DeclaredConsumer,
        EvidenceSource::Inferred { basis: "fixture".to_string() },
        NOW,
        reason,
    )
}

fn identity(ecosystem: &str, name: &str, version: &str) -> CachedIdentity {
    CachedIdentity { ecosystem: ecosystem.to_string(), name: name.to_string(), version: version.to_string() }
}

fn reading(root: &FsPath) -> WorktreeReading {
    WorktreeReading { path: root.copy(), declarations: Vec::new(), identities: Vec::new(), gaps: Vec::new() }
}

#[test]
fn pinned_rust_toolchain_declaration_attaches_evidence_both_ways() {
    let project_root = tmp().join("proj");
    let toolchains = tmp().join("rustup/toolchains");
    let dir = "1.82.0-x86_64-apple-darwin";
    let file = project_root.join("rust-toolchain");
    let mut read = Read::nothing();
    read.listings.push(Listing { path: toolchains.copy(), is_dir: true, names: vec![dir.to_string()] });
    let mut mine = reading(&project_root);
    mine.declarations.push(DeclarationAnswer {
        declaration: ToolVersionDeclaration {
            manager: "rustup".to_string(),
            tool: "rust".to_string(),
            version_spec: "1.82.0".to_string(),
            source_path: file.copy(),
            scope: DeclarationScope::Project(project_root.copy()),
        },
        channel_dir: Some(dir.to_string()),
        exact: None,
        plain: unknown("1.82.0 is not installed"),
        by_channel: known(dir, &file),
    });
    read.worktrees.push(mine);
    let mut report = Report { projects: vec![one_worktree_project("proj", &project_root)] };
    let mut units = vec![external_unit("rustup", StorageCategory::Installation, &toolchains)];

    attach_associations(&mut report, &mut units, &read.readings());

    let row = &report.projects[0].worktrees[0].artifacts[0];
    assert!(
        row.evidence.iter().any(|e| e.is_known() && e.kind == FactKind::Consumer),
        "project's Source row must carry a resolved installation fact: {:?}",
        row.evidence
    );
    assert!(
        units[0].evidence.iter().any(|e| e.is_known()),
        "installation unit must carry a resolved consuming-project fact: {:?}",
        units[0].evidence
    );
}

fn ruby(version: &str, root: &FsPath) -> ToolVersionDeclaration {
    ToolVersionDeclaration {
        manager: "rbenv".to_string(),
        tool: "ruby".to_string(),
        version_spec: version.to_string(),
        source_path: root.join(".ruby-version"),
        scope: DeclarationScope::Project(root.copy()),
    }
}

fn stamp(root: &FsPath, mtime: i64) -> String {
    let times = FileTimes { pairs: vec![(root.join(".ruby-version"), mtime)] };
    fingerprint_string(&fingerprint(root, &declaration_files(), &times))
}

#[test]
fn cached_declarations_reuses_result_when_files_unchanged() {
    let root = tmp();
    let fresh = vec![ruby("3.2.0", &root)];
    let mut cache: Vec<CachedRows> = Vec::new();
    let first = cached_declarations(&mut cache, &root, &stamp(&root, 50), &fresh);
    assert_eq!(first.len(), 1);
    // A sentinel the real file would never produce: the second call reused the
    // cache instead of what was read.
    let kept = cache.iter_mut().find(|e| e.key == root.text()).unwrap();
    kept.rows[0][1] = "sentinel".to_string();
    assert!(declarations_kept(&cache, &root, &stamp(&root, 50)));
    let second = cached_declarations(&mut cache, &root, &stamp(&root, 50), &fresh);
    assert_eq!(second[0].version_spec, "sentinel");
}

#[test]
fn cached_declarations_reparses_after_mtime_change() {
    let root = tmp();
    let mut cache: Vec<CachedRows> = Vec::new();
    let _ = cached_declarations(&mut cache, &root, &stamp(&root, 50), &vec![ruby("3.2.0", &root)]);
    assert!(!declarations_kept(&cache, &root, &stamp(&root, 51)));
    let second = cached_declarations(&mut cache, &root, &stamp(&root, 51), &vec![ruby("3.3.0", &root)]);
    assert_eq!(second[0].version_spec, "3.3.0");
}

#[test]
fn cargo_dependency_shared_by_two_projects_is_a_known_list_on_the_unit() {
    let registry_src = tmp().join("cargo/registry/src");
    let mut read = Read::nothing();
    read.entries.push(StoreEntry {
        store: registry_src.copy(),
        ecosystem: "cargo".to_string(),
        name: "serde".to_string(),
        version: "1.0.203".to_string(),
    });
    let mut projects = Vec::new();
    for name in ["project-b", "project-a"] {
        let root = tmp().join(name);
        let mut mine = reading(&root);
        mine.identities.push(identity("cargo", "serde", "1.0.203"));
        read.worktrees.push(mine);
        projects.push(one_worktree_project(name, &root));
    }
    let mut report = Report { projects };
    let mut units = vec![external_unit("cargo-home", StorageCategory::Cache, &registry_src)];

    attach_associations(&mut report, &mut units, &read.readings());

    let fact = units[0]
        .evidence
        .iter()
        .find(|e| e.is_known() && e.kind == FactKind::Consumer)
        .unwrap();
    match &fact.status {
        FactStatus::Known(FactValue::List(labels)) => {
            assert_eq!(labels.len(), 2, "both projects must be named: {labels:?}");
            assert_eq!(labels, &vec!["project-a".to_string(), "project-b".to_string()]);
        }
        other => panic!("expected a known list of two consumers, got {other:?}"),
    }
    assert_eq!(
        fact.note.as_deref(),
        Some("declared by more than one project; a shared reference, not an error")
    );
}

#[test]
fn a_package_that_no_store_holds_is_nobodys() {
    let registry_src = tmp().join("cargo/registry/src");
    let root = tmp().join("p");
    let mut read = Read::nothing();
    let mut mine = reading(&root);
    mine.identities.push(identity("cargo", "serde", "1.0.203"));
    read.worktrees.push(mine);
    let mut report = Report { projects: vec![one_worktree_project("p", &root)] };
    let mut units = vec![external_unit("cargo-home", StorageCategory::Cache, &registry_src)];
    attach_associations(&mut report, &mut units, &read.readings());
    assert!(units[0].evidence.is_empty());
}

#[test]
fn npm_cache_is_always_unknown_never_guessed_from_package_lock() {
    let root = tmp().join("proj");
    let npm_cache = tmp().join("npm");
    let mut read = Read::nothing();
    let mut mine = reading(&root);
    mine.identities.push(identity("npm", "lodash", "4.17.21"));
    read.worktrees.push(mine);
    let mut report = Report { projects: vec![one_worktree_project("proj", &root)] };
    let mut units = vec![external_unit("npm", StorageCategory::Cache, &npm_cache)];
    attach_associations(&mut report, &mut units, &read.readings());
    // The tempting shortcut this rejects: matching package-lock.json's
    // `lodash@4.17.21` entry back to a specific npm cacache file.
    assert!(units[0].evidence.iter().all(|e| !e.is_known()));
    assert!(units[0]
        .evidence
        .iter()
        .any(|e| matches!(&e.status, FactStatus::Unknown { reason } if reason.contains("content-addressed"))));
}

#[test]
fn a_store_used_as_a_whole_names_its_project() {
    let root = tmp().join("proj");
    let store = tmp().join("pnpm-store");
    let mut read = Read::nothing();
    let mut mine = reading(&root);
    mine.identities.push(identity("pnpm", "left-pad", "1.0.0"));
    mine.identities.push(identity("pnpm", "lodash", "4.17.21"));
    read.worktrees.push(mine);
    let mut report = Report { projects: vec![one_worktree_project("proj", &root)] };
    let mut units = vec![external_unit("pnpm", StorageCategory::Cache, &store)];
    attach_associations(&mut report, &mut units, &read.readings());
    assert_eq!(units[0].evidence.len(), 1);
    assert_eq!(
        units[0].evidence[0].status,
        FactStatus::Known(FactValue::Text("proj".to_string()))
    );
}

#[test]
fn a_machine_wide_default_is_told_of_the_installations() {
    let home = tmp().join("rustup");
    let toolchains = home.join("toolchains");
    let mut read = Read::nothing();
    read.listings.push(Listing {
        path: toolchains.copy(),
        is_dir: true,
        names: vec!["stable-x86_64-apple-darwin".to_string()],
    });
    read.defaults.push(DefaultReading {
        path: home.join("settings.toml"),
        declared: Some("nightly".to_string()),
        channel_dir: None,
    });
    let units = || {
        vec![
            external_unit("rustup", StorageCategory::LocalState, &home),
            external_unit("rustup", StorageCategory::Installation, &toolchains),
        ]
    };
    let mut list = units();
    attach_associations(&mut Report { projects: Vec::new() }, &mut list, &read.readings());
    assert!(list[0].evidence.is_empty());
    assert_eq!(
        list[1].evidence[0].status,
        FactStatus::Unknown {
            reason: "rustup default_toolchain 'nightly' matches no installed toolchain directory".to_string()
        }
    );
    assert_eq!(
        list[1].evidence[0].note.as_deref(),
        Some("global default (rustup settings.toml default_toolchain), not a per-project declaration")
    );

    read.defaults[0].declared = Some("stable".to_string());
    read.defaults[0].channel_dir = Some("stable-x86_64-apple-darwin".to_string());
    let mut list = units();
    attach_associations(&mut Report { projects: Vec::new() }, &mut list, &read.readings());
    assert_eq!(
        list[1].evidence[0].status,
        FactStatus::Known(FactValue::Text("stable-x86_64-apple-darwin".to_string()))
    );
}

#[test]
fn folders_of_build_output_say_whose_they_are() {
    let dd = tmp().join("DerivedData");
    let folder = |name: &str, outcome: &str, detail: &str| FolderReading {
        store: dd.copy(),
        name: name.to_string(),
        record: dd.join(name).join("info.plist"),
        outcome: outcome.to_string(),
        detail: detail.to_string(),
        with_workspace: known("App", &dd),
        without_workspace: unknown("no workspace"),
    };
    let mut read = Read::nothing();
    read.folders.push(folder("App-abc", "workspace", "/w/App.xcworkspace"));
    read.folders.push(folder("Bad-def", "error", "not a property list"));
    read.folders.push(folder("Old-ghi", "no-workspace", ""));
    let mut units = vec![external_unit("xcode", StorageCategory::BuildOutput, &dd)];
    attach_associations(&mut Report { projects: Vec::new() }, &mut units, &read.readings());
    assert_eq!(units[0].evidence.len(), 3, "{:?}", units[0].evidence);
    assert_eq!(units[0].evidence[0].note.as_deref(), Some("DerivedData/App-abc"));
    assert!(units[0].evidence[0].is_known());
    assert_eq!(
        units[0].evidence[1].status,
        FactStatus::Unavailable { reason: "not a property list".to_string() }
    );
    assert_eq!(
        units[0].evidence[1].source,
        EvidenceSource::BuildMetadata { path: "/fixture/DerivedData/Bad-def/info.plist".to_string() }
    );
    assert!(!units[0].evidence[2].is_known());
    assert_eq!(units[0].evidence[2].note.as_deref(), Some("DerivedData/Old-ghi"));
}

#[test]
fn the_record_of_a_folder_is_read_again_only_when_it_changed() {
    let folder = tmp().join("DerivedData/App-abc");
    let mut cache: Vec<CachedRows> = Vec::new();
    assert_eq!(record_kept(&cache, &folder, 10, 5), None);
    let first = workspace_outcome(&mut cache, &folder, 10, 5, &RecordReading::Workspace("/w/A.xcodeproj".to_string()));
    assert_eq!(first, ("workspace".to_string(), "/w/A.xcodeproj".to_string()));
    let again = workspace_outcome(&mut cache, &folder, 10, 5, &RecordReading::NoWorkspace);
    assert_eq!(again, first);
    let changed = workspace_outcome(&mut cache, &folder, 11, 5, &RecordReading::NoWorkspace);
    assert_eq!(changed, ("no-workspace".to_string(), String::new()));
    let failed = workspace_outcome(&mut cache, &folder, 11, 6, &RecordReading::Failed("torn".to_string()));
    assert_eq!(failed, ("error".to_string(), "torn".to_string()));
    assert_eq!(record_kept(&cache, &folder, 11, 6), Some(failed));
}

#[test]
fn the_hidden_mise_file_decides() {
    let files = |names: &[&str]| {
        names.iter().map(|n| (n.to_string(), format!("text of {n}"))).collect::<Vec<(String, String)>>()
    };
    let both = declaration_sources(&files(&["mise.toml", ".mise.toml", ".nvmrc"]));
    assert_eq!(both.mise_toml.as_deref(), Some("text of .mise.toml"));
    assert_eq!(both.nvmrc.as_deref(), Some("text of .nvmrc"));
    assert_eq!(both.ruby_version, None);
    let one = declaration_sources(&files(&["mise.toml"]));
    assert_eq!(one.mise_toml.as_deref(), Some("text of mise.toml"));
}

#[test]
fn every_worktree_is_a_root() {
    let report = Report {
        projects: vec![one_worktree_project("a", &at("/w/a")), one_worktree_project("b", &at("/w/b"))],
    };
    assert_eq!(worktree_roots(&report), vec![at("/w/a"), at("/w/b")]);
}

#[test]
fn gaps_are_told_of_the_source_row_alone() {
    let root = tmp().join("proj");
    let mut read = Read::nothing();
    let mut mine = reading(&root);
    for ecosystem in ["cargo", "maven-unresolved"] {
        mine.gaps.push(GapAnswer {
            gap: Gap { ecosystem: ecosystem.to_string(), message: "m".to_string() },
            invalid: unknown("invalid"),
            unresolved: unknown("unresolved"),
        });
    }
    read.worktrees.push(mine);
    let mut project = one_worktree_project("proj", &root);
    project.worktrees[0].artifacts.insert(
        0,
        ArtifactRow { kind: ArtifactKind::BuildOutput, path: root.join("target"), evidence: Vec::new() },
    );
    let mut report = Report { projects: vec![project] };
    attach_project_associations(&mut report, &read.readings());
    let rows = &report.projects[0].worktrees[0].artifacts;
    assert!(rows[0].evidence.is_empty());
    assert_eq!(rows[1].evidence, vec![unknown("invalid"), unknown("unresolved")]);
}

#[test]
fn identities_are_kept_with_what_could_not_be_read() {
    let root = tmp();
    let fresh = LockfileReadings {
        cargo: Some(Ok(vec![identity("cargo", "serde", "1.0.203")])),
        npm: Some(Err("not JSON".to_string())),
        pnpm: None,
        go: None,
        gradle: None,
        maven: Some(Ok((vec![identity("maven", "g:a", "1")], vec!["g:b".to_string()]))),
    };
    let mut cache: Vec<CachedRows> = Vec::new();
    let first = cached_identities(&mut cache, &root, "fp", &fresh);
    assert_eq!(first.0, vec![identity("cargo", "serde", "1.0.203"), identity("maven", "g:a", "1")]);
    assert!(first.1.iter().any(|g| g.ecosystem == "npm" && g.message == "not JSON"));
    assert!(first.1.iter().any(|g| g.ecosystem == "maven-unresolved"));
    let nothing = LockfileReadings { cargo: None, npm: None, pnpm: None, go: None, gradle: None, maven: None };
    let again = cached_identities(&mut cache, &root, "fp", &nothing);
    assert_eq!(again, first);
    let changed = cached_identities(&mut cache, &root, "fp2", &nothing);
    assert_eq!(changed, (vec![], vec![]));
}
