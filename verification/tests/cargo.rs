//! Cargo's build directories.

use swamp_core::artifact::{ArtifactRole, ArtifactVariant, Membership, NestedArtifact};
use swamp_core::cargo_artifacts::target::does_inspection_fit;
use swamp_core::cargo_artifacts::profile::{parse_fingerprint_target, Pulse, SeenEntry};
use swamp_core::cargo_artifacts::target::{reviewed_role, ReviewedPath};
use swamp_core::cargo_artifacts::tree::TargetNode;
use swamp_core::cargo_artifacts::walk::{ProfileObservation, SeenDependency, SeenFingerprint, SeenRecord};
use swamp_core::cargo_artifacts::{
    apply_message_evidence, charge_physical, inspect_profile, inspect_target, inspect_target_incremental, layout_for,
    parse_json_messages, project_roots, CargoEnvironment, CargoMessageEvidence, CargoProfileInspection,
    CargoProfileInspectionLimits,
};
use swamp_core::facts::{CanonicalPaths, FileFact, FileFacts, FileKind, FileStat, Manifest, ShallowEntry, Truncation};
use swamp_core::path::FsPath;
use swamp_core::report::{ArtifactKind, ArtifactRow, ProjectRow, WorktreeKind, WorktreeRow};

const TMP: &str = "/fixture";

fn at(text: &str) -> FsPath {
    FsPath::parse(text)
}

fn tmp() -> FsPath {
    at(TMP)
}

fn file(len: u64, ino: u64, nlink: u64) -> FileStat {
    FileStat::new(FileKind::File, (len + 511) / 512, len, 60, 1, ino, nlink)
}

fn directory(ino: u64) -> FileStat {
    FileStat::new(FileKind::Directory, 8, 4096, 60, 1, ino, 2)
}

// ---------------------------------------------------------------------
// Target directories
// ---------------------------------------------------------------------

/// What Cargo's layout makes of a path below a target directory.
fn classify(rel: &str, is_dir: bool) -> ArtifactRole {
    let parts: Vec<&str> = rel.split('/').filter(|p| !p.is_empty()).collect();
    if parts.len() < 2 {
        return ArtifactRole::Container;
    }
    match parts[1] {
        "incremental" => ArtifactRole::Incremental,
        "build" => ArtifactRole::BuildScriptOutput,
        "examples" if !is_dir => ArtifactRole::Example,
        "deps" if rel.ends_with(".d") => ArtifactRole::CompanionMetadata,
        "deps" if !is_dir => ArtifactRole::Dependency,
        ".fingerprint" => ArtifactRole::Metadata,
        _ if is_dir => ArtifactRole::Container,
        _ => ArtifactRole::FinalOutput,
    }
}

/// A directory of the files given by their paths below it.
fn node(target: &FsPath, rel: &str, files: &[(&str, FileStat)], ino: &mut u64) -> TargetNode {
    *ino += 1;
    let here = *ino;
    let mut names: Vec<&str> = files.iter().map(|(p, _)| p.split('/').next().unwrap()).collect();
    names.sort_unstable();
    names.dedup();
    let mut entries = Vec::new();
    for name in names {
        let below = if rel.is_empty() { name.to_string() } else { format!("{rel}/{name}") };
        let inner: Vec<(&str, FileStat)> = files
            .iter()
            .filter_map(|(p, s)| p.strip_prefix(name).and_then(|r| r.strip_prefix('/')).map(|r| (r, *s)))
            .collect();
        if inner.is_empty() {
            let stat = files.iter().find(|(p, _)| *p == name).unwrap().1;
            entries.push(TargetNode {
                path: target.join(&below),
                legible: true,
                stat: Some(stat),
                error: String::new(),
                role: classify(&below, false),
                variant: ArtifactVariant::none(),
                unlisted: None,
                entry_errors: Vec::new(),
                entries: Vec::new(),
            });
        } else {
            entries.push(node(target, &below, &inner, ino));
        }
    }
    TargetNode {
        path: if rel.is_empty() { target.copy() } else { target.join(rel) },
        legible: true,
        stat: Some(directory(here)),
        error: String::new(),
        role: classify(rel, true),
        variant: ArtifactVariant::none(),
        unlisted: None,
        entry_errors: Vec::new(),
        entries,
    }
}

fn tree(target: &FsPath, files: &[(&str, FileStat)]) -> TargetNode {
    let mut ino = 1_000;
    node(target, "", files, &mut ino)
}

fn none() -> FileFacts {
    FileFacts::none()
}

#[test]
fn identifies_profiles_roles_companions_incremental_and_hardlinks() {
    let target = tmp().join("target");
    let seen = tree(
        &target,
        &[
            ("debug/deps/libfoo-abc123.rlib", file(3, 1, 2)),
            ("debug/deps/libfoo-abc123.d", file(3, 2, 1)),
            ("debug/examples/shared-output", file(3, 1, 2)),
            ("debug/examples/demo", file(7, 3, 1)),
            ("debug/incremental/unit/cache", file(11, 4, 1)),
            ("debug/build/pkg-hash/out/generated.rs", file(9, 5, 1)),
        ],
    );
    let report = inspect_target(&target, Some(&tmp()), &seen, &none());
    let has = |role: ArtifactRole| report.units.iter().any(|u| u.role == role);
    assert!(has(ArtifactRole::Dependency));
    assert!(has(ArtifactRole::CompanionMetadata));
    assert!(has(ArtifactRole::Example));
    assert!(has(ArtifactRole::Incremental));
    assert!(has(ArtifactRole::BuildScriptOutput));
    assert!(report.physical_bytes <= report.total_bytes);
    assert!(report.units.iter().any(|u| u.membership == Membership::SharedHardlink));
    assert!(report.units.iter().any(|u| u.parent_id.is_some()));
}

#[test]
fn a_file_with_two_names_is_charged_once() {
    let target = tmp().join("target");
    let seen = tree(
        &target,
        &[
            ("debug/deps/liba-1.rlib", file(1024, 7, 2)),
            ("debug/liba.rlib", file(1024, 7, 2)),
            ("debug/app", file(512, 8, 1)),
        ],
    );
    let report = inspect_target(&target, Some(&tmp()), &seen, &none());
    let charge = |name: &str| report.units.iter().find(|u| u.path == target.join(name)).unwrap().physical_bytes;
    assert_eq!(charge("debug/deps/liba-1.rlib") + charge("debug/liba.rlib"), 1024);
    assert_eq!(charge("debug/app"), 512);
    let total: u64 = report.units.iter().filter(|u| !u.is_dir).map(|u| u.physical_bytes).sum();
    assert_eq!(total, 1536);
    for dir in report.units.iter().filter(|u| u.is_dir) {
        let inside: u64 =
            report.units.iter().filter(|u| u.parent_id.as_ref() == Some(&dir.id)).map(|u| u.physical_total).sum();
        assert_eq!(dir.physical_total, dir.physical_bytes + inside, "a directory holds what lies in it");
    }
    assert_eq!(report.units[0].physical_total, 1536);
    let mut again = report.units.clone();
    charge_physical(&mut again);
    assert_eq!(again, report.units, "charging twice changes nothing");
}

#[test]
fn nothing_changed_nothing_read() {
    let target = tmp().join("target");
    let seen = tree(&target, &[("debug/app", file(512, 8, 1)), ("debug/deps/libx-1.rlib", file(512, 9, 1))]);
    let first = inspect_target(&target, Some(&tmp()), &seen, &none());
    let unread = TargetNode {
        path: target.copy(),
        legible: true,
        stat: None,
        error: "not to be read".to_string(),
        role: ArtifactRole::Unknown,
        variant: ArtifactVariant::none(),
        unlisted: None,
        entry_errors: Vec::new(),
        entries: Vec::new(),
    };
    let again = inspect_target_incremental(&target, Some(&tmp()), &first.units, Some(&vec![]), &unread, &none());
    assert_eq!(again.units, first.units);
    assert_eq!(again.total_bytes, first.total_bytes);
}

#[test]
fn absent_cargo_keeps_layout_visible_but_coverage_unknown() {
    let target = tmp().join("target");
    let seen = tree(&target, &[("debug/app", file(6, 8, 1))]);
    let inspection = inspect_target(&target, None, &seen, &none());
    assert!(!inspection.coverage.supported);
    assert!(inspection.coverage.limits.iter().any(|limit| limit.contains("Cargo.toml")));
    assert!(inspection.units.iter().any(|u| u.role == ArtifactRole::FinalOutput));
}

#[test]
fn a_target_is_supported_where_it_is_owned_and_read_whole() {
    let target = tmp().join("target");
    let seen = tree(&target, &[("debug/app", file(6, 8, 1))]);
    let owned = inspect_target(&target, Some(&tmp()), &seen, &none());
    assert!(owned.coverage.supported && owned.coverage.complete);
    assert!(owned.coverage.limits.is_empty());
    let walked = inspect_target_incremental(&target, Some(&tmp()), &Vec::new(), None, &seen, &none());
    assert_eq!(owned.units, walked.units);
    assert_eq!(owned.coverage.limits, walked.coverage.limits);
    let alone = inspect_target(&target, None, &seen, &none());
    assert!(!alone.coverage.supported && alone.coverage.complete, "read whole, but not owned");
    assert_eq!(alone.coverage.limits, vec!["Cargo.toml was not established; ownership unknown".to_string()]);
    assert_eq!(alone.total_bytes, owned.total_bytes);
}

#[test]
fn an_unreadable_path_is_a_limit_not_a_total() {
    let target = tmp().join("target");
    let mut seen = tree(&target, &[("debug/app", file(512, 8, 1)), ("debug/gone", file(512, 9, 1))]);
    seen.entries[0].entries[1].stat = None;
    seen.entries[0].entries[1].error = "permission denied".to_string();
    let inspection = inspect_target(&target, Some(&tmp()), &seen, &none());
    assert!(!inspection.coverage.complete);
    assert!(inspection.coverage.limits.iter().any(|l| l.contains("permission denied")));
}

#[test]
fn directories_come_before_their_contents_and_sizes_add_up() {
    let target = tmp().join("target");
    let seen = tree(
        &target,
        &[
            ("debug/deps/liba-1.rlib", file(1024, 7, 2)),
            ("debug/liba.rlib", file(1024, 7, 2)),
            ("release/app", file(512, 8, 1)),
        ],
    );
    let report = inspect_target(&target, Some(&tmp()), &seen, &none());
    assert_eq!(report.units[0].path, target);
    for (i, u) in report.units.iter().enumerate().skip(1) {
        let parent = u.path.parent().unwrap();
        let before = report.units[..i].iter().find(|v| v.path == parent).unwrap();
        assert!(before.is_dir);
        assert_eq!(u.parent_id.as_ref(), Some(&before.id));
    }
    assert_eq!(report.units[0].bytes, 1024 + 1024 + 512);
    assert_eq!(report.total_bytes, report.units[0].bytes);
    assert_eq!(report.units[0].physical_total, 1024 + 512);
    assert_eq!(report.physical_bytes, report.units[0].physical_total);
}

// ---------------------------------------------------------------------
// Profiles
// ---------------------------------------------------------------------

fn pulse() -> Pulse {
    Pulse { cancelled: false, elapsed: 0 }
}

fn seen(name: &str, stat: FileStat) -> Option<SeenEntry> {
    Some(SeenEntry { name: name.to_string(), stat: Some(stat) })
}

fn dependency(name: &str, stat: FileStat) -> SeenDependency {
    SeenDependency { pulse: pulse(), entry: seen(name, stat) }
}

fn fingerprint(dir: &str, name: &str, text: &str) -> SeenFingerprint {
    SeenFingerprint {
        pulse: pulse(),
        entry: seen(dir, directory(90)),
        files: Some(vec![SeenRecord {
            pulse: pulse(),
            entry: seen(name, file(text.len() as u64, 91, 1)),
            text: Some(text.to_string()),
        }]),
    }
}

fn observed(fingerprints: Vec<SeenFingerprint>, dependencies: Vec<SeenDependency>) -> ProfileObservation {
    ProfileObservation {
        profile: Some(directory(1)),
        fingerprints: Some(directory(2)),
        fingerprint_dirs: Some(fingerprints),
        deps: Some(directory(3)),
        dependencies: Some(dependencies),
        record_cap: 1 << 20,
        inspected_at: 1_000,
        elapsed_ms: 2,
    }
}

fn inspect(o: &ProfileObservation) -> CargoProfileInspection {
    inspect_profile(&tmp().join("debug"), &CargoProfileInspectionLimits::default(), o)
}

#[test]
fn bounded_profile_inspection_returns_explicit_partial_residuals() {
    let two = || {
        vec![
            dependency("librenamed-abc123.rlib", file(8, 11, 1)),
            dependency("libsecond-def456.rlib", file(15, 12, 1)),
        ]
    };
    let mut cancelled = observed(vec![], two());
    for d in cancelled.dependencies.as_mut().unwrap() {
        d.pulse.cancelled = true;
    }
    let result = inspect(&cancelled);
    assert!(!result.coverage.complete);
    assert!(result.coverage.limits.iter().any(|s| s.contains("cancelled")));
    assert_eq!(result.allocated_bytes, 0);

    let result = inspect_profile(
        &tmp().join("debug"),
        &CargoProfileInspectionLimits { max_entries: 1, ..Default::default() },
        &observed(vec![], two()),
    );
    assert!(!result.coverage.complete);
    assert!(result.entries_examined <= 1);
    assert!(result.allocated_bytes == 0 || !result.groups.is_empty());
    assert!(result.accounting_note.contains("not reclaimable"));
}

#[test]
fn half_of_the_entries_are_left_for_dependencies() {
    let empty = |n: &str| SeenFingerprint { pulse: pulse(), entry: seen(n, directory(90)), files: Some(Vec::new()) };
    let result = inspect_profile(
        &tmp().join("debug"),
        &CargoProfileInspectionLimits { max_entries: 4, ..Default::default() },
        &observed(
            vec![empty("a-1"), empty("b-2"), empty("c-3"), empty("d-4")],
            vec![dependency("liba-1.rlib", file(512, 11, 1)), dependency("libb-2.rlib", file(1024, 12, 1))],
        ),
    );
    assert_eq!(result.entries_examined, 4);
    assert!(result.coverage.limits.iter().any(|l| l.contains("reserved for deps")));
    assert_eq!(result.allocated_bytes, 1536);
    assert_eq!(result.groups.iter().map(|g| g.allocated_bytes).sum::<u64>(), result.allocated_bytes);
}

#[test]
fn a_profile_inspection_stops_when_its_time_is_up() {
    let mut late = observed(vec![], vec![dependency("liba-abc.rlib", file(8, 11, 1))]);
    late.dependencies.as_mut().unwrap()[0].pulse.elapsed = 60_000_000_000;
    let result = inspect(&late);
    assert!(!result.coverage.complete);
    assert_eq!(result.allocated_bytes, 0);
}

#[test]
fn profile_inspection_counts_hardlinks_in_allocated_but_not_unique_total() {
    let result = inspect(&observed(
        vec![],
        vec![
            dependency("liba-abc.rlib", file(4096, 11, 2)),
            dependency("libb-def.rlib", file(4096, 11, 2)),
        ],
    ));
    assert_eq!(result.allocated_bytes, result.unique_allocated_bytes.saturating_mul(2));
    assert_eq!(result.unique_allocated_bytes, 4096);
    assert_eq!(result.groups.iter().map(|g| g.entries).sum::<usize>(), 2);
    assert!(result.groups.iter().all(|g| g.residual_reason.is_some()));
}

#[test]
fn groups_without_a_target_say_why_and_count_within_the_profile() {
    let named = fingerprint("renamed-abc123", "lib-renamed.json", r#"{"features":"[]"}"#);
    let o = observed(
        vec![named],
        vec![
            dependency("librenamed-abc123.rlib", file(4096, 11, 2)),
            dependency("librenamed-abc123.rmeta", file(4096, 11, 2)),
            dependency("libstray-999999.rlib", file(1024, 12, 1)),
        ],
    );
    let r = inspect(&o);
    assert_eq!(r.groups.len(), 2);
    for g in &r.groups {
        assert_eq!(g.target.is_none(), g.residual_reason.is_some());
        assert!(g.unique_allocated_bytes <= g.allocated_bytes);
        assert!(g.hardlinked_entries <= g.entries && g.entries <= r.entries_examined);
    }
    let known = r.groups.iter().find(|g| g.target.as_deref() == Some("renamed")).unwrap();
    assert_eq!((known.entries, known.hardlinked_entries), (2, 2));
    assert_eq!(known.allocated_bytes, 2 * known.unique_allocated_bytes);
    assert_eq!(r.groups.iter().map(|g| g.allocated_bytes).sum::<u64>(), r.allocated_bytes);
    assert_eq!(r.coverage.complete, r.coverage.limits.is_empty());
}

#[test]
fn sizes_that_do_not_add_up_are_told_apart() {
    let target = tmp().join("target");
    let fits = |a: u64, b: u64| {
        let seen = tree(&target, &[("debug/a", file(a, 11, 1)), ("debug/b", file(b, 12, 1))]);
        does_inspection_fit(&target, None, &Vec::new(), None, &seen)
    };
    assert!(fits(1, 2));
    assert!(!fits(u64::MAX, 2));
}

#[test]
fn profile_inspection_does_not_gate_on_cargo_build_lock() {
    // What a build holds is not among what is read: a busy profile is inspected
    // as an idle one is.
    let seen = observed(vec![], vec![dependency("libbusy-abc.rlib", file(8, 11, 1))]);
    let result = inspect(&seen);
    assert!(result.coverage.complete);
    assert!(result.allocated_bytes > 0);
    assert!(result.accounting_note.contains("not atomic"));
    let after = inspect(&seen);
    assert!(
        after.coverage.complete,
        "an idle lock file is not an active build: {:?}",
        after.coverage.limits
    );
}

#[test]
fn profile_inspection_never_follows_deps_or_fingerprint_directory_symlinks() {
    let link = FileStat::new(FileKind::Symlink, 0, 20, 60, 1, 5, 1);
    let mut o = observed(
        vec![fingerprint("opaque-abc", "lib-secret.json", "{}")],
        vec![dependency("libsecret-abc.rlib", file(4096, 11, 1))],
    );
    o.fingerprints = Some(link);
    o.deps = Some(link);
    let result = inspect(&o);
    assert_eq!(result.allocated_bytes, 0);
    assert_eq!(result.metadata_bytes_read, 0);
    assert!(result.coverage.limits.iter().any(|s| s.contains("not a real directory")));
}

#[test]
fn fingerprint_target_parser_prefers_test_target_prefixes() {
    assert_eq!(
        parse_fingerprint_target("test-lib-renamed-with-dash"),
        Some(("test-lib", "renamed-with-dash".to_string()))
    );
    assert_eq!(
        parse_fingerprint_target("test-integration-test-cli"),
        Some(("test-integration-test", "cli".to_string()))
    );
    assert_eq!(parse_fingerprint_target("dep-something"), None);
}

#[test]
fn profile_inspection_uses_target_named_fingerprint_not_package_hash_as_identity() {
    let result = inspect(&observed(
        vec![
            fingerprint("opaque-abc", "lib-renamed.json", r#"{"features":["fast"],"rustc":"rustc-test"}"#),
            fingerprint("other-def", "lib-renamed.json", r#"{"features":["slow"],"rustc":"rustc-other"}"#),
        ],
        vec![
            dependency("librenamed-abc.rlib", file(8, 11, 1)),
            dependency("librenamed-def.rlib", file(15, 12, 1)),
            dependency("libstale-zzz.rlib", file(17, 13, 1)),
        ],
    ));
    let of = |features: &str| {
        result
            .groups
            .iter()
            .find(|g| g.variant.features.as_deref() == Some(features))
            .unwrap()
    };
    let fast = of("fast");
    let slow = of("slow");
    let residual = result.groups.iter().find(|g| g.residual_reason.is_some()).unwrap();
    assert_eq!(fast.target.as_deref(), Some("renamed"));
    assert_eq!(fast.variant.toolchain.as_deref(), Some("rustc-test"));
    assert_eq!(fast.package_id, None);
    assert_ne!(fast.variant.features, slow.variant.features);
    assert_eq!(residual.target, None);
}

// ---------------------------------------------------------------------
// Layout, messages and roots
// ---------------------------------------------------------------------

fn text_file(path: FsPath, text: &str) -> FileFact {
    FileFact {
        path,
        stat: Some(file(text.len() as u64, 70, 1)),
        is_file: true,
        is_dir: false,
        listing: Vec::new(),
        listed: Truncation::Unreadable,
        manifest: Some(Manifest { text: text.to_string(), truncated: false, scalars: Vec::new() }),
    }
}

fn no_environment() -> CargoEnvironment {
    CargoEnvironment { target_dir: None, build_target_dir: None, build_dir: None }
}

#[test]
fn config_paths_are_read_without_running_cargo() {
    let facts = FileFacts {
        facts: vec![text_file(
            tmp().join(".cargo/config.toml"),
            "[build]\ntarget-dir = \"../shared-target\"\nbuild-dir = \"../shared-build\"\n",
        )],
    };
    let layout = layout_for(&tmp(), &facts, &no_environment());
    assert_eq!(layout.target_dir, Some(tmp().join("../shared-target")));
    assert_eq!(layout.build_dir, Some(tmp().join("../shared-build")));
}

#[test]
fn a_leading_dot_of_a_configured_directory_names_nothing() {
    let facts = FileFacts {
        facts: vec![text_file(at("/w/.cargo/config.toml"), "[build]\ntarget-dir = \"./out\"\n")],
    };
    let layout = layout_for(&at("/w"), &facts, &no_environment());
    assert_eq!(layout.target_dir, Some(at("/w/out")));
    assert_eq!(layout.target_dir.unwrap().text(), "/w/./out", "shown as it was configured");
}

#[test]
fn the_environment_decides_before_the_configuration() {
    let facts = FileFacts {
        facts: vec![text_file(tmp().join(".cargo/config.toml"), "[build]\ntarget-dir = \"elsewhere\"\n")],
    };
    let env = CargoEnvironment { target_dir: Some("/env/target".to_string()), build_target_dir: None, build_dir: None };
    assert_eq!(layout_for(&tmp(), &facts, &env).target_dir, Some(at("/env/target")));
}

#[test]
fn json_evidence_distinguishes_test_and_renamed_package_without_guessing() {
    let text = r#"{"reason":"compiler-artifact","package_id":"pkg 1.0.0","target":{"name":"renamed-test","kind":["test"]},"filenames":["/tmp/target/debug/deps/renamed-test"]}"#;
    let messages = parse_json_messages(text);
    assert_eq!(messages[0].target_name.as_deref(), Some("renamed-test"));
    assert_eq!(messages[0].target_kind, vec!["test".to_string()]);

    let target = tmp().join("target");
    let output = target.join("debug/deps/renamed-test");
    let read = tree(&target, &[("debug/deps/renamed-test", file(4, 21, 1))]);
    let mut inspection = inspect_target(&target, Some(&tmp()), &read, &none());
    apply_message_evidence(
        &mut inspection,
        &vec![CargoMessageEvidence {
            profile_test: true,
            features: None,
            target_name: Some("renamed-test".to_string()),
            target_kind: vec!["test".to_string()],
            package_id: Some("pkg 1.0.0".to_string()),
            filenames: vec![output.copy()],
        }],
    );
    let unit = inspection.units.iter().find(|u| u.path == output).unwrap();
    assert_eq!(unit.role, ArtifactRole::TestExecutable);
    assert_eq!(unit.variant.package.as_deref(), Some("pkg 1.0.0"));
    assert!(unit.producer_evidence.iter().any(|e| e.source == "cargo-json"));
}

#[test]
fn lines_that_are_no_artifact_messages_are_passed_over() {
    let text = "not json\n{\"reason\":\"build-finished\",\"success\":true}\n{\"reason\":\"compiler-artifact\",\"filenames\":[\"/t/a\"]}\n";
    let messages = parse_json_messages(text);
    assert_eq!(messages.len(), 1);
    assert_eq!(messages[0].filenames, vec![at("/t/a")]);
}

#[test]
fn identity_survives_role_reclassification() {
    assert_eq!(
        NestedArtifact::stable_id("debug/deps/renamed-test", &ArtifactRole::Dependency),
        NestedArtifact::stable_id("debug/deps/renamed-test", &ArtifactRole::TestExecutable)
    );
}

#[test]
fn each_build_directory_is_a_root_once() {
    let manifest = |root: &FsPath| {
        vec![
            text_file(root.join("Cargo.toml"), "[workspace]\n"),
            FileFact {
                path: root.join("target"),
                stat: Some(directory(5)),
                is_file: false,
                is_dir: true,
                listing: vec![ShallowEntry { name: "debug".to_string(), is_dir: true }],
                listed: Truncation::Complete,
                manifest: None,
            },
        ]
    };
    let root = tmp().join("ws");
    let project = |name: &str| ProjectRow {
        project_id: name.to_string(),
        name: name.to_string(),
        worktrees: vec![WorktreeRow {
            worktree_id: name.to_string(),
            path: root.copy(),
            kind: WorktreeKind::Main,
            artifacts: vec![ArtifactRow {
                kind: ArtifactKind::BuildOutput,
                path: root.join("target"),
                evidence: Vec::new(),
            }],
        }],
        ecosystems: Vec::new(),
        remote: None,
    };
    let roots = project_roots(
        &vec![project("a"), project("b")],
        &FileFacts { facts: manifest(&root) },
        &no_environment(),
        &CanonicalPaths { pairs: Vec::new() },
    );
    assert_eq!(roots, vec![(root.join("target"), root.copy())]);
}

#[test]
fn a_reviewed_path_keeps_its_role_only_while_its_metadata_is_read() {
    let root = tmp().join("target");
    let selected = ReviewedPath {
        path: root.join("debug/deps/libx-1.rlib"),
        role: ArtifactRole::Dependency,
        variant: ArtifactVariant::none(),
    };
    assert_eq!(reviewed_role(&root, &selected, None, &vec![], &none()), None);
}
