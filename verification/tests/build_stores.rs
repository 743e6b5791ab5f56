//! Build stores: joining, rows, tables and history.

use std::collections::BTreeSet;
use swamp_core::artifact::{AccountingBasis, ArtifactRole, NestedArtifact, TimeSource};
use swamp_core::build_adapters::registry::Registry as Adapters;
use swamp_core::build_adapters::{BuildAdapter, BuildContainer, NestedUnitBuilder};
use swamp_core::build_stores::tables::StoredUnits;
use swamp_core::build_stores::{
    containers_for, daemon_containers, decode, encode, folded_dirs, load_units, record_history, save_units, DirRollup,
    IdentifiedStore,
};
use swamp_core::build_stores::history::{observed_units, owned_units};
use swamp_core::detectors::Located;
use swamp_core::docker::DockerFacts;
use swamp_core::evidence::{Evidence, EvidenceSource, FactKind, FactSubtype, FactValue};
use swamp_core::growth::{Annotation, KeyFamily};
use swamp_core::locations::{BuildStoreKind, Registry, StorageCategory};
use swamp_core::path::FsPath;

fn at(text: &str) -> FsPath {
    FsPath::parse(text)
}

#[test]
fn every_declared_store_kind_is_claimed_by_exactly_one_adapter() {
    let adapters = Adapters::with_builtins();
    let detectors = Registry::with_builtins();
    let declared: BTreeSet<BuildStoreKind> = detectors
        .detectors()
        .iter()
        .flat_map(|d| d.build_stores.iter().map(|x| x.kind))
        .collect();
    for kind in &declared {
        let claimed: Vec<&str> = adapters
            .adapters()
            .iter()
            .filter(|a| a.store_kinds().contains(kind))
            .map(|a| a.id())
            .collect();
        assert_eq!(
            claimed.len(),
            1,
            "{kind:?} is declared by a detector and claimed by {claimed:?}: a declared store with no adapter reaches \
             no report, and two adapters would identify it twice"
        );
    }
    for kind in BuildStoreKind::all() {
        assert!(
            declared.contains(&kind),
            "{kind:?} is a store kind no detector declares: dead vocabulary"
        );
    }
}

fn repository() -> BuildContainer {
    BuildContainer::shared_store_of("maven", at("/fixture/repo"), BuildStoreKind::MavenRepository)
}

fn entry() -> NestedArtifact {
    NestedUnitBuilder::new(&repository(), ArtifactRole::SharedStoreEntry, at("/fixture/repo/org/x/1.0"))
        .supported_with_reason("fixture")
        .bytes_on_basis(4096, AccountingBasis::Allocated)
        .modified(1_000, TimeSource::FoldedDirectoryModification)
        .limit("a limit")
        .consequence("a consequence")
        .no_action_because("shared")
        .build()
}

#[test]
fn a_unit_round_trips_through_the_stored_rows() {
    let u = entry();
    let back = decode(&encode(&vec![u.clone()]));
    assert_eq!(back, vec![u]);
}

#[test]
fn a_unit_without_a_role_it_knows_is_not_read_back() {
    let mut rows = encode(&vec![entry()]);
    for row in rows.iter_mut() {
        if row[1] == "role" {
            row[2] = "no-such-role".to_string();
        }
    }
    assert_eq!(decode(&rows), vec![]);
}

#[test]
fn a_unit_with_a_field_that_cannot_be_read_is_dropped() {
    for field in ["membership", "basis", "time_source", "action", "producer", "bytes", "is_dir"] {
        let mut rows = encode(&vec![entry()]);
        let mut met = 0;
        for row in rows.iter_mut() {
            if row[1] == field {
                row[2] = "bogus".to_string();
                met += 1;
            }
        }
        assert!(met > 0, "{field} is stored");
        assert_eq!(decode(&rows), vec![], "no value is guessed for {field}");
    }
}

#[test]
fn a_store_with_a_unit_that_cannot_be_read_is_identified_again() {
    let other = NestedUnitBuilder::new(&repository(), ArtifactRole::SharedStoreEntry, at("/fixture/repo/org/y/2.0"))
        .build();
    let whole = ("whole".to_string(), vec![entry()]);
    let damaged = ("damaged".to_string(), vec![entry(), other]);
    let mut kept = save_units(&vec![whole, damaged], &vec![], 1_000);
    for c in kept.iter_mut().filter(|c| c.key == "damaged") {
        let last = c.rows.iter_mut().rev().find(|r| r[1] == "membership").unwrap();
        last[2] = "bogus".to_string();
    }
    let loaded = load_units(&kept);
    assert_eq!(loaded.iter().map(|s| s.scope.as_str()).collect::<Vec<_>>(), vec!["whole"]);
}

#[test]
fn facts_of_a_report_are_not_stored() {
    let mut u = entry();
    u.decision_evidence = vec![Evidence::known(
        FactKind::Activity,
        FactSubtype::Modification,
        FactValue::Time(7),
        EvidenceSource::FileSystem,
        7,
    )];
    assert_eq!(decode(&encode(&vec![u])), vec![entry()]);
}

#[test]
fn a_container_with_zero_identified_units_still_replays() {
    let this_pass = vec![("empty-store-scope".to_string(), Vec::new())];
    let kept = save_units(&this_pass, &vec![], 1_000);
    let loaded = load_units(&kept);
    let found = match loaded.iter().find(|s| s.scope == "empty-store-scope") {
        Some(s) => s,
        None => panic!("a zero-unit container must still be recorded, not silently dropped"),
    };
    assert_eq!(found.observed_at, 1_000);
    assert!(
        found.units.is_empty(),
        "a genuinely empty container must round-trip as empty, not fabricate rows"
    );
}

#[test]
fn what_this_pass_did_not_see_stays_as_it_was() {
    let old = StoredUnits { scope: "gone".to_string(), observed_at: 500, units: vec![entry()] };
    let seen = StoredUnits { scope: "seen".to_string(), observed_at: 500, units: vec![entry()] };
    let now = ("seen".to_string(), vec![]);
    let loaded = load_units(&save_units(&vec![now], &vec![old, seen], 900));
    let mut got: Vec<(String, u64, usize)> =
        loaded.iter().map(|s| (s.scope.clone(), s.observed_at, s.units.len())).collect();
    got.sort();
    assert_eq!(got, vec![("gone".to_string(), 500, 1), ("seen".to_string(), 900, 0)]);
}

#[test]
fn rows_of_another_version_are_not_loaded() {
    let mut kept = save_units(&vec![("s".to_string(), vec![entry()])], &vec![], 1);
    assert_eq!(load_units(&kept).len(), 1);
    kept[0].fingerprint = "older".to_string();
    assert_eq!(load_units(&kept).len(), 0);
}

#[test]
fn folded_dirs_roll_bytes_and_newest_modification_up() {
    let row = |rel: &str, parent: Option<&str>, own: u64, min: i32| DirRollup {
        rel_path: rel.to_string(),
        parent_rel_path: parent.map(str::to_string),
        allocated_total: own,
        own_allocated: own,
        mod_time_min: min,
        complete: true,
    };
    let dirs = folded_dirs(
        &at("/s"),
        vec![row("", None, 1, 10), row("a", Some(""), 2, 5), row("a/b", Some("a"), 4, 99)],
    );
    let a = dirs.iter().find(|d| d.path == at("/s/a")).unwrap();
    assert_eq!(a.allocated_total, 6);
    assert_eq!(
        a.mtime_max,
        99 * 60,
        "a directory's last change includes its deepest file's"
    );
    let root = dirs.iter().find(|d| d.path == at("/s")).unwrap();
    assert_eq!(root.allocated_total, 7);
}

fn located(id: &str, category: StorageCategory, path: &str) -> Located {
    Located { detector_id: id.to_string(), category, path: at(path) }
}

#[test]
fn a_located_store_reaches_the_adapter_of_its_kind() {
    let joined = containers_for(
        &Adapters::with_builtins(),
        &Registry::with_builtins(),
        &vec![
            located("npm", StorageCategory::Cache, "/home/u/.npm"),
            located("no-such-detector", StorageCategory::Cache, "/x"),
        ],
    );
    assert_eq!(joined.len(), 1);
    assert_eq!(joined[0].0, 0);
    assert_eq!(joined[0].1.adapter_id, "node");
    assert_eq!(joined[0].1.path, at("/home/u/.npm"));
    assert_eq!(joined[0].1.store_kind, Some(BuildStoreKind::NpmCache));
    assert!(joined[0].1.shared);
}

#[test]
fn a_daemon_answers_with_one_container_for_each_builder() {
    let adapters = Adapters::with_builtins();
    let detectors = Registry::with_builtins();
    let answered = DockerFacts { unavailable: None, builders: vec!["default".to_string(), "ci".to_string()] };
    let list = daemon_containers(&adapters, &detectors, &answered);
    assert_eq!(list.len(), 2);
    assert!(list.iter().all(|c| c.adapter_id == "docker-buildkit"));
    assert_eq!(list[0].path.text(), "daemon-store://default");
    assert_eq!(list[1].path.text(), "daemon-store://ci");
    assert_eq!(FsPath::parse("daemon-store://default"), list[0].path);
}

fn store() -> IdentifiedStore {
    IdentifiedStore { detector_id: "maven".to_string(), device: 7, path: at("/fixture/repo") }
}

#[test]
fn history_is_kept_by_path_and_says_how_units_grew() {
    let mut units = vec![entry()];
    let observed = observed_units(&vec![store()], &units);
    assert_eq!(observed.len(), 1);
    assert_eq!(observed[0].bytes, 4096);
    assert_eq!(observed[0].device, 7);
    let key = observed[0].key.clone();
    record_history(
        &vec![store()],
        &mut units,
        Some(&vec![Annotation { key, growth_bytes: Some(-96), regrowth_count: 3 }]),
    );
    assert_eq!(units[0].growth_bytes, Some(-96));
    assert_eq!(units[0].regrowth_count, 3);
    assert_eq!(units[0].bytes, 4096, "history changes nothing else");
}

#[test]
fn reclassifying_a_unit_keeps_its_history() {
    let before = observed_units(&vec![store()], &vec![entry()]);
    let after = observed_units(
        &vec![store()],
        &vec![NestedUnitBuilder::amend(entry()).role(ArtifactRole::Metadata).build()],
    );
    assert_eq!(before[0].key, after[0].key);
}

#[test]
fn only_identified_stores_own_their_rows() {
    let own = owned_units(&vec![store()], &vec![entry()], &vec![at("/fixture/repo/left-out")]);
    assert_eq!(own.family, KeyFamily::BuildStore);
    assert!(own.roots.contains(&at("/fixture/repo")));
    assert!(own.excluded.contains(&at("/fixture/repo/left-out")));
    assert_eq!(observed_units(&vec![], &vec![entry()]).len(), 0);
}
