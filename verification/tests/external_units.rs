//! External storage.

use std::collections::BTreeSet;
use swamp_core::build_adapters::registry::Registry as Adapters;
use swamp_core::build_adapters::BuildContainer;
use swamp_core::build_stores::tables::{CachedRows, StoredUnits};
use swamp_core::evidence::{Evidence, EvidenceSource, FactKind, FactStatus, FactSubtype, FactValue};
use swamp_core::external::consumers::{associate_consumer, dissociate_consumer, write_consumers};
use swamp_core::external::observe::{
    do_measurements_fit, ExternalPass, FoldedUnit, LastKnown, Measurement, StoreAnswers, StoreFailure, UnitObservation,
};
use swamp_core::external::plan::{AuthorizedRoot, Devices, EffectiveScope, UnauthorizedRoot};
use swamp_core::external::unit::{category_from_str, consumers_evidence, Provenance};
use swamp_core::external::{
    category_label, discover_and_measure, load_consumers, observe_external, total_bytes, unit_key, ExternalConsumer,
    ExternalUnit,
};
use swamp_core::build_stores::DirRollup;
use swamp_core::facts::{CanonicalPaths, FileFacts};
use swamp_core::fs_events::EventCoverage;
use swamp_core::growth::Annotation;
use swamp_core::locations::{BuildStoreKind, Registry, StorageCategory};
use swamp_core::path::FsPath;

const DEVICE: u64 = 42;

fn at(text: &str) -> FsPath {
    FsPath::parse(text)
}

fn cargo_home() -> FsPath {
    at("/fixture/fixture-cargo")
}

fn authorized(id: &str, category: StorageCategory, path: &FsPath) -> AuthorizedRoot {
    AuthorizedRoot {
        detector_id: Some(id.to_string()),
        detector_name: Some(id.to_string()),
        category,
        provenance: Provenance::BuiltinConvention,
        path: path.copy(),
    }
}

fn scope(authorized: Vec<AuthorizedRoot>, unauthorized: Vec<UnauthorizedRoot>) -> EffectiveScope {
    EffectiveScope {
        explicit: false,
        authorized,
        unauthorized,
        authorized_in_explicit_roots: Vec::new(),
        unauthorized_in_explicit_roots: Vec::new(),
    }
}

fn only_cargo_home() -> EffectiveScope {
    scope(vec![authorized("cargo-home", StorageCategory::Installation, &cargo_home())], vec![])
}

/// What a pass over a scope gives, with the locations measured as `measure`
/// says.
fn pass<F: Fn(&FsPath) -> Measurement>(
    scope: &EffectiveScope,
    now: u64,
    store: Option<&StoreAnswers>,
    measure: F,
) -> Result<Vec<ExternalUnit>, StoreFailure> {
    let canonical = CanonicalPaths { pairs: Vec::new() };
    let devices = Devices { pairs: scope.authorized.iter().map(|a| (a.path.copy(), DEVICE)).collect() };
    let adapters = Adapters::with_builtins();
    let detectors = Registry::with_builtins();
    let previous = Vec::new();
    let coverage = EventCoverage::untrusted();
    let facts = FileFacts::none();
    let p = ExternalPass {
        scope,
        canonical: &canonical,
        devices: &devices,
        adapters: &adapters,
        detectors: &detectors,
        previous: &previous,
        coverage: &coverage,
        observed_at: now,
        now,
        facts: &facts,
    };
    let list: Vec<Measurement> = p.plan().iter().map(|x| measure(&x.candidate.path)).collect();
    discover_and_measure(&p, &list, store)
}

fn activity() -> Evidence {
    Evidence::known(
        FactKind::Activity,
        FactSubtype::Modification,
        FactValue::Time(7),
        EvidenceSource::FileSystem,
        7,
    )
}

fn folded(bytes: u64) -> Measurement {
    Measurement {
        observation: UnitObservation::Unit(FoldedUnit {
            bytes,
            mtime_max: 60,
            hardlinked: false,
            complete: true,
            reused: false,
        }),
        dirs: None,
        activity: activity(),
    }
}

fn answers(consumers: Vec<CachedRows>) -> StoreAnswers {
    StoreAnswers {
        annotations: Ok(vec![]),
        consumers: Ok(consumers),
        unit_annotations: Ok(vec![]),
        last_known: vec![],
    }
}

fn sidecar(key: &str, list: &Vec<ExternalConsumer>) -> Vec<CachedRows> {
    if list.is_empty() {
        return Vec::new();
    }
    vec![CachedRows {
        key: key.to_string(),
        fingerprint: "declared-by-hand".to_string(),
        observed_at: 0,
        rows: write_consumers(list),
    }]
}

fn cargo_home_unit(units: &[ExternalUnit]) -> &ExternalUnit {
    units
        .iter()
        .find(|u| u.detector_id == "cargo-home" && u.category == StorageCategory::Installation)
        .unwrap()
}

#[test]
fn shared_consumers_are_counted_once_in_totals() {
    let scope = only_cargo_home();
    let measure = |_: &FsPath| folded(3_000);
    let units = pass(&scope, 1_000, Some(&answers(vec![])), measure).unwrap();
    let unit = cargo_home_unit(&units);
    let key = unit_key(&unit.detector_id, unit.category, DEVICE, &unit.path);

    let mut list = Vec::new();
    associate_consumer(&mut list, "project-a", None);
    associate_consumer(&mut list, "project-b", Some("declared in config".to_string()));

    let units2 = pass(&scope, 2_000, Some(&answers(sidecar(&key, &list))), measure).unwrap();
    let unit2 = cargo_home_unit(&units2);
    assert_eq!(unit2.consumers.len(), 2, "{:?}", unit2.consumers);
    let labels: BTreeSet<String> = unit2.consumers.iter().map(|c| c.label.clone()).collect();
    assert_eq!(labels, ["project-a", "project-b"].into_iter().map(String::from).collect());
    // The unit itself is still exactly one row: total_bytes counts its bytes
    // once, not once per consumer.
    assert_eq!(total_bytes(&units2), unit2.bytes);
    assert_eq!(unit2.bytes, 3_000);
}

#[test]
fn association_changes_never_duplicate_the_unit_or_reset_history() {
    let scope = only_cargo_home();
    let measure = |_: &FsPath| folded(4_000);
    let key = unit_key("cargo-home", StorageCategory::Installation, DEVICE, &cargo_home());
    let with = |list: &Vec<ExternalConsumer>| {
        let mut a = answers(sidecar(&key, list));
        a.annotations = Ok(vec![Annotation { key: key.clone(), growth_bytes: Some(12), regrowth_count: 2 }]);
        a
    };
    let mut list = Vec::new();
    let before = pass(&scope, 1_000, Some(&with(&list)), measure).unwrap();
    let before_count = before.len();
    let unit = cargo_home_unit(&before);
    let bytes_before = unit.bytes;
    let regrowth_before = unit.regrowth_count;
    assert_eq!(regrowth_before, 2);

    for i in 0..3 {
        associate_consumer(&mut list, &format!("consumer-{i}"), None);
    }
    for i in 0..3 {
        dissociate_consumer(&mut list, &format!("consumer-{i}"));
    }
    associate_consumer(&mut list, "kept", None);

    let after = pass(&scope, 2_000, Some(&with(&list)), measure).unwrap();
    assert_eq!(
        after.len(),
        before_count,
        "association churn must not create or drop unit rows"
    );
    let unit_after = cargo_home_unit(&after);
    assert_eq!(unit_after.bytes, bytes_before, "bytes must be unaffected");
    assert_eq!(
        unit_after.regrowth_count, regrowth_before,
        "regrowth_count must be unaffected by consumer association changes"
    );
    assert_eq!(
        unit_after.consumers.iter().map(|c| c.label.as_str()).collect::<Vec<_>>(),
        vec!["kept"]
    );
}

#[test]
fn associating_twice_is_once_and_takes_the_later_note() {
    let mut list = Vec::new();
    associate_consumer(&mut list, "a", None);
    associate_consumer(&mut list, "a", Some("why".to_string()));
    assert_eq!(list, vec![ExternalConsumer { label: "a".to_string(), note: Some("why".to_string()) }]);
    dissociate_consumer(&mut list, "b");
    assert_eq!(list.len(), 1);
}

#[test]
fn consumers_read_back_from_their_rows() {
    let list = vec![
        ExternalConsumer { label: "a".to_string(), note: None },
        ExternalConsumer { label: "b".to_string(), note: Some("n".to_string()) },
    ];
    assert_eq!(load_consumers(&sidecar("k", &list), "k"), list);
    assert_eq!(load_consumers(&sidecar("k", &list), "other"), vec![]);
    let facts = consumers_evidence(&list, 9);
    assert_eq!(facts.len(), 2);
    assert_eq!(facts[0].status, FactStatus::Known(FactValue::Text("a".to_string())));
    assert_eq!(facts[0].note, None);
    assert_eq!(facts[1].status, FactStatus::Known(FactValue::Text("b".to_string())));
    assert_eq!(facts[1].note.as_deref(), Some("n"));
    assert_eq!(
        facts[0].source,
        EvidenceSource::ConfigDeclaration { path: "swamp consumer association".to_string() }
    );
}

#[test]
fn a_nested_location_is_left_out_of_the_outer_one() {
    let registry = cargo_home().join("registry");
    let s = scope(
        vec![
            authorized("cargo-home", StorageCategory::Installation, &cargo_home()),
            authorized("cargo-home", StorageCategory::Cache, &registry),
        ],
        vec![UnauthorizedRoot { path: cargo_home().join("private"), out_of_scope: true }],
    );
    let canonical = CanonicalPaths { pairs: Vec::new() };
    let devices = Devices { pairs: Vec::new() };
    let adapters = Adapters::with_builtins();
    let detectors = Registry::with_builtins();
    let previous = Vec::new();
    let coverage = EventCoverage::untrusted();
    let facts = FileFacts::none();
    let p = ExternalPass {
        scope: &s,
        canonical: &canonical,
        devices: &devices,
        adapters: &adapters,
        detectors: &detectors,
        previous: &previous,
        coverage: &coverage,
        observed_at: 1,
        now: 1,
        facts: &facts,
    };
    let plan = p.plan();
    assert_eq!(plan.len(), 2);
    let outer = plan.iter().find(|x| x.candidate.path == cargo_home()).unwrap();
    assert!(outer.exclusions.contains(&registry));
    assert!(outer.exclusions.contains(&cargo_home().join("private")));
    let inner = plan.iter().find(|x| x.candidate.path == registry).unwrap();
    assert!(inner.exclusions.is_empty());
}

#[test]
fn an_unread_location_keeps_its_last_known_size() {
    let scope = only_cargo_home();
    let key = unit_key("cargo-home", StorageCategory::Installation, DEVICE, &cargo_home());
    let unread = |_: &FsPath| Measurement {
        observation: UnitObservation::Unreadable,
        dirs: None,
        activity: activity(),
    };
    let mut a = answers(vec![]);
    a.last_known = vec![LastKnown { key, bytes: 777, regrowth_count: 5 }];
    let units = pass(&scope, 1_000, Some(&a), unread).unwrap();
    let unit = cargo_home_unit(&units);
    assert_eq!(unit.bytes, 777);
    assert_eq!(unit.regrowth_count, 5);
    assert!(unit.note.is_some());
}

#[test]
fn an_absent_location_is_no_unit() {
    let absent = |_: &FsPath| Measurement { observation: UnitObservation::Absent, dirs: None, activity: activity() };
    let units = pass(&only_cargo_home(), 1_000, None, absent).unwrap();
    assert_eq!(units.len(), 0);
}

#[test]
fn a_store_that_fails_fails_the_pass() {
    let failure = StoreFailure { message: "disk full".to_string() };
    let mut a = answers(vec![]);
    a.annotations = Err(failure.clone());
    let got = pass(&only_cargo_home(), 1_000, Some(&a), |_| folded(1));
    assert_eq!(got.err(), Some(failure));
}

#[test]
fn the_inside_of_a_measured_store_is_identified() {
    let npm = at("/fixture/npm");
    let s = scope(vec![authorized("npm", StorageCategory::Cache, &npm)], vec![]);
    let canonical = CanonicalPaths { pairs: Vec::new() };
    let devices = Devices { pairs: Vec::new() };
    let adapters = Adapters::with_builtins();
    let detectors = Registry::with_builtins();
    let previous = Vec::new();
    let coverage = EventCoverage::untrusted();
    let facts = FileFacts::none();
    let p = ExternalPass {
        scope: &s,
        canonical: &canonical,
        devices: &devices,
        adapters: &adapters,
        detectors: &detectors,
        previous: &previous,
        coverage: &coverage,
        observed_at: 1,
        now: 1,
        facts: &facts,
    };
    let mut m = folded(5_000);
    m.dirs = Some(vec![DirRollup {
        rel_path: String::new(),
        parent_rel_path: None,
        own_allocated: 5_000,
        allocated_total: 5_000,
        mod_time_min: 3,
        complete: true,
    }]);
    let seen = observe_external(&p, &vec![m], None).unwrap();
    assert_eq!(seen.units.len(), 1);
    assert!(!seen.interiors.is_empty());
    assert_eq!(seen.interiors[0].bytes, 5_000);
    assert_eq!(seen.interiors[0].mtime_max, 180);
    assert_eq!(seen.interiors[0].adapter.as_deref(), Some("node"));
}

#[test]
fn category_labels_read_back() {
    for c in [
        StorageCategory::Installation,
        StorageCategory::Downloads,
        StorageCategory::Cache,
        StorageCategory::LocalState,
        StorageCategory::Environments,
        StorageCategory::BuildOutput,
        StorageCategory::Models,
        StorageCategory::Unclassified,
    ] {
        assert_eq!(category_from_str(category_label(c)), Some(c));
    }
    assert_eq!(category_from_str("no-such-category"), None);
}

#[test]
fn a_store_that_held_nothing_is_not_walked_again() {
    let npm = at("/home/u/.npm");
    let scope = scope(vec![authorized("npm", StorageCategory::Cache, &npm)], vec![]);
    let canonical = CanonicalPaths { pairs: Vec::new() };
    let devices = Devices { pairs: vec![(npm.copy(), DEVICE)] };
    let adapters = Adapters::with_builtins();
    let detectors = Registry::with_builtins();
    let quiet = EventCoverage::trusted(at("/home/u"), Vec::new(), 100);
    let facts = FileFacts::none();
    let container = BuildContainer::shared_store_of("node", npm.copy(), BuildStoreKind::NpmCache);
    let plan_with = |previous: &Vec<StoredUnits>| {
        let p = ExternalPass {
            scope: &scope,
            canonical: &canonical,
            devices: &devices,
            adapters: &adapters,
            detectors: &detectors,
            previous,
            coverage: &quiet,
            observed_at: 200,
            now: 200,
            facts: &facts,
        };
        let plan = p.plan();
        assert_eq!(plan.len(), 1);
        assert_eq!(plan[0].container.as_ref().map(|c| c.scope()), Some(container.scope()));
        let mut m = folded(0);
        if plan[0].reuse {
            if let UnitObservation::Unit(u) = &mut m.observation {
                u.reused = true;
            }
        }
        let insides = observe_external(&p, &vec![m], None).unwrap().interiors;
        (plan[0].reuse, insides.len())
    };
    let empty = StoredUnits { scope: container.scope(), observed_at: 100, units: Vec::new() };
    assert_eq!(plan_with(&vec![empty]), (true, 0), "an empty answer is an answer");
    let (reuse, insides) = plan_with(&vec![]);
    assert!(!reuse, "without an answer the store is walked");
    assert_eq!(insides, 1);
    let old = StoredUnits { scope: container.scope(), observed_at: 50, units: Vec::new() };
    assert!(!plan_with(&vec![old]).0, "the window does not reach back to the answer");
}

#[test]
fn measurements_whose_totals_do_not_fit_are_told_apart() {
    let row = |rel: &str, parent: Option<&str>, own: u64| DirRollup {
        rel_path: rel.to_string(),
        parent_rel_path: parent.map(str::to_string),
        allocated_total: own,
        own_allocated: own,
        mod_time_min: 0,
        complete: true,
    };
    let with = |own: u64| Measurement { dirs: Some(vec![row("", None, own), row("a", Some(""), 1)]), ..folded(1) };
    assert!(do_measurements_fit(&vec![with(5), folded(3)]));
    assert!(do_measurements_fit(&vec![with(u64::MAX - 1)]));
    assert!(!do_measurements_fit(&vec![folded(3), with(u64::MAX)]));
}
