//! External storage: what a unit of it is, the key it is known by, and who
//! declares to use it.

use crate::build_stores::tables::{cached_view, CachedModel, CachedRows};
use crate::evidence::{
    consumer_fact, evidence_view, push_fact, Evidence, EvidenceSource, FactKind, FactModelled, FactSubtype, FactValue,
    SourceModel, StatusModel, ValueModel,
};
use crate::growth::{external_row_key, row_key};
use crate::locations::StorageCategory;
use crate::path::{path_text, FsPath, PathModel};
use crate::text::{copy_opt, opt_text, same, texts};
use vstd::prelude::*;

verus! {

// ---------------------------------------------------------------------
// Categories and keys
// ---------------------------------------------------------------------

pub open spec fn category_text(c: StorageCategory) -> Seq<char> {
    match c {
        StorageCategory::Installation => "installation"@,
        StorageCategory::Downloads => "downloads"@,
        StorageCategory::Cache => "cache"@,
        StorageCategory::LocalState => "local-state"@,
        StorageCategory::Environments => "environments"@,
        StorageCategory::BuildOutput => "build-output"@,
        StorageCategory::Models => "models"@,
        StorageCategory::Unclassified => "unclassified"@,
    }
}

/// The label of a category.
pub fn category_label(c: StorageCategory) -> (r: &'static str)
    ensures
        r@ == category_text(c),
{
    match c {
        StorageCategory::Installation => "installation",
        StorageCategory::Downloads => "downloads",
        StorageCategory::Cache => "cache",
        StorageCategory::LocalState => "local-state",
        StorageCategory::Environments => "environments",
        StorageCategory::BuildOutput => "build-output",
        StorageCategory::Models => "models",
        StorageCategory::Unclassified => "unclassified",
    }
}

/// The category a label names.
pub open spec fn category_named(s: Seq<char>) -> Option<StorageCategory> {
    if s == "installation"@ {
        Some(StorageCategory::Installation)
    } else if s == "downloads"@ {
        Some(StorageCategory::Downloads)
    } else if s == "cache"@ {
        Some(StorageCategory::Cache)
    } else if s == "local-state"@ {
        Some(StorageCategory::LocalState)
    } else if s == "environments"@ {
        Some(StorageCategory::Environments)
    } else if s == "build-output"@ {
        Some(StorageCategory::BuildOutput)
    } else if s == "models"@ {
        Some(StorageCategory::Models)
    } else if s == "unclassified"@ {
        Some(StorageCategory::Unclassified)
    } else {
        None
    }
}

pub fn category_from_str(s: &str) -> (r: Option<StorageCategory>)
    ensures
        r == category_named(s@),
{
    if same(s, "installation") {
        Some(StorageCategory::Installation)
    } else if same(s, "downloads") {
        Some(StorageCategory::Downloads)
    } else if same(s, "cache") {
        Some(StorageCategory::Cache)
    } else if same(s, "local-state") {
        Some(StorageCategory::LocalState)
    } else if same(s, "environments") {
        Some(StorageCategory::Environments)
    } else if same(s, "build-output") {
        Some(StorageCategory::BuildOutput)
    } else if same(s, "models") {
        Some(StorageCategory::Models)
    } else if same(s, "unclassified") {
        Some(StorageCategory::Unclassified)
    } else {
        None
    }
}

/// A category's label names that category, and holds no mark of a key.
pub proof fn law_category_labels_read_back(c: StorageCategory)
    ensures
        category_named(category_text(c)) == Some(c),
        crate::text::free_of(category_text(c), '\u{1}'),
{
    reveal_strlit("installation");
    reveal_strlit("downloads");
    reveal_strlit("cache");
    reveal_strlit("local-state");
    reveal_strlit("environments");
    reveal_strlit("build-output");
    reveal_strlit("models");
    reveal_strlit("unclassified");
    assert("installation"@.len() == 12);
    assert("downloads"@.len() == 9);
    assert("cache"@.len() == 5);
    assert("local-state"@.len() == 11);
    assert("environments"@.len() == 12);
    assert("build-output"@.len() == 12);
    assert("models"@.len() == 6);
    assert("unclassified"@.len() == 12);
    assert("installation"@[0] != "environments"@[0]);
    assert("installation"@[0] != "build-output"@[0]);
    assert("installation"@[0] != "unclassified"@[0]);
    assert("environments"@[0] != "build-output"@[0]);
    assert("environments"@[0] != "unclassified"@[0]);
    assert("build-output"@[0] != "unclassified"@[0]);
    let s = category_text(c);
    assert forall|i: int| 0 <= i < s.len() implies #[trigger] s[i] != '\u{1}' by {}
}

/// The identity of an external location: its detector, category, device and
/// canonical path.
pub open spec fn location_key(detector_id: Seq<char>, category: StorageCategory, device: u64, path: PathModel) -> Seq<char> {
    row_key(detector_id, category_text(category), device, path_text(path))
}

pub fn unit_key(detector_id: &str, category: StorageCategory, device: u64, path: &FsPath) -> (r: String)
    ensures
        r@ == location_key(detector_id@, category, device, path@),
{
    let text = path.text();
    external_row_key(detector_id, category_label(category), device, text.as_str())
}

// ---------------------------------------------------------------------
// Consumers
// ---------------------------------------------------------------------

/// A declared consumer of an external unit.
#[derive(Debug, Clone, PartialEq, Eq)]
pub struct ExternalConsumer {
    pub label: String,
    pub note: Option<String>,
}

pub struct ConsumerModel {
    pub label: Seq<char>,
    pub note: Option<Seq<char>>,
}

impl View for ExternalConsumer {
    type V = ConsumerModel;

    open spec fn view(&self) -> ConsumerModel {
        ConsumerModel { label: self.label@, note: opt_text(self.note) }
    }
}

pub open spec fn consumers_view(s: Seq<ExternalConsumer>) -> Seq<ConsumerModel> {
    Seq::new(s.len(), |i: int| s[i]@)
}

fn push_consumer(v: &mut Vec<ExternalConsumer>, c: ExternalConsumer)
    ensures
        consumers_view(final(v)@) == consumers_view(old(v)@).push(c@),
{
    let ghost m = c@;
    v.push(c);
    assert(consumers_view(v@) =~= consumers_view(old(v)@).push(m));
}

pub fn copy_consumers(v: &Vec<ExternalConsumer>) -> (r: Vec<ExternalConsumer>)
    ensures
        consumers_view(r@) == consumers_view(v@),
{
    let ghost all = consumers_view(v@);
    let mut out: Vec<ExternalConsumer> = Vec::new();
    let mut i: usize = 0;
    assert(consumers_view(out@) =~= all.take(0));
    while i < v.len()
        invariant
            i <= v@.len(),
            all == consumers_view(v@),
            consumers_view(out@) == all.take(i as int),
        decreases v@.len() - i,
    {
        push_consumer(
            &mut out,
            ExternalConsumer { label: v[i].label.as_str().to_owned(), note: copy_opt(&v[i].note) },
        );
        i += 1;
        assert(consumers_view(out@) =~= all.take(i as int));
    }
    assert(all.take(i as int) =~= all);
    out
}

/// The consumer a stored row declares: its label, and a note if there is one. A
/// row without a label declares none.
pub open spec fn consumer_in(row: Seq<Seq<char>>) -> Option<ConsumerModel> {
    if row.len() == 0 || row[0].len() == 0 {
        None
    } else {
        Some(
            ConsumerModel {
                label: row[0],
                note: if row.len() > 1 && row[1].len() > 0 {
                    Some(row[1])
                } else {
                    None
                },
            },
        )
    }
}

pub open spec fn consumers_in(rows: Seq<Seq<Seq<char>>>, n: int) -> Seq<ConsumerModel>
    decreases n,
{
    if n <= 0 {
        Seq::empty()
    } else {
        match consumer_in(rows[n - 1]) {
            Some(c) => consumers_in(rows, n - 1).push(c),
            None => consumers_in(rows, n - 1),
        }
    }
}

/// The consumers declared under a key, in the first `n` entries of the table.
pub open spec fn declared_upto(table: Seq<CachedModel>, key: Seq<char>, n: int) -> Seq<ConsumerModel>
    decreases n,
{
    if n <= 0 {
        Seq::empty()
    } else if table[n - 1].key == key {
        declared_upto(table, key, n - 1) + consumers_in(table[n - 1].rows, table[n - 1].rows.len() as int)
    } else {
        declared_upto(table, key, n - 1)
    }
}

pub open spec fn declared(table: Seq<CachedModel>, key: Seq<char>) -> Seq<ConsumerModel> {
    declared_upto(table, key, table.len() as int)
}

fn read_consumers(out: &mut Vec<ExternalConsumer>, rows: &Vec<Vec<String>>)
    ensures
        consumers_view(final(out)@) == consumers_view(old(out)@) + consumers_in(
            crate::build_stores::rows::rows_view(rows@),
            rows@.len() as int,
        ),
{
    let ghost start = consumers_view(out@);
    let ghost all = crate::build_stores::rows::rows_view(rows@);
    let mut i: usize = 0;
    assert(start + consumers_in(all, 0) =~= start);
    while i < rows.len()
        invariant
            i <= rows@.len(),
            all == crate::build_stores::rows::rows_view(rows@),
            consumers_view(out@) == start + consumers_in(all, i as int),
        decreases rows@.len() - i,
    {
        let row = &rows[i];
        assert(all[i as int] == texts(row@));
        if row.len() > 0 && !row[0].as_str().is_empty() {
            let note = if row.len() > 1 && !row[1].as_str().is_empty() {
                Some(row[1].as_str().to_owned())
            } else {
                None
            };
            push_consumer(out, ExternalConsumer { label: row[0].as_str().to_owned(), note });
        }
        i += 1;
        assert(consumers_view(out@) =~= start + consumers_in(all, i as int));
    }
}

/// The consumers declared for a unit, none where none are recorded.
pub fn load_consumers(table: &Vec<CachedRows>, key: &str) -> (r: Vec<ExternalConsumer>)
    ensures
        consumers_view(r@) == declared(cached_view(table@), key@),
{
    let ghost all = cached_view(table@);
    let mut out: Vec<ExternalConsumer> = Vec::new();
    let mut i: usize = 0;
    assert(consumers_view(out@) =~= declared_upto(all, key@, 0));
    while i < table.len()
        invariant
            i <= table@.len(),
            all == cached_view(table@),
            consumers_view(out@) == declared_upto(all, key@, i as int),
        decreases table@.len() - i,
    {
        assert(all[i as int] == table@[i as int]@);
        if same(table[i].key.as_str(), key) {
            assert(crate::build_stores::rows::rows_view(table@[i as int].rows@).len() == table@[i as int].rows@.len());
            read_consumers(&mut out, &table[i].rows);
        }
        i += 1;
    }
    assert(all.len() == table@.len());
    out
}

/// The fact that a declared consumer is.
pub open spec fn consumer_evidence(c: ConsumerModel, now: u64) -> FactModelled {
    let e = consumer_fact(
        StatusModel::Known(ValueModel::Text(c.label)),
        SourceModel::ConfigDeclaration { path: "swamp consumer association"@ },
        now,
    );
    match c.note {
        Some(n) => e.noted(n),
        None => e,
    }
}

pub open spec fn consumers_evidence_of(list: Seq<ConsumerModel>, now: u64) -> Seq<FactModelled> {
    Seq::new(list.len(), |i: int| consumer_evidence(list[i], now))
}

/// Declared consumers as evidence.
pub fn consumers_evidence(list: &Vec<ExternalConsumer>, now: u64) -> (r: Vec<Evidence>)
    ensures
        evidence_view(r@) == consumers_evidence_of(consumers_view(list@), now),
{
    let ghost all = consumers_evidence_of(consumers_view(list@), now);
    let mut out: Vec<Evidence> = Vec::new();
    let mut i: usize = 0;
    assert(evidence_view(out@) =~= all.take(0));
    while i < list.len()
        invariant
            i <= list@.len(),
            all == consumers_evidence_of(consumers_view(list@), now),
            evidence_view(out@) == all.take(i as int),
        decreases list@.len() - i,
    {
        assert(consumers_view(list@)[i as int] == list@[i as int]@);
        let e = Evidence::known(
            FactKind::Consumer,
            FactSubtype::DeclaredConsumer,
            FactValue::Text(list[i].label.as_str().to_owned()),
            EvidenceSource::ConfigDeclaration { path: "swamp consumer association".to_owned() },
            now,
        );
        let e = match &list[i].note {
            Some(n) => e.with_note(n.as_str()),
            None => e,
        };
        push_fact(&mut out, e);
        i += 1;
        assert(evidence_view(out@) =~= all.take(i as int));
    }
    assert(all.take(i as int) =~= all);
    out
}

// ---------------------------------------------------------------------
// Units
// ---------------------------------------------------------------------

/// How a location came to be known.
#[derive(Debug, Clone, PartialEq, Eq)]
pub enum Provenance {
    BuiltinConvention,
    Declared { by: String },
}

pub enum ProvenanceModel {
    BuiltinConvention,
    Declared { by: Seq<char> },
}

impl View for Provenance {
    type V = ProvenanceModel;

    open spec fn view(&self) -> ProvenanceModel {
        match self {
            Provenance::BuiltinConvention => ProvenanceModel::BuiltinConvention,
            Provenance::Declared { by } => ProvenanceModel::Declared { by: by@ },
        }
    }
}

impl Provenance {
    pub fn copy(&self) -> (r: Self)
        ensures
            r@ == self@,
    {
        match self {
            Provenance::BuiltinConvention => Provenance::BuiltinConvention,
            Provenance::Declared { by } => Provenance::Declared { by: by.as_str().to_owned() },
        }
    }
}

/// One measured external location. Its identity depends on no project.
#[derive(Debug, Clone)]
pub struct ExternalUnit {
    pub detector_id: String,
    pub detector_name: String,
    pub category: StorageCategory,
    pub provenance: Provenance,
    pub path: FsPath,
    pub bytes: u64,
    /// The newest modification among what was measured.
    pub mtime_max: u64,
    pub hardlinked: bool,
    pub growth_bytes: Option<i64>,
    pub regrowth_count: u32,
    pub observed_at: u64,
    pub consumers: Vec<ExternalConsumer>,
    /// Why this pass does not cover the unit, when it does not.
    pub note: Option<String>,
    pub evidence: Vec<Evidence>,
}

pub struct ExternalModel {
    pub detector_id: Seq<char>,
    pub detector_name: Seq<char>,
    pub category: StorageCategory,
    pub provenance: ProvenanceModel,
    pub path: PathModel,
    pub bytes: u64,
    pub mtime_max: u64,
    pub hardlinked: bool,
    pub growth_bytes: Option<i64>,
    pub regrowth_count: u32,
    pub observed_at: u64,
    pub consumers: Seq<ConsumerModel>,
    pub note: Option<Seq<char>>,
    pub evidence: Seq<FactModelled>,
}

impl View for ExternalUnit {
    type V = ExternalModel;

    open spec fn view(&self) -> ExternalModel {
        ExternalModel {
            detector_id: self.detector_id@,
            detector_name: self.detector_name@,
            category: self.category,
            provenance: self.provenance@,
            path: self.path@,
            bytes: self.bytes,
            mtime_max: self.mtime_max,
            hardlinked: self.hardlinked,
            growth_bytes: self.growth_bytes,
            regrowth_count: self.regrowth_count,
            observed_at: self.observed_at,
            consumers: consumers_view(self.consumers@),
            note: opt_text(self.note),
            evidence: evidence_view(self.evidence@),
        }
    }
}

pub open spec fn externals_view(s: Seq<ExternalUnit>) -> Seq<ExternalModel> {
    Seq::new(s.len(), |i: int| s[i]@)
}

impl ExternalUnit {
    pub fn copy(&self) -> (r: Self)
        ensures
            r@ == self@,
    {
        ExternalUnit {
            detector_id: self.detector_id.as_str().to_owned(),
            detector_name: self.detector_name.as_str().to_owned(),
            category: self.category,
            provenance: self.provenance.copy(),
            path: self.path.copy(),
            bytes: self.bytes,
            mtime_max: self.mtime_max,
            hardlinked: self.hardlinked,
            growth_bytes: self.growth_bytes,
            regrowth_count: self.regrowth_count,
            observed_at: self.observed_at,
            consumers: copy_consumers(&self.consumers),
            note: copy_opt(&self.note),
            evidence: crate::evidence::copy_facts(&self.evidence),
        }
    }
}

pub fn push_external(v: &mut Vec<ExternalUnit>, u: ExternalUnit)
    ensures
        externals_view(final(v)@) == externals_view(old(v)@).push(u@),
{
    let ghost m = u@;
    v.push(u);
    assert(externals_view(v@) =~= externals_view(old(v)@).push(m));
}

/// What the first `n` units hold together.
pub open spec fn bytes_upto(units: Seq<ExternalModel>, n: int) -> nat
    decreases n,
{
    if n <= 0 {
        0
    } else {
        bytes_upto(units, n - 1) + units[n - 1].bytes as nat
    }
}

pub open spec fn all_bytes(units: Seq<ExternalModel>) -> nat {
    bytes_upto(units, units.len() as int)
}

proof fn lemma_bytes_grow(units: Seq<ExternalModel>, n: int, m: int)
    requires
        n <= m,
    ensures
        bytes_upto(units, n) <= bytes_upto(units, m),
    decreases m - n,
{
    if n < m {
        lemma_bytes_grow(units, n, m - 1);
    }
}

/// What external units hold together, each counted once however many consumers
/// it has.
pub fn total_bytes(units: &Vec<ExternalUnit>) -> (r: u64)
    requires
        all_bytes(externals_view(units@)) <= u64::MAX,
    ensures
        r == all_bytes(externals_view(units@)),
{
    let ghost all = externals_view(units@);
    let mut sum: u64 = 0;
    let mut i: usize = 0;
    assert(all.len() == units@.len());
    while i < units.len()
        invariant
            i <= units@.len(),
            all == externals_view(units@),
            all.len() == units@.len(),
            sum == bytes_upto(all, i as int),
            all_bytes(all) <= u64::MAX,
        decreases units@.len() - i,
    {
        assert(all[i as int] == units@[i as int]@);
        proof {
            lemma_bytes_grow(all, i + 1, all.len() as int);
        }
        sum = sum + units[i].bytes;
        i += 1;
    }
    sum
}

/// A unit with other consumers.
pub open spec fn with_consumers(u: ExternalModel, consumers: Seq<ConsumerModel>, evidence: Seq<FactModelled>) -> ExternalModel {
    ExternalModel { consumers, evidence, ..u }
}

proof fn lemma_bytes_only(a: Seq<ExternalModel>, b: Seq<ExternalModel>, n: int)
    requires
        0 <= n <= a.len(),
        a.len() == b.len(),
        forall|i: int| 0 <= i < a.len() ==> (#[trigger] a[i]).bytes == b[i].bytes,
    ensures
        bytes_upto(a, n) == bytes_upto(b, n),
    decreases n,
{
    if n > 0 {
        lemma_bytes_only(a, b, n - 1);
        assert(a[n - 1].bytes == b[n - 1].bytes);
    }
}

/// Who uses a unit changes nothing of what units hold together.
pub proof fn law_consumers_are_counted_once(
    units: Seq<ExternalModel>,
    i: int,
    consumers: Seq<ConsumerModel>,
    evidence: Seq<FactModelled>,
)
    requires
        0 <= i < units.len(),
    ensures
        all_bytes(units.update(i, with_consumers(units[i], consumers, evidence))) == all_bytes(units),
{
    lemma_bytes_only(
        units.update(i, with_consumers(units[i], consumers, evidence)),
        units,
        units.len() as int,
    );
}

} // verus!
