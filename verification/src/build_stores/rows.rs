//! Identified units as stored rows, and back.
//!
//! A row is a unit's id, the name of a field and one value of it. History is
//! recomputed every pass and never stored here.

use crate::artifact::{
    evidences, law_role_labels_read_back, lemma_accounting_basis_reads_back, lemma_confidence_reads_back,
    lemma_membership_reads_back, lemma_time_source_reads_back, push_evidence, push_unit, units_view, AccountingBasis,
    ActionModel, ArtifactCoverage, ArtifactEvidence, ArtifactRole, ArtifactVariant, Confidence, CoverageModel,
    EvidenceModel, Membership, NestedActionCapability, NestedArtifact, TimeSource, UnitModel, VariantModel,
};
use crate::evidence::no_facts;
use crate::number::{
    decimal, flag_text, law_numbers_read_back, lemma_flags_read_back, parse_flag, parse_u64, read_flag, read_u64,
    write_flag, write_u64,
};
use crate::path::{law_path_texts_read_back, opt_path, path_of, path_text, FsPath};
use crate::text::{
    cat5, copy_all, cut_first, free_of, lemma_cut_first, opt_text, push_text, same, split_first, text_from_char, texts,
};
use vstd::prelude::*;

verus! {

/// The fields a unit is stored as, in the order they are written.
#[derive(Debug, Clone, Copy, PartialEq, Eq, Structural)]
pub enum Field {
    Path,
    RelativePath,
    ParentId,
    ContainerId,
    Role,
    Membership,
    IsDir,
    Device,
    Inode,
    LogicalBytes,
    Bytes,
    PhysicalBytes,
    PhysicalTotal,
    MtimeMax,
    Package,
    Version,
    Target,
    Profile,
    Architecture,
    Toolchain,
    Features,
    Configuration,
    Generation,
    Unknown,
    Producer,
    Consumer,
    Supported,
    Complete,
    Limit,
    ActionGroup,
    Present,
    Adapter,
    Basis,
    TimeSource,
    Action,
    ActionReason,
    Consequence,
    ReportedBy,
    WriterLock,
}

/// Every field, in the order they are written.
pub open spec fn fields() -> Seq<Field> {
    seq![
        Field::Path,
        Field::RelativePath,
        Field::ParentId,
        Field::ContainerId,
        Field::Role,
        Field::Membership,
        Field::IsDir,
        Field::Device,
        Field::Inode,
        Field::LogicalBytes,
        Field::Bytes,
        Field::PhysicalBytes,
        Field::PhysicalTotal,
        Field::MtimeMax,
        Field::Package,
        Field::Version,
        Field::Target,
        Field::Profile,
        Field::Architecture,
        Field::Toolchain,
        Field::Features,
        Field::Configuration,
        Field::Generation,
        Field::Unknown,
        Field::Producer,
        Field::Consumer,
        Field::Supported,
        Field::Complete,
        Field::Limit,
        Field::ActionGroup,
        Field::Present,
        Field::Adapter,
        Field::Basis,
        Field::TimeSource,
        Field::Action,
        Field::ActionReason,
        Field::Consequence,
        Field::ReportedBy,
        Field::WriterLock,
    ]
}

impl Field {
    /// The name a field is stored under.
    pub open spec fn label_spec(self) -> Seq<char> {
        match self {
            Field::Path => "path"@,
            Field::RelativePath => "relative_path"@,
            Field::ParentId => "parent_id"@,
            Field::ContainerId => "container_id"@,
            Field::Role => "role"@,
            Field::Membership => "membership"@,
            Field::IsDir => "is_dir"@,
            Field::Device => "device"@,
            Field::Inode => "inode"@,
            Field::LogicalBytes => "logical_bytes"@,
            Field::Bytes => "bytes"@,
            Field::PhysicalBytes => "physical_bytes"@,
            Field::PhysicalTotal => "physical_total"@,
            Field::MtimeMax => "mtime_max"@,
            Field::Package => "variant.package"@,
            Field::Version => "variant.version"@,
            Field::Target => "variant.target"@,
            Field::Profile => "variant.profile"@,
            Field::Architecture => "variant.architecture"@,
            Field::Toolchain => "variant.toolchain"@,
            Field::Features => "variant.features"@,
            Field::Configuration => "variant.configuration"@,
            Field::Generation => "variant.generation"@,
            Field::Unknown => "variant.unknown"@,
            Field::Producer => "producer"@,
            Field::Consumer => "consumer"@,
            Field::Supported => "supported"@,
            Field::Complete => "complete"@,
            Field::Limit => "limit"@,
            Field::ActionGroup => "action_group"@,
            Field::Present => "present"@,
            Field::Adapter => "adapter"@,
            Field::Basis => "basis"@,
            Field::TimeSource => "time_source"@,
            Field::Action => "action"@,
            Field::ActionReason => "action_reason"@,
            Field::Consequence => "consequence"@,
            Field::ReportedBy => "reported_by"@,
            Field::WriterLock => "writer_lock"@,
        }
    }

    pub fn label(&self) -> (r: &'static str)
        ensures
            r@ == self.label_spec(),
    {
        match self {
            Field::Path => "path",
            Field::RelativePath => "relative_path",
            Field::ParentId => "parent_id",
            Field::ContainerId => "container_id",
            Field::Role => "role",
            Field::Membership => "membership",
            Field::IsDir => "is_dir",
            Field::Device => "device",
            Field::Inode => "inode",
            Field::LogicalBytes => "logical_bytes",
            Field::Bytes => "bytes",
            Field::PhysicalBytes => "physical_bytes",
            Field::PhysicalTotal => "physical_total",
            Field::MtimeMax => "mtime_max",
            Field::Package => "variant.package",
            Field::Version => "variant.version",
            Field::Target => "variant.target",
            Field::Profile => "variant.profile",
            Field::Architecture => "variant.architecture",
            Field::Toolchain => "variant.toolchain",
            Field::Features => "variant.features",
            Field::Configuration => "variant.configuration",
            Field::Generation => "variant.generation",
            Field::Unknown => "variant.unknown",
            Field::Producer => "producer",
            Field::Consumer => "consumer",
            Field::Supported => "supported",
            Field::Complete => "complete",
            Field::Limit => "limit",
            Field::ActionGroup => "action_group",
            Field::Present => "present",
            Field::Adapter => "adapter",
            Field::Basis => "basis",
            Field::TimeSource => "time_source",
            Field::Action => "action",
            Field::ActionReason => "action_reason",
            Field::Consequence => "consequence",
            Field::ReportedBy => "reported_by",
            Field::WriterLock => "writer_lock",
        }
    }

    pub fn all() -> (r: Vec<Field>)
        ensures
            r@ == fields(),
    {
        let r: Vec<Field> = vec![
            Field::Path,
            Field::RelativePath,
            Field::ParentId,
            Field::ContainerId,
            Field::Role,
            Field::Membership,
            Field::IsDir,
            Field::Device,
            Field::Inode,
            Field::LogicalBytes,
            Field::Bytes,
            Field::PhysicalBytes,
            Field::PhysicalTotal,
            Field::MtimeMax,
            Field::Package,
            Field::Version,
            Field::Target,
            Field::Profile,
            Field::Architecture,
            Field::Toolchain,
            Field::Features,
            Field::Configuration,
            Field::Generation,
            Field::Unknown,
            Field::Producer,
            Field::Consumer,
            Field::Supported,
            Field::Complete,
            Field::Limit,
            Field::ActionGroup,
            Field::Present,
            Field::Adapter,
            Field::Basis,
            Field::TimeSource,
            Field::Action,
            Field::ActionReason,
            Field::Consequence,
            Field::ReportedBy,
            Field::WriterLock,
        ];
        assert(r@ =~= fields());
        r
    }

    /// The place of a field in the order.
    pub open spec fn place(self) -> int {
        match self {
            Field::Path => 0,
            Field::RelativePath => 1,
            Field::ParentId => 2,
            Field::ContainerId => 3,
            Field::Role => 4,
            Field::Membership => 5,
            Field::IsDir => 6,
            Field::Device => 7,
            Field::Inode => 8,
            Field::LogicalBytes => 9,
            Field::Bytes => 10,
            Field::PhysicalBytes => 11,
            Field::PhysicalTotal => 12,
            Field::MtimeMax => 13,
            Field::Package => 14,
            Field::Version => 15,
            Field::Target => 16,
            Field::Profile => 17,
            Field::Architecture => 18,
            Field::Toolchain => 19,
            Field::Features => 20,
            Field::Configuration => 21,
            Field::Generation => 22,
            Field::Unknown => 23,
            Field::Producer => 24,
            Field::Consumer => 25,
            Field::Supported => 26,
            Field::Complete => 27,
            Field::Limit => 28,
            Field::ActionGroup => 29,
            Field::Present => 30,
            Field::Adapter => 31,
            Field::Basis => 32,
            Field::TimeSource => 33,
            Field::Action => 34,
            Field::ActionReason => 35,
            Field::Consequence => 36,
            Field::ReportedBy => 37,
            Field::WriterLock => 38,
        }
    }
}

/// A number that tells the fields' names apart.
spec fn mark(s: Seq<char>) -> int {
    (s.len() * 1000 + s[0] as int) * 1000 + s[s.len() - 2] as int
}

spec fn field_mark(f: Field) -> int {
    match f {
        Field::Path => 4112116,
        Field::RelativePath => 13114116,
        Field::ParentId => 9112105,
        Field::ContainerId => 12099105,
        Field::Role => 4114108,
        Field::Membership => 10109105,
        Field::IsDir => 6105105,
        Field::Device => 6100099,
        Field::Inode => 5105100,
        Field::LogicalBytes => 13108101,
        Field::Bytes => 5098101,
        Field::PhysicalBytes => 14112101,
        Field::PhysicalTotal => 14112097,
        Field::MtimeMax => 9109097,
        Field::Package => 15118103,
        Field::Version => 15118111,
        Field::Target => 14118101,
        Field::Profile => 15118108,
        Field::Architecture => 20118114,
        Field::Toolchain => 17118105,
        Field::Features => 16118101,
        Field::Configuration => 21118111,
        Field::Generation => 18118111,
        Field::Unknown => 15118119,
        Field::Producer => 8112101,
        Field::Consumer => 8099101,
        Field::Supported => 9115101,
        Field::Complete => 8099116,
        Field::Limit => 5108105,
        Field::ActionGroup => 12097117,
        Field::Present => 7112110,
        Field::Adapter => 7097101,
        Field::Basis => 5098105,
        Field::TimeSource => 11116099,
        Field::Action => 6097111,
        Field::ActionReason => 13097111,
        Field::Consequence => 11099099,
        Field::ReportedBy => 11114098,
        Field::WriterLock => 11119099,
    }
}

proof fn lemma_marks(f: Field)
    ensures
        mark(f.label_spec()) == field_mark(f),
{
    match f {
        Field::Path => {
            reveal_strlit("path");
            assert("path"@.len() == 4);
            assert("path"@[0] == 'p');
            assert("path"@[2] == 't');
        },
        Field::RelativePath => {
            reveal_strlit("relative_path");
            assert("relative_path"@.len() == 13);
            assert("relative_path"@[0] == 'r');
            assert("relative_path"@[11] == 't');
        },
        Field::ParentId => {
            reveal_strlit("parent_id");
            assert("parent_id"@.len() == 9);
            assert("parent_id"@[0] == 'p');
            assert("parent_id"@[7] == 'i');
        },
        Field::ContainerId => {
            reveal_strlit("container_id");
            assert("container_id"@.len() == 12);
            assert("container_id"@[0] == 'c');
            assert("container_id"@[10] == 'i');
        },
        Field::Role => {
            reveal_strlit("role");
            assert("role"@.len() == 4);
            assert("role"@[0] == 'r');
            assert("role"@[2] == 'l');
        },
        Field::Membership => {
            reveal_strlit("membership");
            assert("membership"@.len() == 10);
            assert("membership"@[0] == 'm');
            assert("membership"@[8] == 'i');
        },
        Field::IsDir => {
            reveal_strlit("is_dir");
            assert("is_dir"@.len() == 6);
            assert("is_dir"@[0] == 'i');
            assert("is_dir"@[4] == 'i');
        },
        Field::Device => {
            reveal_strlit("device");
            assert("device"@.len() == 6);
            assert("device"@[0] == 'd');
            assert("device"@[4] == 'c');
        },
        Field::Inode => {
            reveal_strlit("inode");
            assert("inode"@.len() == 5);
            assert("inode"@[0] == 'i');
            assert("inode"@[3] == 'd');
        },
        Field::LogicalBytes => {
            reveal_strlit("logical_bytes");
            assert("logical_bytes"@.len() == 13);
            assert("logical_bytes"@[0] == 'l');
            assert("logical_bytes"@[11] == 'e');
        },
        Field::Bytes => {
            reveal_strlit("bytes");
            assert("bytes"@.len() == 5);
            assert("bytes"@[0] == 'b');
            assert("bytes"@[3] == 'e');
        },
        Field::PhysicalBytes => {
            reveal_strlit("physical_bytes");
            assert("physical_bytes"@.len() == 14);
            assert("physical_bytes"@[0] == 'p');
            assert("physical_bytes"@[12] == 'e');
        },
        Field::PhysicalTotal => {
            reveal_strlit("physical_total");
            assert("physical_total"@.len() == 14);
            assert("physical_total"@[0] == 'p');
            assert("physical_total"@[12] == 'a');
        },
        Field::MtimeMax => {
            reveal_strlit("mtime_max");
            assert("mtime_max"@.len() == 9);
            assert("mtime_max"@[0] == 'm');
            assert("mtime_max"@[7] == 'a');
        },
        Field::Package => {
            reveal_strlit("variant.package");
            assert("variant.package"@.len() == 15);
            assert("variant.package"@[0] == 'v');
            assert("variant.package"@[13] == 'g');
        },
        Field::Version => {
            reveal_strlit("variant.version");
            assert("variant.version"@.len() == 15);
            assert("variant.version"@[0] == 'v');
            assert("variant.version"@[13] == 'o');
        },
        Field::Target => {
            reveal_strlit("variant.target");
            assert("variant.target"@.len() == 14);
            assert("variant.target"@[0] == 'v');
            assert("variant.target"@[12] == 'e');
        },
        Field::Profile => {
            reveal_strlit("variant.profile");
            assert("variant.profile"@.len() == 15);
            assert("variant.profile"@[0] == 'v');
            assert("variant.profile"@[13] == 'l');
        },
        Field::Architecture => {
            reveal_strlit("variant.architecture");
            assert("variant.architecture"@.len() == 20);
            assert("variant.architecture"@[0] == 'v');
            assert("variant.architecture"@[18] == 'r');
        },
        Field::Toolchain => {
            reveal_strlit("variant.toolchain");
            assert("variant.toolchain"@.len() == 17);
            assert("variant.toolchain"@[0] == 'v');
            assert("variant.toolchain"@[15] == 'i');
        },
        Field::Features => {
            reveal_strlit("variant.features");
            assert("variant.features"@.len() == 16);
            assert("variant.features"@[0] == 'v');
            assert("variant.features"@[14] == 'e');
        },
        Field::Configuration => {
            reveal_strlit("variant.configuration");
            assert("variant.configuration"@.len() == 21);
            assert("variant.configuration"@[0] == 'v');
            assert("variant.configuration"@[19] == 'o');
        },
        Field::Generation => {
            reveal_strlit("variant.generation");
            assert("variant.generation"@.len() == 18);
            assert("variant.generation"@[0] == 'v');
            assert("variant.generation"@[16] == 'o');
        },
        Field::Unknown => {
            reveal_strlit("variant.unknown");
            assert("variant.unknown"@.len() == 15);
            assert("variant.unknown"@[0] == 'v');
            assert("variant.unknown"@[13] == 'w');
        },
        Field::Producer => {
            reveal_strlit("producer");
            assert("producer"@.len() == 8);
            assert("producer"@[0] == 'p');
            assert("producer"@[6] == 'e');
        },
        Field::Consumer => {
            reveal_strlit("consumer");
            assert("consumer"@.len() == 8);
            assert("consumer"@[0] == 'c');
            assert("consumer"@[6] == 'e');
        },
        Field::Supported => {
            reveal_strlit("supported");
            assert("supported"@.len() == 9);
            assert("supported"@[0] == 's');
            assert("supported"@[7] == 'e');
        },
        Field::Complete => {
            reveal_strlit("complete");
            assert("complete"@.len() == 8);
            assert("complete"@[0] == 'c');
            assert("complete"@[6] == 't');
        },
        Field::Limit => {
            reveal_strlit("limit");
            assert("limit"@.len() == 5);
            assert("limit"@[0] == 'l');
            assert("limit"@[3] == 'i');
        },
        Field::ActionGroup => {
            reveal_strlit("action_group");
            assert("action_group"@.len() == 12);
            assert("action_group"@[0] == 'a');
            assert("action_group"@[10] == 'u');
        },
        Field::Present => {
            reveal_strlit("present");
            assert("present"@.len() == 7);
            assert("present"@[0] == 'p');
            assert("present"@[5] == 'n');
        },
        Field::Adapter => {
            reveal_strlit("adapter");
            assert("adapter"@.len() == 7);
            assert("adapter"@[0] == 'a');
            assert("adapter"@[5] == 'e');
        },
        Field::Basis => {
            reveal_strlit("basis");
            assert("basis"@.len() == 5);
            assert("basis"@[0] == 'b');
            assert("basis"@[3] == 'i');
        },
        Field::TimeSource => {
            reveal_strlit("time_source");
            assert("time_source"@.len() == 11);
            assert("time_source"@[0] == 't');
            assert("time_source"@[9] == 'c');
        },
        Field::Action => {
            reveal_strlit("action");
            assert("action"@.len() == 6);
            assert("action"@[0] == 'a');
            assert("action"@[4] == 'o');
        },
        Field::ActionReason => {
            reveal_strlit("action_reason");
            assert("action_reason"@.len() == 13);
            assert("action_reason"@[0] == 'a');
            assert("action_reason"@[11] == 'o');
        },
        Field::Consequence => {
            reveal_strlit("consequence");
            assert("consequence"@.len() == 11);
            assert("consequence"@[0] == 'c');
            assert("consequence"@[9] == 'c');
        },
        Field::ReportedBy => {
            reveal_strlit("reported_by");
            assert("reported_by"@.len() == 11);
            assert("reported_by"@[0] == 'r');
            assert("reported_by"@[9] == 'b');
        },
        Field::WriterLock => {
            reveal_strlit("writer_lock");
            assert("writer_lock"@.len() == 11);
            assert("writer_lock"@[0] == 'w');
            assert("writer_lock"@[9] == 'c');
        },
    }
}

/// No two fields are stored under one name.
pub proof fn law_field_names_differ(f: Field, g: Field)
    ensures
        f.label_spec() == g.label_spec() <==> f == g,
{
    lemma_marks(f);
    lemma_marks(g);
}

proof fn lemma_places(f: Field)
    ensures
        0 <= f.place() < fields().len(),
        fields()[f.place()] == f,
        fields().len() == 39,
{
}

proof fn lemma_place_of(k: int)
    requires
        0 <= k < fields().len(),
    ensures
        fields()[k].place() == k,
{
}

// ---------------------------------------------------------------------
// Writing
// ---------------------------------------------------------------------

pub open spec fn none_or(o: Option<Seq<char>>) -> Seq<Seq<char>> {
    match o {
        Some(t) => seq![t],
        None => Seq::empty(),
    }
}

/// The character between the parts of a stored statement.
pub open spec fn mark_text() -> Seq<char> {
    seq!['\u{1}']
}

pub open spec fn evidence_text(e: EvidenceModel) -> Seq<char> {
    e.source + mark_text() + e.confidence.label_spec() + mark_text() + e.detail
}

pub open spec fn evidence_texts(list: Seq<EvidenceModel>) -> Seq<Seq<char>> {
    Seq::new(list.len(), |i: int| evidence_text(list[i]))
}

/// The values a unit has for a field.
pub open spec fn values_of(u: UnitModel, f: Field) -> Seq<Seq<char>> {
    match f {
        Field::Path => seq![path_text(u.path)],
        Field::RelativePath => seq![u.relative_path],
        Field::ParentId => none_or(u.parent_id),
        Field::ContainerId => none_or(u.container_id),
        Field::Role => seq![u.role.label_spec()],
        Field::Membership => seq![u.membership.label_spec()],
        Field::IsDir => seq![flag_text(u.is_dir)],
        Field::Device => seq![decimal(u.device as nat)],
        Field::Inode => seq![decimal(u.inode as nat)],
        Field::LogicalBytes => seq![decimal(u.logical_bytes as nat)],
        Field::Bytes => seq![decimal(u.bytes as nat)],
        Field::PhysicalBytes => seq![decimal(u.physical_bytes as nat)],
        Field::PhysicalTotal => seq![decimal(u.physical_total as nat)],
        Field::MtimeMax => seq![decimal(u.mtime_max as nat)],
        Field::Package => none_or(u.variant.package),
        Field::Version => none_or(u.variant.version),
        Field::Target => none_or(u.variant.target),
        Field::Profile => none_or(u.variant.profile),
        Field::Architecture => none_or(u.variant.architecture),
        Field::Toolchain => none_or(u.variant.toolchain),
        Field::Features => none_or(u.variant.features),
        Field::Configuration => none_or(u.variant.configuration),
        Field::Generation => none_or(u.variant.generation),
        Field::Unknown => u.variant.unknowns,
        Field::Producer => evidence_texts(u.producer_evidence),
        Field::Consumer => evidence_texts(u.consumer_evidence),
        Field::Supported => seq![flag_text(u.coverage.supported)],
        Field::Complete => seq![flag_text(u.coverage.complete)],
        Field::Limit => u.coverage.limits,
        Field::ActionGroup => none_or(u.action_group),
        Field::Present => seq![flag_text(u.present)],
        Field::Adapter => none_or(u.adapter),
        Field::Basis => seq![u.basis.label_spec()],
        Field::TimeSource => seq![u.time_source.label_spec()],
        Field::Action => seq![
            match u.action {
                ActionModel::TrashPath => "trash-path"@,
                ActionModel::InspectionOnly => "inspection-only"@,
                ActionModel::Unsupported { .. } => "unsupported"@,
            },
        ],
        Field::ActionReason => match u.action {
            ActionModel::Unsupported { reason } => seq![reason],
            _ => Seq::empty(),
        },
        Field::Consequence => none_or(u.consequence),
        Field::ReportedBy => none_or(u.reported_by),
        Field::WriterLock => match u.writer_lock {
            Some(p) => seq![path_text(p)],
            None => Seq::empty(),
        },
    }
}

/// A field's name and a value of it.
pub type Pair = (Seq<char>, Seq<char>);

pub open spec fn field_pairs(u: UnitModel, f: Field) -> Seq<Pair> {
    Seq::new(values_of(u, f).len(), |i: int| (f.label_spec(), values_of(u, f)[i]))
}

/// The values of the first `n` fields of a unit, under their names.
pub open spec fn pairs_upto(u: UnitModel, n: int) -> Seq<Pair>
    decreases n,
{
    if n <= 0 {
        Seq::empty()
    } else {
        pairs_upto(u, n - 1) + field_pairs(u, fields()[n - 1])
    }
}

pub open spec fn unit_pairs(u: UnitModel) -> Seq<Pair> {
    pairs_upto(u, fields().len() as int)
}

pub open spec fn rows_for(id: Seq<char>, pairs: Seq<Pair>) -> Seq<Seq<Seq<char>>> {
    Seq::new(pairs.len(), |i: int| seq![id, pairs[i].0, pairs[i].1])
}

/// The rows of the first `n` units.
pub open spec fn rows_upto(units: Seq<UnitModel>, n: int) -> Seq<Seq<Seq<char>>>
    decreases n,
{
    if n <= 0 {
        Seq::empty()
    } else {
        rows_upto(units, n - 1) + rows_for(units[n - 1].id, unit_pairs(units[n - 1]))
    }
}

pub open spec fn encoded(units: Seq<UnitModel>) -> Seq<Seq<Seq<char>>> {
    rows_upto(units, units.len() as int)
}

pub open spec fn rows_view(s: Seq<Vec<String>>) -> Seq<Seq<Seq<char>>> {
    Seq::new(s.len(), |i: int| texts(s[i]@))
}

fn one_text(s: &str) -> (r: Vec<String>)
    ensures
        texts(r@) == seq![s@],
{
    let mut out: Vec<String> = Vec::new();
    push_text(&mut out, s);
    assert(texts(out@) =~= seq![s@]);
    out
}

fn no_texts() -> (r: Vec<String>)
    ensures
        texts(r@) == Seq::<Seq<char>>::empty(),
{
    let out: Vec<String> = Vec::new();
    assert(texts(out@) =~= Seq::<Seq<char>>::empty());
    out
}

fn opt_texts(o: &Option<String>) -> (r: Vec<String>)
    ensures
        texts(r@) == none_or(opt_text(*o)),
{
    match o {
        Some(t) => one_text(t.as_str()),
        None => no_texts(),
    }
}

fn number_texts(n: u64) -> (r: Vec<String>)
    ensures
        texts(r@) == seq![decimal(n as nat)],
{
    let t = write_u64(n);
    one_text(t.as_str())
}

fn flag_texts(b: bool) -> (r: Vec<String>)
    ensures
        texts(r@) == seq![flag_text(b)],
{
    let t = write_flag(b);
    one_text(t.as_str())
}

fn path_texts(p: &FsPath) -> (r: Vec<String>)
    ensures
        texts(r@) == seq![path_text(p@)],
{
    let t = p.text();
    one_text(t.as_str())
}

fn write_evidence(list: &Vec<ArtifactEvidence>) -> (r: Vec<String>)
    ensures
        texts(r@) == evidence_texts(evidences(list@)),
{
    let ghost all = evidence_texts(evidences(list@));
    let between = text_from_char('\u{1}');
    let mut out: Vec<String> = Vec::new();
    let mut i: usize = 0;
    assert(texts(out@) =~= all.take(0));
    while i < list.len()
        invariant
            i <= list@.len(),
            all == evidence_texts(evidences(list@)),
            between@ == mark_text(),
            texts(out@) == all.take(i as int),
        decreases list@.len() - i,
    {
        let e = &list[i];
        let t = cat5(
            e.source.as_str(),
            between.as_str(),
            e.confidence.label(),
            between.as_str(),
            e.detail.as_str(),
        );
        assert(t@ =~= evidence_text(e@));
        push_text(&mut out, t.as_str());
        i += 1;
        assert(texts(out@) =~= all.take(i as int));
    }
    assert(all.take(i as int) =~= all);
    out
}

fn write_values(u: &NestedArtifact, f: Field) -> (r: Vec<String>)
    ensures
        texts(r@) == values_of(u@, f),
{
    match f {
        Field::Path => path_texts(&u.path),
        Field::RelativePath => one_text(u.relative_path.as_str()),
        Field::ParentId => opt_texts(&u.parent_id),
        Field::ContainerId => opt_texts(&u.container_id),
        Field::Role => one_text(u.role.label()),
        Field::Membership => one_text(u.membership.label()),
        Field::IsDir => flag_texts(u.is_dir),
        Field::Device => number_texts(u.device),
        Field::Inode => number_texts(u.inode),
        Field::LogicalBytes => number_texts(u.logical_bytes),
        Field::Bytes => number_texts(u.bytes),
        Field::PhysicalBytes => number_texts(u.physical_bytes),
        Field::PhysicalTotal => number_texts(u.physical_total),
        Field::MtimeMax => number_texts(u.mtime_max),
        Field::Package => opt_texts(&u.variant.package),
        Field::Version => opt_texts(&u.variant.version),
        Field::Target => opt_texts(&u.variant.target),
        Field::Profile => opt_texts(&u.variant.profile),
        Field::Architecture => opt_texts(&u.variant.architecture),
        Field::Toolchain => opt_texts(&u.variant.toolchain),
        Field::Features => opt_texts(&u.variant.features),
        Field::Configuration => opt_texts(&u.variant.configuration),
        Field::Generation => opt_texts(&u.variant.generation),
        Field::Unknown => copy_all(&u.variant.unknowns),
        Field::Producer => write_evidence(&u.producer_evidence),
        Field::Consumer => write_evidence(&u.consumer_evidence),
        Field::Supported => flag_texts(u.coverage.supported),
        Field::Complete => flag_texts(u.coverage.complete),
        Field::Limit => copy_all(&u.coverage.limits),
        Field::ActionGroup => opt_texts(&u.action_group),
        Field::Present => flag_texts(u.present),
        Field::Adapter => opt_texts(&u.adapter),
        Field::Basis => one_text(u.basis.label()),
        Field::TimeSource => one_text(u.time_source.label()),
        Field::Action => match &u.action {
            NestedActionCapability::TrashPath => one_text("trash-path"),
            NestedActionCapability::InspectionOnly => one_text("inspection-only"),
            NestedActionCapability::Unsupported { .. } => one_text("unsupported"),
        },
        Field::ActionReason => match &u.action {
            NestedActionCapability::Unsupported { reason } => one_text(reason.as_str()),
            _ => no_texts(),
        },
        Field::Consequence => opt_texts(&u.consequence),
        Field::ReportedBy => opt_texts(&u.reported_by),
        Field::WriterLock => match &u.writer_lock {
            Some(p) => path_texts(p),
            None => no_texts(),
        },
    }
}

fn write_field(rows: &mut Vec<Vec<String>>, u: &NestedArtifact, f: Field)
    ensures
        rows_view(final(rows)@) == rows_view(old(rows)@) + rows_for(u@.id, field_pairs(u@, f)),
{
    let values = write_values(u, f);
    let ghost start = rows_view(rows@);
    let ghost all = rows_for(u@.id, field_pairs(u@, f));
    let mut i: usize = 0;
    assert(start + all.take(0) =~= start);
    while i < values.len()
        invariant
            i <= values@.len(),
            texts(values@) == values_of(u@, f),
            all == rows_for(u@.id, field_pairs(u@, f)),
            rows_view(rows@) == start + all.take(i as int),
        decreases values@.len() - i,
    {
        let mut row: Vec<String> = Vec::new();
        push_text(&mut row, u.id.as_str());
        push_text(&mut row, f.label());
        push_text(&mut row, values[i].as_str());
        assert(values@[i as int]@ == texts(values@)[i as int]);
        assert(texts(row@) =~= all[i as int]);
        let ghost prior = rows@;
        let ghost cells = row@;
        rows.push(row);
        assert(rows_view(rows@) =~= rows_view(prior).push(texts(cells)));
        i += 1;
        assert(start + all.take(i as int) =~= (start + all.take(i - 1)).push(all[i - 1]));
    }
    assert(all.take(i as int) =~= all);
}

fn write_unit(rows: &mut Vec<Vec<String>>, u: &NestedArtifact)
    ensures
        rows_view(final(rows)@) == rows_view(old(rows)@) + rows_for(u@.id, unit_pairs(u@)),
{
    let list = Field::all();
    let ghost start = rows_view(rows@);
    let mut i: usize = 0;
    assert(start + rows_for(u@.id, pairs_upto(u@, 0)) =~= start);
    while i < list.len()
        invariant
            i <= list@.len(),
            list@ == fields(),
            rows_view(rows@) == start + rows_for(u@.id, pairs_upto(u@, i as int)),
        decreases list@.len() - i,
    {
        write_field(rows, u, list[i]);
        i += 1;
        assert(rows_view(rows@) =~= start + rows_for(u@.id, pairs_upto(u@, i as int)));
    }
}

/// Units as rows. Only what a replay needs is written.
pub fn encode(units: &Vec<NestedArtifact>) -> (r: Vec<Vec<String>>)
    ensures
        rows_view(r@) == encoded(units_view(units@)),
{
    let ghost all = units_view(units@);
    let mut rows: Vec<Vec<String>> = Vec::new();
    let mut i: usize = 0;
    assert(rows_view(rows@) =~= rows_upto(all, 0));
    while i < units.len()
        invariant
            i <= units@.len(),
            all == units_view(units@),
            rows_view(rows@) == rows_upto(all, i as int),
        decreases units@.len() - i,
    {
        assert(all[i as int] == units@[i as int]@);
        write_unit(&mut rows, &units[i]);
        i += 1;
    }
    rows
}

// ---------------------------------------------------------------------
// Reading
// ---------------------------------------------------------------------

/// The values of the first `n` pairs that stand under a name.
pub open spec fn values_in(pairs: Seq<Pair>, name: Seq<char>, n: int) -> Seq<Seq<char>>
    decreases n,
{
    if n <= 0 {
        Seq::empty()
    } else if pairs[n - 1].0 == name {
        values_in(pairs, name, n - 1).push(pairs[n - 1].1)
    } else {
        values_in(pairs, name, n - 1)
    }
}

pub open spec fn all_in(pairs: Seq<Pair>, f: Field) -> Seq<Seq<char>> {
    values_in(pairs, f.label_spec(), pairs.len() as int)
}

/// The first value of a field, if it has any.
pub open spec fn one_in(pairs: Seq<Pair>, f: Field) -> Option<Seq<char>> {
    if all_in(pairs, f).len() > 0 {
        Some(all_in(pairs, f)[0])
    } else {
        None
    }
}

pub open spec fn number_in(pairs: Seq<Pair>, f: Field) -> Option<u64> {
    match one_in(pairs, f) {
        Some(t) => read_u64(t),
        None => None,
    }
}

pub open spec fn flag_in(pairs: Seq<Pair>, f: Field) -> Option<bool> {
    match one_in(pairs, f) {
        Some(t) => read_flag(t),
        None => None,
    }
}

pub open spec fn role_in(pairs: Seq<Pair>) -> Option<ArtifactRole> {
    match one_in(pairs, Field::Role) {
        Some(t) => ArtifactRole::from_label_spec(t),
        None => None,
    }
}

/// A stored statement, read.
pub open spec fn evidence_in(t: Seq<char>) -> Option<EvidenceModel> {
    match cut_first(t, '\u{1}') {
        Some((source, rest)) => match cut_first(rest, '\u{1}') {
            Some((label, detail)) => match Confidence::from_label_spec(label) {
                Some(confidence) => Some(EvidenceModel { source, detail, confidence }),
                None => None,
            },
            None => None,
        },
        None => None,
    }
}

/// The statements of the first `n` texts; nothing when one of them is none.
pub open spec fn evidence_list(list: Seq<Seq<char>>, n: int) -> Option<Seq<EvidenceModel>>
    decreases n,
{
    if n <= 0 {
        Some(Seq::empty())
    } else {
        match (evidence_list(list, n - 1), evidence_in(list[n - 1])) {
            (Some(before), Some(e)) => Some(before.push(e)),
            _ => None,
        }
    }
}

pub open spec fn all_evidence(pairs: Seq<Pair>, f: Field) -> Option<Seq<EvidenceModel>> {
    evidence_list(all_in(pairs, f), all_in(pairs, f).len() as int)
}

pub open spec fn membership_in(pairs: Seq<Pair>) -> Option<Membership> {
    match one_in(pairs, Field::Membership) {
        Some(t) => Membership::from_label_spec(t),
        None => None,
    }
}

pub open spec fn basis_in(pairs: Seq<Pair>) -> Option<AccountingBasis> {
    match one_in(pairs, Field::Basis) {
        Some(t) => AccountingBasis::from_label_spec(t),
        None => None,
    }
}

pub open spec fn time_source_in(pairs: Seq<Pair>) -> Option<TimeSource> {
    match one_in(pairs, Field::TimeSource) {
        Some(t) => TimeSource::from_label_spec(t),
        None => None,
    }
}

/// The action a unit's rows name; one that is withheld has its reason.
pub open spec fn action_in(pairs: Seq<Pair>) -> Option<ActionModel> {
    match one_in(pairs, Field::Action) {
        Some(name) => if name == "trash-path"@ {
            Some(ActionModel::TrashPath)
        } else if name == "inspection-only"@ {
            Some(ActionModel::InspectionOnly)
        } else if name == "unsupported"@ {
            match one_in(pairs, Field::ActionReason) {
                Some(reason) => Some(ActionModel::Unsupported { reason }),
                None => None,
            }
        } else {
            None
        },
        None => None,
    }
}

/// Whether every field that a unit must have is there and can be read.
pub open spec fn readable(pairs: Seq<Pair>) -> bool {
    &&& role_in(pairs) is Some
    &&& membership_in(pairs) is Some
    &&& basis_in(pairs) is Some
    &&& time_source_in(pairs) is Some
    &&& action_in(pairs) is Some
    &&& all_evidence(pairs, Field::Producer) is Some
    &&& all_evidence(pairs, Field::Consumer) is Some
    &&& one_in(pairs, Field::Path) is Some
    &&& one_in(pairs, Field::RelativePath) is Some
    &&& flag_in(pairs, Field::IsDir) is Some
    &&& number_in(pairs, Field::Device) is Some
    &&& number_in(pairs, Field::Inode) is Some
    &&& number_in(pairs, Field::LogicalBytes) is Some
    &&& number_in(pairs, Field::Bytes) is Some
    &&& number_in(pairs, Field::PhysicalBytes) is Some
    &&& number_in(pairs, Field::PhysicalTotal) is Some
    &&& number_in(pairs, Field::MtimeMax) is Some
    &&& flag_in(pairs, Field::Supported) is Some
    &&& flag_in(pairs, Field::Complete) is Some
    &&& flag_in(pairs, Field::Present) is Some
}

/// The unit a readable set of values describes.
pub open spec fn described(id: Seq<char>, pairs: Seq<Pair>) -> UnitModel {
    UnitModel {
        id,
        path: path_of(one_in(pairs, Field::Path).unwrap()),
        relative_path: one_in(pairs, Field::RelativePath).unwrap(),
        parent_id: one_in(pairs, Field::ParentId),
        container_id: one_in(pairs, Field::ContainerId),
        role: role_in(pairs).unwrap(),
        membership: membership_in(pairs).unwrap(),
        is_dir: flag_in(pairs, Field::IsDir).unwrap(),
        device: number_in(pairs, Field::Device).unwrap(),
        inode: number_in(pairs, Field::Inode).unwrap(),
        logical_bytes: number_in(pairs, Field::LogicalBytes).unwrap(),
        bytes: number_in(pairs, Field::Bytes).unwrap(),
        physical_bytes: number_in(pairs, Field::PhysicalBytes).unwrap(),
        physical_total: number_in(pairs, Field::PhysicalTotal).unwrap(),
        mtime_max: number_in(pairs, Field::MtimeMax).unwrap(),
        variant: VariantModel {
            package: one_in(pairs, Field::Package),
            version: one_in(pairs, Field::Version),
            target: one_in(pairs, Field::Target),
            profile: one_in(pairs, Field::Profile),
            architecture: one_in(pairs, Field::Architecture),
            toolchain: one_in(pairs, Field::Toolchain),
            features: one_in(pairs, Field::Features),
            configuration: one_in(pairs, Field::Configuration),
            generation: one_in(pairs, Field::Generation),
            unknowns: all_in(pairs, Field::Unknown),
        },
        producer_evidence: all_evidence(pairs, Field::Producer).unwrap(),
        consumer_evidence: all_evidence(pairs, Field::Consumer).unwrap(),
        coverage: CoverageModel {
            supported: flag_in(pairs, Field::Supported).unwrap(),
            complete: flag_in(pairs, Field::Complete).unwrap(),
            limits: all_in(pairs, Field::Limit),
        },
        action_group: one_in(pairs, Field::ActionGroup),
        present: flag_in(pairs, Field::Present).unwrap(),
        growth_bytes: None,
        regrowth_count: 0,
        decision_evidence: Seq::empty(),
        adapter: one_in(pairs, Field::Adapter),
        basis: basis_in(pairs).unwrap(),
        time_source: time_source_in(pairs).unwrap(),
        action: action_in(pairs).unwrap(),
        consequence: one_in(pairs, Field::Consequence),
        reported_by: one_in(pairs, Field::ReportedBy),
        writer_lock: match one_in(pairs, Field::WriterLock) {
            Some(t) => Some(path_of(t)),
            None => None,
        },
    }
}

/// The unit with an id and these values; nothing when a field that it must have
/// is missing or cannot be read. No field is guessed.
pub open spec fn read_unit(id: Seq<char>, pairs: Seq<Pair>) -> Option<UnitModel> {
    if readable(pairs) {
        Some(described(id, pairs))
    } else {
        None
    }
}

/// The ids in the first `n` rows, in the order they first stand there. A row
/// that is no triple is passed over.
pub open spec fn ids_in(rows: Seq<Seq<Seq<char>>>, n: int) -> Seq<Seq<char>>
    decreases n,
{
    if n <= 0 {
        Seq::empty()
    } else {
        let before = ids_in(rows, n - 1);
        let row = rows[n - 1];
        if row.len() == 3 && !before.contains(row[0]) {
            before.push(row[0])
        } else {
            before
        }
    }
}

/// The values under an id in the first `n` rows.
pub open spec fn pairs_in(rows: Seq<Seq<Seq<char>>>, id: Seq<char>, n: int) -> Seq<Pair>
    decreases n,
{
    if n <= 0 {
        Seq::empty()
    } else {
        let row = rows[n - 1];
        if row.len() == 3 && row[0] == id {
            pairs_in(rows, id, n - 1).push((row[1], row[2]))
        } else {
            pairs_in(rows, id, n - 1)
        }
    }
}

/// The units with the first `n` of these ids.
pub open spec fn units_in(rows: Seq<Seq<Seq<char>>>, ids: Seq<Seq<char>>, n: int) -> Seq<UnitModel>
    decreases n,
{
    if n <= 0 {
        Seq::empty()
    } else {
        match read_unit(ids[n - 1], pairs_in(rows, ids[n - 1], rows.len() as int)) {
            Some(u) => units_in(rows, ids, n - 1).push(u),
            None => units_in(rows, ids, n - 1),
        }
    }
}

pub open spec fn decoded(rows: Seq<Seq<Seq<char>>>) -> Seq<UnitModel> {
    let ids = ids_in(rows, rows.len() as int);
    units_in(rows, ids, ids.len() as int)
}

spec fn pairs_view(s: Seq<(String, String)>) -> Seq<Pair> {
    Seq::new(s.len(), |i: int| (s[i].0@, s[i].1@))
}

fn find_all(pairs: &Vec<(String, String)>, f: Field) -> (r: Vec<String>)
    ensures
        texts(r@) == all_in(pairs_view(pairs@), f),
{
    let ghost all = pairs_view(pairs@);
    let name = f.label();
    let mut out: Vec<String> = Vec::new();
    let mut i: usize = 0;
    assert(texts(out@) =~= values_in(all, name@, 0));
    while i < pairs.len()
        invariant
            i <= pairs@.len(),
            all == pairs_view(pairs@),
            texts(out@) == values_in(all, name@, i as int),
        decreases pairs@.len() - i,
    {
        assert(all[i as int] == (pairs@[i as int].0@, pairs@[i as int].1@));
        if same(pairs[i].0.as_str(), name) {
            push_text(&mut out, pairs[i].1.as_str());
        }
        i += 1;
    }
    out
}

fn find_one(pairs: &Vec<(String, String)>, f: Field) -> (r: Option<String>)
    ensures
        opt_text(r) == one_in(pairs_view(pairs@), f),
{
    let all = find_all(pairs, f);
    assert(texts(all@).len() == all@.len());
    if all.len() > 0 {
        assert(texts(all@)[0] == all@[0]@);
        Some(all[0].as_str().to_owned())
    } else {
        None
    }
}

fn find_number(pairs: &Vec<(String, String)>, f: Field) -> (r: Option<u64>)
    ensures
        r == number_in(pairs_view(pairs@), f),
{
    match find_one(pairs, f) {
        Some(t) => parse_u64(t.as_str()),
        None => None,
    }
}

fn find_flag(pairs: &Vec<(String, String)>, f: Field) -> (r: Option<bool>)
    ensures
        r == flag_in(pairs_view(pairs@), f),
{
    match find_one(pairs, f) {
        Some(t) => parse_flag(t.as_str()),
        None => None,
    }
}

fn find_role(pairs: &Vec<(String, String)>) -> (r: Option<ArtifactRole>)
    ensures
        r == role_in(pairs_view(pairs@)),
{
    match find_one(pairs, Field::Role) {
        Some(t) => ArtifactRole::from_label(t.as_str()),
        None => None,
    }
}

fn parse_evidence(t: &str) -> (r: Option<ArtifactEvidence>)
    ensures
        match r {
            Some(e) => evidence_in(t@) == Some(e@),
            None => evidence_in(t@) is None,
        },
{
    match split_first(t, '\u{1}') {
        Some((source, rest)) => match split_first(rest.as_str(), '\u{1}') {
            Some((label, detail)) => match Confidence::from_label(label.as_str()) {
                Some(confidence) => Some(ArtifactEvidence { source, detail, confidence }),
                None => None,
            },
            None => None,
        },
        None => None,
    }
}

proof fn lemma_one_is_none(list: Seq<Seq<char>>, k: int, n: int)
    requires
        0 <= k < n <= list.len(),
        evidence_in(list[k]) is None,
    ensures
        evidence_list(list, n) is None,
    decreases n,
{
    if k < n - 1 {
        lemma_one_is_none(list, k, n - 1);
    }
}

fn find_evidence(pairs: &Vec<(String, String)>, f: Field) -> (r: Option<Vec<ArtifactEvidence>>)
    ensures
        match r {
            Some(list) => all_evidence(pairs_view(pairs@), f) == Some(evidences(list@)),
            None => all_evidence(pairs_view(pairs@), f) is None,
        },
{
    let list = find_all(pairs, f);
    let ghost all = texts(list@);
    let mut out: Vec<ArtifactEvidence> = Vec::new();
    let mut i: usize = 0;
    assert(all.len() == list@.len());
    assert(evidences(out@) =~= Seq::<EvidenceModel>::empty());
    while i < list.len()
        invariant
            i <= list@.len(),
            all == texts(list@),
            all.len() == list@.len(),
            all == all_in(pairs_view(pairs@), f),
            evidence_list(all, i as int) == Some(evidences(out@)),
        decreases list@.len() - i,
    {
        assert(all[i as int] == list@[i as int]@);
        match parse_evidence(list[i].as_str()) {
            Some(e) => {
                push_evidence(&mut out, e);
            },
            None => {
                proof {
                    lemma_one_is_none(all, i as int, all.len() as int);
                }
                return None;
            },
        }
        i += 1;
    }
    Some(out)
}

fn find_membership(pairs: &Vec<(String, String)>) -> (r: Option<Membership>)
    ensures
        r == membership_in(pairs_view(pairs@)),
{
    match find_one(pairs, Field::Membership) {
        Some(t) => Membership::from_label(t.as_str()),
        None => None,
    }
}

fn find_basis(pairs: &Vec<(String, String)>) -> (r: Option<AccountingBasis>)
    ensures
        r == basis_in(pairs_view(pairs@)),
{
    match find_one(pairs, Field::Basis) {
        Some(t) => AccountingBasis::from_label(t.as_str()),
        None => None,
    }
}

fn find_time_source(pairs: &Vec<(String, String)>) -> (r: Option<TimeSource>)
    ensures
        r == time_source_in(pairs_view(pairs@)),
{
    match find_one(pairs, Field::TimeSource) {
        Some(t) => TimeSource::from_label(t.as_str()),
        None => None,
    }
}

fn find_action(pairs: &Vec<(String, String)>) -> (r: Option<NestedActionCapability>)
    ensures
        match r {
            Some(a) => action_in(pairs_view(pairs@)) == Some(a@),
            None => action_in(pairs_view(pairs@)) is None,
        },
{
    match find_one(pairs, Field::Action) {
        Some(name) => if same(name.as_str(), "trash-path") {
            Some(NestedActionCapability::TrashPath)
        } else if same(name.as_str(), "inspection-only") {
            Some(NestedActionCapability::InspectionOnly)
        } else if same(name.as_str(), "unsupported") {
            match find_one(pairs, Field::ActionReason) {
                Some(reason) => Some(NestedActionCapability::Unsupported { reason }),
                None => None,
            }
        } else {
            None
        },
        None => None,
    }
}

fn find_path(pairs: &Vec<(String, String)>, f: Field) -> (r: Option<FsPath>)
    ensures
        opt_path(r) == (match one_in(pairs_view(pairs@), f) {
            Some(t) => Some(path_of(t)),
            None => None,
        }),
{
    match find_one(pairs, f) {
        Some(t) => Some(FsPath::parse(t.as_str())),
        None => None,
    }
}

fn decode_one(id: &str, pairs: &Vec<(String, String)>) -> (r: Option<NestedArtifact>)
    ensures
        match r {
            Some(u) => read_unit(id@, pairs_view(pairs@)) == Some(u@),
            None => read_unit(id@, pairs_view(pairs@)) is None,
        },
{
    let role = find_role(pairs)?;
    let membership = find_membership(pairs)?;
    let basis = find_basis(pairs)?;
    let time_source = find_time_source(pairs)?;
    let action = find_action(pairs)?;
    let producer_evidence = find_evidence(pairs, Field::Producer)?;
    let consumer_evidence = find_evidence(pairs, Field::Consumer)?;
    let path = find_path(pairs, Field::Path)?;
    let relative_path = find_one(pairs, Field::RelativePath)?;
    let is_dir = find_flag(pairs, Field::IsDir)?;
    let device = find_number(pairs, Field::Device)?;
    let inode = find_number(pairs, Field::Inode)?;
    let logical_bytes = find_number(pairs, Field::LogicalBytes)?;
    let bytes = find_number(pairs, Field::Bytes)?;
    let physical_bytes = find_number(pairs, Field::PhysicalBytes)?;
    let physical_total = find_number(pairs, Field::PhysicalTotal)?;
    let mtime_max = find_number(pairs, Field::MtimeMax)?;
    let supported = find_flag(pairs, Field::Supported)?;
    let complete = find_flag(pairs, Field::Complete)?;
    let present = find_flag(pairs, Field::Present)?;
    Some(
        NestedArtifact {
            id: id.to_owned(),
            path,
            relative_path,
            parent_id: find_one(pairs, Field::ParentId),
            container_id: find_one(pairs, Field::ContainerId),
            role,
            membership,
            is_dir,
            device,
            inode,
            logical_bytes,
            bytes,
            physical_bytes,
            physical_total,
            mtime_max,
            variant: ArtifactVariant {
                package: find_one(pairs, Field::Package),
                version: find_one(pairs, Field::Version),
                target: find_one(pairs, Field::Target),
                profile: find_one(pairs, Field::Profile),
                architecture: find_one(pairs, Field::Architecture),
                toolchain: find_one(pairs, Field::Toolchain),
                features: find_one(pairs, Field::Features),
                configuration: find_one(pairs, Field::Configuration),
                generation: find_one(pairs, Field::Generation),
                unknowns: find_all(pairs, Field::Unknown),
            },
            producer_evidence,
            consumer_evidence,
            coverage: ArtifactCoverage { supported, complete, limits: find_all(pairs, Field::Limit) },
            action_group: find_one(pairs, Field::ActionGroup),
            present,
            growth_bytes: None,
            regrowth_count: 0,
            decision_evidence: no_facts(),
            adapter: find_one(pairs, Field::Adapter),
            basis,
            time_source,
            action,
            consequence: find_one(pairs, Field::Consequence),
            reported_by: find_one(pairs, Field::ReportedBy),
            writer_lock: find_path(pairs, Field::WriterLock),
        },
    )
}

fn find_ids(rows: &Vec<Vec<String>>) -> (r: Vec<String>)
    ensures
        texts(r@) == ids_in(rows_view(rows@), rows@.len() as int),
{
    let ghost all = rows_view(rows@);
    let mut out: Vec<String> = Vec::new();
    let mut i: usize = 0;
    assert(texts(out@) =~= ids_in(all, 0));
    while i < rows.len()
        invariant
            i <= rows@.len(),
            all == rows_view(rows@),
            texts(out@) == ids_in(all, i as int),
        decreases rows@.len() - i,
    {
        let row = &rows[i];
        assert(all[i as int] == texts(row@));
        if row.len() == 3 && !crate::text::holds_text(&out, row[0].as_str()) {
            push_text(&mut out, row[0].as_str());
        }
        i += 1;
    }
    out
}

fn find_pairs(rows: &Vec<Vec<String>>, id: &str) -> (r: Vec<(String, String)>)
    ensures
        pairs_view(r@) == pairs_in(rows_view(rows@), id@, rows@.len() as int),
{
    let ghost all = rows_view(rows@);
    let mut out: Vec<(String, String)> = Vec::new();
    let mut i: usize = 0;
    assert(pairs_view(out@) =~= pairs_in(all, id@, 0));
    while i < rows.len()
        invariant
            i <= rows@.len(),
            all == rows_view(rows@),
            pairs_view(out@) == pairs_in(all, id@, i as int),
        decreases rows@.len() - i,
    {
        let row = &rows[i];
        assert(all[i as int] == texts(row@));
        if row.len() == 3 && same(row[0].as_str(), id) {
            let ghost prior = out@;
            let p = (row[1].as_str().to_owned(), row[2].as_str().to_owned());
            let ghost pm = (p.0@, p.1@);
            out.push(p);
            assert(pairs_view(out@) =~= pairs_view(prior).push(pm));
        }
        i += 1;
    }
    out
}

/// The units that rows describe. A unit whose rows are incomplete or cannot be
/// read is left out.
pub fn decode(rows: &Vec<Vec<String>>) -> (r: Vec<NestedArtifact>)
    ensures
        units_view(r@) == decoded(rows_view(rows@)),
{
    let ids = find_ids(rows);
    let ghost all = rows_view(rows@);
    let ghost names = texts(ids@);
    assert(all.len() == rows@.len());
    let mut out: Vec<NestedArtifact> = Vec::new();
    let mut i: usize = 0;
    assert(units_view(out@) =~= units_in(all, names, 0));
    while i < ids.len()
        invariant
            i <= ids@.len(),
            all == rows_view(rows@),
            all.len() == rows@.len(),
            names == texts(ids@),
            units_view(out@) == units_in(all, names, i as int),
        decreases ids@.len() - i,
    {
        assert(names[i as int] == ids@[i as int]@);
        let pairs = find_pairs(rows, ids[i].as_str());
        match decode_one(ids[i].as_str(), &pairs) {
            Some(u) => {
                push_unit(&mut out, u);
            },
            None => {},
        }
        i += 1;
    }
    assert(names.len() == ids@.len());
    out
}

/// Whether every unit that rows speak of can be read.
pub open spec fn whole(rows: Seq<Seq<Seq<char>>>) -> bool {
    let ids = ids_in(rows, rows.len() as int);
    forall|i: int| 0 <= i < ids.len() ==> #[trigger] readable(pairs_in(rows, ids[i], rows.len() as int))
}

/// The units that rows describe; nothing when one of them cannot be read.
pub fn decode_whole(rows: &Vec<Vec<String>>) -> (r: Option<Vec<NestedArtifact>>)
    ensures
        match r {
            Some(units) => whole(rows_view(rows@)) && units_view(units@) == decoded(rows_view(rows@)),
            None => !whole(rows_view(rows@)),
        },
{
    let ids = find_ids(rows);
    let ghost all = rows_view(rows@);
    let ghost names = texts(ids@);
    assert(all.len() == rows@.len());
    assert(names.len() == ids@.len());
    let mut out: Vec<NestedArtifact> = Vec::new();
    let mut i: usize = 0;
    assert(units_view(out@) =~= units_in(all, names, 0));
    while i < ids.len()
        invariant
            i <= ids@.len(),
            all == rows_view(rows@),
            all.len() == rows@.len(),
            names == texts(ids@),
            names == ids_in(all, all.len() as int),
            names.len() == ids@.len(),
            units_view(out@) == units_in(all, names, i as int),
            forall|k: int| 0 <= k < i ==> #[trigger] readable(pairs_in(all, names[k], all.len() as int)),
        decreases ids@.len() - i,
    {
        assert(names[i as int] == ids@[i as int]@);
        let pairs = find_pairs(rows, ids[i].as_str());
        match decode_one(ids[i].as_str(), &pairs) {
            Some(u) => {
                push_unit(&mut out, u);
            },
            None => {
                assert(!readable(pairs_in(all, names[i as int], all.len() as int)));
                return None;
            },
        }
        i += 1;
    }
    Some(out)
}

// ---------------------------------------------------------------------
// Laws
// ---------------------------------------------------------------------

proof fn lemma_values_concat(s: Seq<Pair>, t: Seq<Pair>, name: Seq<char>, n: int)
    requires
        0 <= n <= t.len(),
    ensures
        values_in(s + t, name, s.len() + n) == values_in(s, name, s.len() as int) + values_in(t, name, n),
    decreases n,
{
    let both = s + t;
    if n == 0 {
        lemma_values_front(s, t, name, s.len() as int);
        assert(values_in(s, name, s.len() as int) + values_in(t, name, 0) =~= values_in(s, name, s.len() as int));
    } else {
        lemma_values_concat(s, t, name, n - 1);
        assert(both[s.len() + n - 1] == t[n - 1]);
        assert(values_in(both, name, s.len() + n) =~= values_in(s, name, s.len() as int) + values_in(t, name, n));
    }
}

proof fn lemma_values_front(s: Seq<Pair>, t: Seq<Pair>, name: Seq<char>, n: int)
    requires
        0 <= n <= s.len(),
    ensures
        values_in(s + t, name, n) == values_in(s, name, n),
    decreases n,
{
    if n > 0 {
        lemma_values_front(s, t, name, n - 1);
        assert((s + t)[n - 1] == s[n - 1]);
    }
}

proof fn lemma_values_block(u: UnitModel, f: Field, g: Field, n: int)
    requires
        0 <= n <= values_of(u, f).len(),
    ensures
        values_in(field_pairs(u, f), g.label_spec(), n) == (if f == g {
            values_of(u, f).take(n)
        } else {
            Seq::empty()
        }),
    decreases n,
{
    law_field_names_differ(f, g);
    if n > 0 {
        lemma_values_block(u, f, g, n - 1);
        if f == g {
            assert(values_of(u, f).take(n) =~= values_of(u, f).take(n - 1).push(values_of(u, f)[n - 1]));
        }
    } else {
        assert(values_of(u, f).take(0) =~= Seq::<Seq<char>>::empty());
    }
}

proof fn lemma_values_upto(u: UnitModel, g: Field, n: int)
    requires
        0 <= n <= fields().len(),
    ensures
        values_in(pairs_upto(u, n), g.label_spec(), pairs_upto(u, n).len() as int) == (if g.place() < n {
            values_of(u, g)
        } else {
            Seq::empty()
        }),
    decreases n,
{
    if n > 0 {
        let f = fields()[n - 1];
        lemma_values_upto(u, g, n - 1);
        lemma_place_of(n - 1);
        lemma_places(g);
        let s = pairs_upto(u, n - 1);
        let t = field_pairs(u, f);
        lemma_values_concat(s, t, g.label_spec(), t.len() as int);
        lemma_values_block(u, f, g, values_of(u, f).len() as int);
        assert(values_of(u, f).take(values_of(u, f).len() as int) =~= values_of(u, f));
        if f == g {
            assert(values_in(s + t, g.label_spec(), s.len() as int + t.len()) =~= values_of(u, g));
        } else {
            assert(g.place() != n - 1);
            assert(values_in(s + t, g.label_spec(), s.len() as int + t.len()) =~= values_in(
                s,
                g.label_spec(),
                s.len() as int,
            ));
        }
    } else {
        lemma_places(g);
    }
}

/// A unit's stored values are the values its fields have.
pub proof fn law_stored_values(u: UnitModel, f: Field)
    ensures
        all_in(unit_pairs(u), f) == values_of(u, f),
{
    lemma_places(f);
    lemma_values_upto(u, f, fields().len() as int);
}

/// A unit as it is stored: without its history and the facts of a report.
pub open spec fn stored(u: UnitModel) -> UnitModel {
    UnitModel { growth_bytes: None, regrowth_count: 0, decision_evidence: Seq::empty(), ..u }
}

pub open spec fn sources_clean(list: Seq<EvidenceModel>) -> bool {
    forall|i: int| 0 <= i < list.len() ==> free_of(#[trigger] list[i].source, '\u{1}')
}

/// Whether a unit can be told apart in its rows: no statement's source holds
/// the mark between the parts.
pub open spec fn storable(u: UnitModel) -> bool {
    sources_clean(u.producer_evidence) && sources_clean(u.consumer_evidence)
}

proof fn lemma_confidence_is_plain(c: Confidence)
    ensures
        free_of(c.label_spec(), '\u{1}'),
{
    reveal_strlit("high");
    reveal_strlit("medium");
    reveal_strlit("low");
    let s = c.label_spec();
    assert forall|i: int| 0 <= i < s.len() implies #[trigger] s[i] != '\u{1}' by {}
}

proof fn lemma_evidence_reads_back(e: EvidenceModel)
    requires
        free_of(e.source, '\u{1}'),
    ensures
        evidence_in(evidence_text(e)) == Some(e),
{
    let label = e.confidence.label_spec();
    let rest = label + mark_text() + e.detail;
    assert(evidence_text(e) =~= e.source + seq!['\u{1}'] + rest);
    lemma_cut_first(e.source, '\u{1}', rest);
    lemma_confidence_is_plain(e.confidence);
    lemma_cut_first(label, '\u{1}', e.detail);
    lemma_confidence_reads_back(e.confidence);
}

proof fn lemma_evidence_list(list: Seq<EvidenceModel>, n: int)
    requires
        sources_clean(list),
        0 <= n <= list.len(),
    ensures
        evidence_list(evidence_texts(list), n) == Some(list.take(n)),
    decreases n,
{
    if n > 0 {
        lemma_evidence_list(list, n - 1);
        assert(free_of(list[n - 1].source, '\u{1}'));
        lemma_evidence_reads_back(list[n - 1]);
        assert(list.take(n) =~= list.take(n - 1).push(list[n - 1]));
    } else {
        assert(list.take(0) =~= Seq::<EvidenceModel>::empty());
    }
}

proof fn lemma_actions_read_back(u: UnitModel)
    ensures
        action_in(unit_pairs(u)) == Some(u.action),
{
    law_stored_values(u, Field::Action);
    law_stored_values(u, Field::ActionReason);
    reveal_strlit("trash-path");
    reveal_strlit("inspection-only");
    reveal_strlit("unsupported");
    assert("trash-path"@.len() == 10);
    assert("inspection-only"@.len() == 15);
    assert("unsupported"@.len() == 11);
}

proof fn lemma_plain_fields(u: UnitModel)
    ensures
        one_in(unit_pairs(u), Field::RelativePath) == Some(u.relative_path),
        one_in(unit_pairs(u), Field::ParentId) == u.parent_id,
        one_in(unit_pairs(u), Field::ContainerId) == u.container_id,
        one_in(unit_pairs(u), Field::ActionGroup) == u.action_group,
        one_in(unit_pairs(u), Field::Adapter) == u.adapter,
        one_in(unit_pairs(u), Field::Consequence) == u.consequence,
        one_in(unit_pairs(u), Field::ReportedBy) == u.reported_by,
        all_in(unit_pairs(u), Field::Limit) == u.coverage.limits,
{
    law_stored_values(u, Field::RelativePath);
    law_stored_values(u, Field::ParentId);
    law_stored_values(u, Field::ContainerId);
    law_stored_values(u, Field::ActionGroup);
    law_stored_values(u, Field::Adapter);
    law_stored_values(u, Field::Consequence);
    law_stored_values(u, Field::ReportedBy);
    law_stored_values(u, Field::Limit);
}

proof fn lemma_variant_fields(u: UnitModel)
    ensures
        one_in(unit_pairs(u), Field::Package) == u.variant.package,
        one_in(unit_pairs(u), Field::Version) == u.variant.version,
        one_in(unit_pairs(u), Field::Target) == u.variant.target,
        one_in(unit_pairs(u), Field::Profile) == u.variant.profile,
        one_in(unit_pairs(u), Field::Architecture) == u.variant.architecture,
        one_in(unit_pairs(u), Field::Toolchain) == u.variant.toolchain,
        one_in(unit_pairs(u), Field::Features) == u.variant.features,
        one_in(unit_pairs(u), Field::Configuration) == u.variant.configuration,
        one_in(unit_pairs(u), Field::Generation) == u.variant.generation,
        all_in(unit_pairs(u), Field::Unknown) == u.variant.unknowns,
{
    law_stored_values(u, Field::Package);
    law_stored_values(u, Field::Version);
    law_stored_values(u, Field::Target);
    law_stored_values(u, Field::Profile);
    law_stored_values(u, Field::Architecture);
    law_stored_values(u, Field::Toolchain);
    law_stored_values(u, Field::Features);
    law_stored_values(u, Field::Configuration);
    law_stored_values(u, Field::Generation);
    law_stored_values(u, Field::Unknown);
}

proof fn lemma_number_field(u: UnitModel, f: Field, n: u64)
    requires
        values_of(u, f) == seq![decimal(n as nat)],
    ensures
        number_in(unit_pairs(u), f) == Some(n),
{
    law_stored_values(u, f);
    law_numbers_read_back(n);
}

proof fn lemma_flag_field(u: UnitModel, f: Field, b: bool)
    requires
        values_of(u, f) == seq![flag_text(b)],
    ensures
        flag_in(unit_pairs(u), f) == Some(b),
{
    law_stored_values(u, f);
    lemma_flags_read_back(b);
}

proof fn lemma_measured_fields(u: UnitModel)
    ensures
        number_in(unit_pairs(u), Field::Device) == Some(u.device),
        number_in(unit_pairs(u), Field::Inode) == Some(u.inode),
        number_in(unit_pairs(u), Field::LogicalBytes) == Some(u.logical_bytes),
        number_in(unit_pairs(u), Field::Bytes) == Some(u.bytes),
        number_in(unit_pairs(u), Field::PhysicalBytes) == Some(u.physical_bytes),
        number_in(unit_pairs(u), Field::PhysicalTotal) == Some(u.physical_total),
        number_in(unit_pairs(u), Field::MtimeMax) == Some(u.mtime_max),
        flag_in(unit_pairs(u), Field::IsDir) == Some(u.is_dir),
        flag_in(unit_pairs(u), Field::Supported) == Some(u.coverage.supported),
        flag_in(unit_pairs(u), Field::Complete) == Some(u.coverage.complete),
        flag_in(unit_pairs(u), Field::Present) == Some(u.present),
{
    lemma_number_field(u, Field::Device, u.device);
    lemma_number_field(u, Field::Inode, u.inode);
    lemma_number_field(u, Field::LogicalBytes, u.logical_bytes);
    lemma_number_field(u, Field::Bytes, u.bytes);
    lemma_number_field(u, Field::PhysicalBytes, u.physical_bytes);
    lemma_number_field(u, Field::PhysicalTotal, u.physical_total);
    lemma_number_field(u, Field::MtimeMax, u.mtime_max);
    lemma_flag_field(u, Field::IsDir, u.is_dir);
    lemma_flag_field(u, Field::Supported, u.coverage.supported);
    lemma_flag_field(u, Field::Complete, u.coverage.complete);
    lemma_flag_field(u, Field::Present, u.present);
}

/// Reading a unit's rows gives the unit back, all but its history.
pub proof fn law_one_unit_reads_back(u: UnitModel)
    requires
        storable(u),
    ensures
        read_unit(u.id, unit_pairs(u)) == Some(stored(u)),
{
    let pairs = unit_pairs(u);
    lemma_plain_fields(u);
    lemma_variant_fields(u);
    lemma_measured_fields(u);
    law_stored_values(u, Field::Path);
    law_stored_values(u, Field::Role);
    law_stored_values(u, Field::Membership);
    law_stored_values(u, Field::Basis);
    law_stored_values(u, Field::TimeSource);
    law_stored_values(u, Field::Action);
    law_stored_values(u, Field::Producer);
    law_stored_values(u, Field::Consumer);
    law_stored_values(u, Field::WriterLock);
    law_path_texts_read_back(u.path);
    if u.writer_lock is Some {
        law_path_texts_read_back(u.writer_lock.unwrap());
    }
    law_role_labels_read_back(u.role);
    lemma_membership_reads_back(u.membership);
    lemma_accounting_basis_reads_back(u.basis);
    lemma_time_source_reads_back(u.time_source);
    lemma_actions_read_back(u);
    lemma_evidence_list(u.producer_evidence, u.producer_evidence.len() as int);
    lemma_evidence_list(u.consumer_evidence, u.consumer_evidence.len() as int);
    assert(u.producer_evidence.take(u.producer_evidence.len() as int) =~= u.producer_evidence);
    assert(u.consumer_evidence.take(u.consumer_evidence.len() as int) =~= u.consumer_evidence);
    assert(described(u.id, pairs).variant == u.variant);
    assert(described(u.id, pairs).coverage == u.coverage);
    assert(described(u.id, pairs) == stored(u));
}

/// Whether no two units have one id.
pub open spec fn ids_differ(units: Seq<UnitModel>) -> bool {
    forall|i: int, j: int| 0 <= i < j < units.len() ==> #[trigger] units[i].id != #[trigger] units[j].id
}

pub open spec fn unit_ids(units: Seq<UnitModel>, n: int) -> Seq<Seq<char>> {
    Seq::new(n as nat, |i: int| units[i].id)
}

proof fn lemma_unit_has_rows(u: UnitModel)
    ensures
        unit_pairs(u).len() > 0,
{
    law_stored_values(u, Field::Path);
    if unit_pairs(u).len() == 0 {
        assert(values_in(unit_pairs(u), Field::Path.label_spec(), 0) =~= Seq::<Seq<char>>::empty());
        assert(values_of(u, Field::Path).len() == 1);
    }
}

proof fn lemma_ids_front(s: Seq<Seq<Seq<char>>>, t: Seq<Seq<Seq<char>>>, n: int)
    requires
        0 <= n <= s.len(),
    ensures
        ids_in(s + t, n) == ids_in(s, n),
    decreases n,
{
    if n > 0 {
        lemma_ids_front(s, t, n - 1);
        assert((s + t)[n - 1] == s[n - 1]);
    }
}

proof fn lemma_ids_block(s: Seq<Seq<Seq<char>>>, id: Seq<char>, pairs: Seq<Pair>, n: int)
    requires
        0 <= n <= pairs.len(),
        !ids_in(s, s.len() as int).contains(id),
    ensures
        ids_in(s + rows_for(id, pairs), s.len() + n) == (if n > 0 {
            ids_in(s, s.len() as int).push(id)
        } else {
            ids_in(s, s.len() as int)
        }),
    decreases n,
{
    let t = rows_for(id, pairs);
    if n == 0 {
        lemma_ids_front(s, t, s.len() as int);
    } else {
        lemma_ids_block(s, id, pairs, n - 1);
        assert((s + t)[s.len() + n - 1] == t[n - 1]);
        assert(t[n - 1][0] == id);
        assert(t[n - 1].len() == 3);
        if n > 1 {
            let before = ids_in(s, s.len() as int).push(id);
            assert(before[before.len() - 1] == id);
            assert(before.contains(id));
        }
    }
}

proof fn lemma_ids_of_rows(units: Seq<UnitModel>, n: int)
    requires
        ids_differ(units),
        0 <= n <= units.len(),
    ensures
        ids_in(rows_upto(units, n), rows_upto(units, n).len() as int) == unit_ids(units, n),
    decreases n,
{
    if n > 0 {
        lemma_ids_of_rows(units, n - 1);
        let s = rows_upto(units, n - 1);
        let u = units[n - 1];
        assert forall|i: int| 0 <= i < n - 1 implies #[trigger] unit_ids(units, n - 1)[i] != u.id by {
            assert(units[i].id != units[n - 1].id);
        }
        assert(!unit_ids(units, n - 1).contains(u.id));
        lemma_unit_has_rows(u);
        lemma_ids_block(s, u.id, unit_pairs(u), unit_pairs(u).len() as int);
        assert(unit_ids(units, n) =~= unit_ids(units, n - 1).push(u.id));
    } else {
        assert(unit_ids(units, 0) =~= Seq::<Seq<char>>::empty());
    }
}

proof fn lemma_pairs_front(s: Seq<Seq<Seq<char>>>, t: Seq<Seq<Seq<char>>>, id: Seq<char>, n: int)
    requires
        0 <= n <= s.len(),
    ensures
        pairs_in(s + t, id, n) == pairs_in(s, id, n),
    decreases n,
{
    if n > 0 {
        lemma_pairs_front(s, t, id, n - 1);
        assert((s + t)[n - 1] == s[n - 1]);
    }
}

proof fn lemma_pairs_block(s: Seq<Seq<Seq<char>>>, owner: Seq<char>, pairs: Seq<Pair>, id: Seq<char>, n: int)
    requires
        0 <= n <= pairs.len(),
    ensures
        pairs_in(s + rows_for(owner, pairs), id, s.len() + n) == (if owner == id {
            pairs_in(s, id, s.len() as int) + pairs.take(n)
        } else {
            pairs_in(s, id, s.len() as int)
        }),
    decreases n,
{
    let t = rows_for(owner, pairs);
    if n == 0 {
        lemma_pairs_front(s, t, id, s.len() as int);
        assert(pairs_in(s, id, s.len() as int) + pairs.take(0) =~= pairs_in(s, id, s.len() as int));
    } else {
        lemma_pairs_block(s, owner, pairs, id, n - 1);
        assert((s + t)[s.len() + n - 1] == t[n - 1]);
        assert(t[n - 1] == seq![owner, pairs[n - 1].0, pairs[n - 1].1]);
        if owner == id {
            assert(pairs_in(s, id, s.len() as int) + pairs.take(n) =~= (pairs_in(s, id, s.len() as int) + pairs.take(
                n - 1,
            )).push(pairs[n - 1]));
        }
    }
}

proof fn lemma_pairs_of_rows(units: Seq<UnitModel>, n: int, k: int)
    requires
        ids_differ(units),
        0 <= n <= units.len(),
        0 <= k < units.len(),
    ensures
        pairs_in(rows_upto(units, n), units[k].id, rows_upto(units, n).len() as int) == (if k < n {
            unit_pairs(units[k])
        } else {
            Seq::empty()
        }),
    decreases n,
{
    if n > 0 {
        lemma_pairs_of_rows(units, n - 1, k);
        let s = rows_upto(units, n - 1);
        let u = units[n - 1];
        lemma_pairs_block(s, u.id, unit_pairs(u), units[k].id, unit_pairs(u).len() as int);
        assert(unit_pairs(u).take(unit_pairs(u).len() as int) =~= unit_pairs(u));
        assert(Seq::<Pair>::empty() + unit_pairs(u) =~= unit_pairs(u));
        if k < n - 1 {
            assert(units[k].id != units[n - 1].id);
        } else if k > n - 1 {
            assert(units[n - 1].id != units[k].id);
        }
    }
}

proof fn lemma_units_of_rows(units: Seq<UnitModel>, n: int)
    requires
        ids_differ(units),
        forall|i: int| 0 <= i < units.len() ==> storable(#[trigger] units[i]),
        0 <= n <= units.len(),
    ensures
        units_in(encoded(units), unit_ids(units, units.len() as int), n) == units.map_values(
            |u: UnitModel| stored(u),
        ).take(n),
    decreases n,
{
    let all = units.map_values(|u: UnitModel| stored(u));
    if n > 0 {
        lemma_units_of_rows(units, n - 1);
        lemma_pairs_of_rows(units, units.len() as int, n - 1);
        assert(storable(units[n - 1]));
        law_one_unit_reads_back(units[n - 1]);
        assert(all.take(n) =~= all.take(n - 1).push(stored(units[n - 1])));
    } else {
        assert(all.take(0) =~= Seq::<UnitModel>::empty());
    }
}

/// What is read back is what was written: the same units in the same order, all
/// but their history.
pub proof fn law_units_read_back(units: Seq<UnitModel>)
    requires
        ids_differ(units),
        forall|i: int| 0 <= i < units.len() ==> storable(#[trigger] units[i]),
    ensures
        decoded(encoded(units)) == units.map_values(|u: UnitModel| stored(u)),
{
    let n = units.len() as int;
    lemma_ids_of_rows(units, n);
    lemma_units_of_rows(units, n);
    let all = units.map_values(|u: UnitModel| stored(u));
    assert(all.take(n) =~= all);
    assert(unit_ids(units, n).len() == n);
}

proof fn lemma_units_are_described(rows: Seq<Seq<Seq<char>>>, ids: Seq<Seq<char>>, n: int, k: int)
    requires
        0 <= n <= ids.len(),
        0 <= k < units_in(rows, ids, n).len(),
    ensures
        ({
            let u = units_in(rows, ids, n)[k];
            let pairs = pairs_in(rows, u.id, rows.len() as int);
            readable(pairs) && u == described(u.id, pairs)
        }),
    decreases n,
{
    if n > 0 {
        if k < units_in(rows, ids, n - 1).len() {
            lemma_units_are_described(rows, ids, n - 1, k);
        }
    }
}

/// Decoding never guesses a field: every unit that is read has all the fields
/// that it must have in its own rows, each of them readable, and is what they
/// describe.
pub proof fn law_decoding_never_guesses(rows: Seq<Seq<Seq<char>>>, k: int)
    requires
        0 <= k < decoded(rows).len(),
    ensures
        ({
            let u = decoded(rows)[k];
            let pairs = pairs_in(rows, u.id, rows.len() as int);
            &&& readable(pairs)
            &&& u == described(u.id, pairs)
            &&& role_in(pairs) == Some(u.role)
            &&& membership_in(pairs) == Some(u.membership)
            &&& basis_in(pairs) == Some(u.basis)
            &&& time_source_in(pairs) == Some(u.time_source)
            &&& action_in(pairs) == Some(u.action)
            &&& all_evidence(pairs, Field::Producer) == Some(u.producer_evidence)
            &&& all_evidence(pairs, Field::Consumer) == Some(u.consumer_evidence)
        }),
{
    let ids = ids_in(rows, rows.len() as int);
    lemma_units_are_described(rows, ids, ids.len() as int, k);
}

/// What is written can be read to the last unit.
pub proof fn law_written_rows_are_whole(units: Seq<UnitModel>)
    requires
        ids_differ(units),
        forall|i: int| 0 <= i < units.len() ==> storable(#[trigger] units[i]),
    ensures
        whole(encoded(units)),
{
    let n = units.len() as int;
    lemma_ids_of_rows(units, n);
    let rows = encoded(units);
    let ids = ids_in(rows, rows.len() as int);
    assert forall|i: int| 0 <= i < ids.len() implies #[trigger] readable(
        pairs_in(rows, ids[i], rows.len() as int),
    ) by {
        assert(ids[i] == units[i].id);
        lemma_pairs_of_rows(units, n, i);
        assert(storable(units[i]));
        law_one_unit_reads_back(units[i]);
    }
}

} // verus!
