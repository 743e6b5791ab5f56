//! Decision evidence: facts about a unit, each with where it comes from, and
//! what could not be established said as such.

use crate::text::{copy_all, copy_opt, opt_text, texts};
use vstd::prelude::*;

verus! {

/// What a fact is about.
#[derive(Debug, Clone, Copy, PartialEq, Eq, Structural)]
pub enum FactKind {
    Activity,
    Consumer,
    CurrentUse,
}

#[derive(Debug, Clone, Copy, PartialEq, Eq, Structural)]
pub enum FactSubtype {
    Modification,
    DeclaredConsumer,
    Other,
}

#[derive(Debug, Clone, PartialEq, Eq)]
pub enum FactValue {
    Text(String),
    List(Vec<String>),
    Time(u64),
}

pub enum ValueModel {
    Text(Seq<char>),
    List(Seq<Seq<char>>),
    Time(u64),
}

impl View for FactValue {
    type V = ValueModel;

    open spec fn view(&self) -> ValueModel {
        match self {
            FactValue::Text(t) => ValueModel::Text(t@),
            FactValue::List(v) => ValueModel::List(texts(v@)),
            FactValue::Time(t) => ValueModel::Time(*t),
        }
    }
}

impl FactValue {
    pub fn copy(&self) -> (r: Self)
        ensures
            r@ == self@,
    {
        match self {
            FactValue::Text(t) => FactValue::Text(t.as_str().to_owned()),
            FactValue::List(v) => FactValue::List(copy_all(v)),
            FactValue::Time(t) => FactValue::Time(*t),
        }
    }
}

/// Whether a fact is established, and if not, why.
#[derive(Debug, Clone, PartialEq, Eq)]
pub enum FactStatus {
    Known(FactValue),
    Unknown { reason: String },
    Unavailable { reason: String },
}

pub enum StatusModel {
    Known(ValueModel),
    Unknown { reason: Seq<char> },
    Unavailable { reason: Seq<char> },
}

impl View for FactStatus {
    type V = StatusModel;

    open spec fn view(&self) -> StatusModel {
        match self {
            FactStatus::Known(v) => StatusModel::Known(v@),
            FactStatus::Unknown { reason } => StatusModel::Unknown { reason: reason@ },
            FactStatus::Unavailable { reason } => StatusModel::Unavailable { reason: reason@ },
        }
    }
}

impl FactStatus {
    pub fn copy(&self) -> (r: Self)
        ensures
            r@ == self@,
    {
        match self {
            FactStatus::Known(v) => FactStatus::Known(v.copy()),
            FactStatus::Unknown { reason } => FactStatus::Unknown { reason: reason.as_str().to_owned() },
            FactStatus::Unavailable { reason } => FactStatus::Unavailable { reason: reason.as_str().to_owned() },
        }
    }
}

/// Where a fact comes from.
#[derive(Debug, Clone, PartialEq, Eq)]
pub enum EvidenceSource {
    Inferred { basis: String },
    ConfigDeclaration { path: String },
    BuildMetadata { path: String },
    FileSystem,
}

pub enum SourceModel {
    Inferred { basis: Seq<char> },
    ConfigDeclaration { path: Seq<char> },
    BuildMetadata { path: Seq<char> },
    FileSystem,
}

impl View for EvidenceSource {
    type V = SourceModel;

    open spec fn view(&self) -> SourceModel {
        match self {
            EvidenceSource::Inferred { basis } => SourceModel::Inferred { basis: basis@ },
            EvidenceSource::ConfigDeclaration { path } => SourceModel::ConfigDeclaration { path: path@ },
            EvidenceSource::BuildMetadata { path } => SourceModel::BuildMetadata { path: path@ },
            EvidenceSource::FileSystem => SourceModel::FileSystem,
        }
    }
}

impl EvidenceSource {
    pub fn copy(&self) -> (r: Self)
        ensures
            r@ == self@,
    {
        match self {
            EvidenceSource::Inferred { basis } => EvidenceSource::Inferred { basis: basis.as_str().to_owned() },
            EvidenceSource::ConfigDeclaration { path } => EvidenceSource::ConfigDeclaration {
                path: path.as_str().to_owned(),
            },
            EvidenceSource::BuildMetadata { path } => EvidenceSource::BuildMetadata {
                path: path.as_str().to_owned(),
            },
            EvidenceSource::FileSystem => EvidenceSource::FileSystem,
        }
    }
}

/// One fact about a unit.
#[derive(Debug, Clone, PartialEq, Eq)]
pub struct Evidence {
    pub kind: FactKind,
    pub subtype: FactSubtype,
    pub status: FactStatus,
    pub source: EvidenceSource,
    pub observed_at: u64,
    pub note: Option<String>,
}

pub struct FactModelled {
    pub kind: FactKind,
    pub subtype: FactSubtype,
    pub status: StatusModel,
    pub source: SourceModel,
    pub observed_at: u64,
    pub note: Option<Seq<char>>,
}

impl View for Evidence {
    type V = FactModelled;

    open spec fn view(&self) -> FactModelled {
        FactModelled {
            kind: self.kind,
            subtype: self.subtype,
            status: self.status@,
            source: self.source@,
            observed_at: self.observed_at,
            note: opt_text(self.note),
        }
    }
}

pub open spec fn evidence_view(s: Seq<Evidence>) -> Seq<FactModelled> {
    Seq::new(s.len(), |i: int| s[i]@)
}

/// A consumer fact without a note.
pub open spec fn consumer_fact(status: StatusModel, source: SourceModel, at: u64) -> FactModelled {
    FactModelled {
        kind: FactKind::Consumer,
        subtype: FactSubtype::DeclaredConsumer,
        status,
        source,
        observed_at: at,
        note: None,
    }
}

impl FactModelled {
    pub open spec fn noted(self, note: Seq<char>) -> FactModelled {
        FactModelled { note: Some(note), ..self }
    }

    pub open spec fn known(self) -> bool {
        self.status is Known
    }
}

impl Evidence {
    pub fn known(kind: FactKind, subtype: FactSubtype, value: FactValue, source: EvidenceSource, at: u64) -> (r: Self)
        ensures
            r@ == (FactModelled {
                kind,
                subtype,
                status: StatusModel::Known(value@),
                source: source@,
                observed_at: at,
                note: None,
            }),
    {
        Evidence { kind, subtype, status: FactStatus::Known(value), source, observed_at: at, note: None }
    }

    pub fn unknown(kind: FactKind, subtype: FactSubtype, source: EvidenceSource, at: u64, reason: &str) -> (r: Self)
        ensures
            r@ == (FactModelled {
                kind,
                subtype,
                status: StatusModel::Unknown { reason: reason@ },
                source: source@,
                observed_at: at,
                note: None,
            }),
    {
        Evidence {
            kind,
            subtype,
            status: FactStatus::Unknown { reason: reason.to_owned() },
            source,
            observed_at: at,
            note: None,
        }
    }

    pub fn unavailable(kind: FactKind, subtype: FactSubtype, source: EvidenceSource, at: u64, reason: &str) -> (r: Self)
        ensures
            r@ == (FactModelled {
                kind,
                subtype,
                status: StatusModel::Unavailable { reason: reason@ },
                source: source@,
                observed_at: at,
                note: None,
            }),
    {
        Evidence {
            kind,
            subtype,
            status: FactStatus::Unavailable { reason: reason.to_owned() },
            source,
            observed_at: at,
            note: None,
        }
    }

    pub fn with_note(self, note: &str) -> (r: Self)
        ensures
            r@ == self@.noted(note@),
    {
        Evidence {
            kind: self.kind,
            subtype: self.subtype,
            status: self.status,
            source: self.source,
            observed_at: self.observed_at,
            note: Some(note.to_owned()),
        }
    }

    pub fn is_known(&self) -> (r: bool)
        ensures
            r == self@.known(),
    {
        matches!(self.status, FactStatus::Known(_))
    }

    pub fn copy(&self) -> (r: Self)
        ensures
            r@ == self@,
    {
        Evidence {
            kind: self.kind,
            subtype: self.subtype,
            status: self.status.copy(),
            source: self.source.copy(),
            observed_at: self.observed_at,
            note: copy_opt(&self.note),
        }
    }
}

pub fn push_fact(v: &mut Vec<Evidence>, e: Evidence)
    ensures
        evidence_view(final(v)@) == evidence_view(old(v)@).push(e@),
{
    let ghost m = e@;
    v.push(e);
    assert(evidence_view(v@) =~= evidence_view(old(v)@).push(m));
}

pub fn no_facts() -> (r: Vec<Evidence>)
    ensures
        evidence_view(r@) == Seq::<FactModelled>::empty(),
{
    let none: Vec<Evidence> = Vec::new();
    assert(evidence_view(none@) =~= Seq::<FactModelled>::empty());
    none
}

/// Appends copies of facts.
pub fn extend_facts(v: &mut Vec<Evidence>, more: &Vec<Evidence>)
    ensures
        evidence_view(final(v)@) == evidence_view(old(v)@) + evidence_view(more@),
{
    let ghost start = evidence_view(v@);
    let ghost all = evidence_view(more@);
    let mut i: usize = 0;
    assert(start + all.take(0) =~= start);
    while i < more.len()
        invariant
            i <= more@.len(),
            all == evidence_view(more@),
            evidence_view(v@) == start + all.take(i as int),
        decreases more@.len() - i,
    {
        push_fact(v, more[i].copy());
        i += 1;
        assert(start + all.take(i as int) =~= (start + all.take(i - 1)).push(all[i - 1]));
    }
    assert(all.take(i as int) =~= all);
}

pub fn copy_facts(v: &Vec<Evidence>) -> (r: Vec<Evidence>)
    ensures
        evidence_view(r@) == evidence_view(v@),
{
    let mut out: Vec<Evidence> = Vec::new();
    assert(evidence_view(out@) =~= Seq::<FactModelled>::empty());
    extend_facts(&mut out, v);
    assert(Seq::<FactModelled>::empty() + evidence_view(v@) =~= evidence_view(v@));
    out
}

} // verus!
