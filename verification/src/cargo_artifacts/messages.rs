//! Existing `--message-format=json` records. They are read, never made: Cargo is
//! not run.

use super::target::CargoInspection;
use crate::artifact::{
    push_evidence, units_view, ArtifactEvidence, ArtifactRole, Confidence, CoverageModel, EvidenceModel, NestedArtifact,
    UnitModel, VariantModel,
};
use crate::build_adapters::container::lemma_filter_step;
use crate::json::{
    get2, get_nested, opt_node, parse_json, parsed_json, text_items, text_of_node, text_under, texts_in, JsonKind,
    JsonModel, JsonNode, JsonValue,
};
use crate::path::{path_of, paths, push_path, same_path, FsPath, PathModel};
use crate::text::{
    copy_opt, holds_text, join_texts, joined, lines, opt_is, opt_text, push_text, same, split_lines, texts,
};
use vstd::prelude::*;

verus! {

/// What one build message says of the files it names.
#[derive(Debug, Clone, PartialEq, Eq)]
pub struct CargoMessageEvidence {
    pub profile_test: bool,
    pub features: Option<Vec<String>>,
    pub target_name: Option<String>,
    pub target_kind: Vec<String>,
    pub package_id: Option<String>,
    pub filenames: Vec<FsPath>,
}

pub struct MessageModel {
    pub profile_test: bool,
    pub features: Option<Seq<Seq<char>>>,
    pub target_name: Option<Seq<char>>,
    pub target_kind: Seq<Seq<char>>,
    pub package_id: Option<Seq<char>>,
    pub filenames: Seq<PathModel>,
}

impl View for CargoMessageEvidence {
    type V = MessageModel;

    open spec fn view(&self) -> MessageModel {
        MessageModel {
            profile_test: self.profile_test,
            features: match self.features {
                Some(v) => Some(texts(v@)),
                None => None,
            },
            target_name: opt_text(self.target_name),
            target_kind: texts(self.target_kind@),
            package_id: opt_text(self.package_id),
            filenames: paths(self.filenames@),
        }
    }
}

pub open spec fn messages_view(s: Seq<CargoMessageEvidence>) -> Seq<MessageModel> {
    Seq::new(s.len(), |i: int| s[i]@)
}

// ---------------------------------------------------------------------
// Reading
// ---------------------------------------------------------------------

pub open spec fn is_true(n: Option<JsonModel>) -> bool {
    n matches Some(x) && x.value == JsonKind::Bool(true)
}

/// The texts of an array; nothing where there is no array.
pub open spec fn list_under(n: Option<JsonModel>) -> Option<Seq<Seq<char>>> {
    match n {
        Some(x) => match x.as_list() {
            Some(list) => Some(texts_in(list, list.len() as int)),
            None => None,
        },
        None => None,
    }
}

pub open spec fn or_none(o: Option<Seq<Seq<char>>>) -> Seq<Seq<char>> {
    match o {
        Some(s) => s,
        None => Seq::empty(),
    }
}

pub open spec fn paths_of(list: Seq<Seq<char>>) -> Seq<PathModel> {
    Seq::new(list.len(), |i: int| path_of(list[i]))
}

/// What one JSON value says, if it is a `compiler-artifact` message. Other kinds
/// of message are passed over.
pub open spec fn message_in(v: JsonModel) -> Option<MessageModel> {
    if text_under(v.get("reason"@)) == Some("compiler-artifact"@) {
        Some(
            MessageModel {
                profile_test: is_true(get2(v, "profile"@, "test"@)),
                features: list_under(v.get("features"@)),
                target_name: text_under(get2(v, "target"@, "name"@)),
                target_kind: or_none(list_under(get2(v, "target"@, "kind"@))),
                package_id: text_under(v.get("package_id"@)),
                filenames: paths_of(or_none(list_under(v.get("filenames"@)))),
            },
        )
    } else {
        None
    }
}

/// What the first `n` lines say.
pub open spec fn messages_in(list: Seq<Seq<char>>, n: int) -> Seq<MessageModel>
    decreases n,
{
    if n <= 0 {
        Seq::empty()
    } else {
        let before = messages_in(list, n - 1);
        match parsed_json(list[n - 1]) {
            Some(v) => match message_in(v) {
                Some(m) => before.push(m),
                None => before,
            },
            None => before,
        }
    }
}

fn holds_true(n: Option<&JsonNode>) -> (r: bool)
    ensures
        r == is_true(opt_node(n)),
{
    match n {
        Some(x) => match &x.value {
            JsonValue::Bool(b) => *b,
            _ => false,
        },
        None => false,
    }
}

spec fn opt_list(o: Option<Vec<String>>) -> Option<Seq<Seq<char>>> {
    match o {
        Some(v) => Some(texts(v@)),
        None => None,
    }
}

fn list_of(n: Option<&JsonNode>) -> (r: Option<Vec<String>>)
    ensures
        opt_list(r) == list_under(opt_node(n)),
{
    match n {
        Some(x) => match x.as_list() {
            Some(list) => {
                proof {
                    crate::json::lemma_json_models(list@);
                }
                Some(text_items(list))
            },
            None => None,
        },
        None => None,
    }
}

fn list_or_none(n: Option<&JsonNode>) -> (r: Vec<String>)
    ensures
        texts(r@) == or_none(list_under(opt_node(n))),
{
    match list_of(n) {
        Some(v) => v,
        None => {
            let none: Vec<String> = Vec::new();
            assert(texts(none@) =~= Seq::<Seq<char>>::empty());
            none
        },
    }
}

fn parse_paths(list: &Vec<String>) -> (r: Vec<FsPath>)
    ensures
        paths(r@) == paths_of(texts(list@)),
{
    let ghost all = paths_of(texts(list@));
    let mut out: Vec<FsPath> = Vec::new();
    let mut i: usize = 0;
    assert(paths(out@) =~= all.take(0));
    while i < list.len()
        invariant
            i <= list@.len(),
            all == paths_of(texts(list@)),
            paths(out@) == all.take(i as int),
        decreases list@.len() - i,
    {
        push_path(&mut out, FsPath::parse(list[i].as_str()));
        i += 1;
        assert(paths(out@) =~= all.take(i as int));
    }
    assert(all.take(i as int) =~= all);
    out
}

/// What one JSON value says, if it is a `compiler-artifact` message.
pub fn message_of(v: &JsonNode) -> (r: Option<CargoMessageEvidence>)
    ensures
        match r {
            Some(m) => message_in(v@) == Some(m@),
            None => message_in(v@) is None,
        },
{
    let reason = text_of_node(v.get("reason"));
    if !opt_is(&reason, "compiler-artifact") {
        return None;
    }
    let files = list_or_none(v.get("filenames"));
    Some(
        CargoMessageEvidence {
            profile_test: holds_true(get_nested(v, "profile", "test")),
            features: list_of(v.get("features")),
            target_name: text_of_node(get_nested(v, "target", "name")),
            target_kind: list_or_none(get_nested(v, "target", "kind")),
            package_id: text_of_node(v.get("package_id")),
            filenames: parse_paths(&files),
        },
    )
}

/// Reads existing JSON lines. A line that is no JSON and a message of another
/// kind are passed over.
pub fn parse_json_messages(text: &str) -> (r: Vec<CargoMessageEvidence>)
    ensures
        messages_view(r@) == messages_in(lines(text@), lines(text@).len() as int),
{
    let list = split_lines(text);
    let ghost all = lines(text@);
    assert(texts(list@) == all);
    let mut out: Vec<CargoMessageEvidence> = Vec::new();
    let mut i: usize = 0;
    assert(messages_view(out@) =~= messages_in(all, 0));
    while i < list.len()
        invariant
            i <= list@.len(),
            all == texts(list@),
            messages_view(out@) == messages_in(all, i as int),
        decreases list@.len() - i,
    {
        assert(all[i as int] == list@[i as int]@);
        match parse_json(list[i].as_str()) {
            Some(v) => match message_of(&v) {
                Some(m) => {
                    let ghost prior = out@;
                    out.push(m);
                    assert(messages_view(out@) =~= messages_view(prior).push(m@));
                },
                None => {},
            },
            None => {},
        }
        i += 1;
    }
    out
}

// ---------------------------------------------------------------------
// Applying
// ---------------------------------------------------------------------

/// The role a message gives a file.
pub open spec fn told_role(role: ArtifactRole, m: MessageModel) -> ArtifactRole {
    if m.profile_test || m.target_kind.contains("test"@) {
        ArtifactRole::TestExecutable
    } else if m.target_kind.contains("example"@) {
        ArtifactRole::Example
    } else {
        role
    }
}

pub open spec fn if_said(said: Option<Seq<char>>, before: Option<Seq<char>>) -> Option<Seq<char>> {
    match said {
        Some(t) => Some(t),
        None => before,
    }
}

/// A unit with what a message says of it: build history, not a verdict on what
/// the file is now.
pub open spec fn told(u: UnitModel, m: MessageModel) -> UnitModel {
    UnitModel {
        role: told_role(u.role, m),
        variant: VariantModel {
            target: if_said(m.target_name, u.variant.target),
            package: if_said(m.package_id, u.variant.package),
            features: match m.features {
                Some(list) => Some(joined(list, ","@)),
                None => u.variant.features,
            },
            unknowns: u.variant.unknowns.filter(
                |t: Seq<char>| t != "package (unless JSON build evidence is supplied)"@,
            ),
            ..u.variant
        },
        producer_evidence: u.producer_evidence.push(
            EvidenceModel {
                source: "cargo-json"@,
                detail:
                    "caller-supplied historical compiler-artifact message; path match does not prove freshness or execution"@,
                confidence: Confidence::Low,
            },
        ),
        coverage: CoverageModel {
            limits: u.coverage.limits.push(
                "JSON build record is not bound to current file content; cleanup requires fresh native evidence"@,
            ),
            ..u.coverage
        },
        ..u
    }
}

/// The place of the first unit with a path, from place `i` on.
pub open spec fn place_of(units: Seq<UnitModel>, path: PathModel, i: int) -> int
    decreases units.len() - i,
{
    if i < 0 || i >= units.len() {
        units.len() as int
    } else if same_path(units[i].path, path) {
        i
    } else {
        place_of(units, path, i + 1)
    }
}

/// Units after the first `n` files of a message.
pub open spec fn told_files(units: Seq<UnitModel>, m: MessageModel, n: int) -> Seq<UnitModel>
    decreases n,
{
    if n <= 0 {
        units
    } else {
        let before = told_files(units, m, n - 1);
        let at = place_of(before, m.filenames[n - 1], 0);
        if at < before.len() {
            before.update(at, told(before[at], m))
        } else {
            before
        }
    }
}

/// Units after the first `n` messages.
pub open spec fn told_all(units: Seq<UnitModel>, messages: Seq<MessageModel>, n: int) -> Seq<UnitModel>
    decreases n,
{
    if n <= 0 {
        units
    } else {
        let m = messages[n - 1];
        told_files(told_all(units, messages, n - 1), m, m.filenames.len() as int)
    }
}

fn keep_unknowns(list: &Vec<String>) -> (r: Vec<String>)
    ensures
        texts(r@) == texts(list@).filter(
            |t: Seq<char>| t != "package (unless JSON build evidence is supplied)"@,
        ),
{
    let ghost all = texts(list@);
    let ghost keep = |t: Seq<char>| t != "package (unless JSON build evidence is supplied)"@;
    let mut out: Vec<String> = Vec::new();
    let mut i: usize = 0;
    assert(texts(out@) =~= all.take(0).filter(keep)) by {
        reveal(Seq::filter);
    }
    while i < list.len()
        invariant
            i <= list@.len(),
            all == texts(list@),
            keep == (|t: Seq<char>| t != "package (unless JSON build evidence is supplied)"@),
            texts(out@) == all.take(i as int).filter(keep),
        decreases list@.len() - i,
    {
        assert(all[i as int] == list@[i as int]@);
        if !same(list[i].as_str(), "package (unless JSON build evidence is supplied)") {
            push_text(&mut out, list[i].as_str());
        }
        proof {
            lemma_filter_step(all, keep, i as int);
        }
        i += 1;
    }
    assert(all.take(i as int) =~= all);
    out
}

fn tell(u: &NestedArtifact, m: &CargoMessageEvidence) -> (r: NestedArtifact)
    ensures
        r@ == told(u@, m@),
{
    let mut out = u.copy();
    if m.target_name.is_some() {
        out.variant.target = copy_opt(&m.target_name);
    }
    if m.package_id.is_some() {
        out.variant.package = copy_opt(&m.package_id);
    }
    if m.profile_test || holds_text(&m.target_kind, "test") {
        out.role = ArtifactRole::TestExecutable;
    } else if holds_text(&m.target_kind, "example") {
        out.role = ArtifactRole::Example;
    }
    push_evidence(
        &mut out.producer_evidence,
        ArtifactEvidence::of(
            "cargo-json",
            "caller-supplied historical compiler-artifact message; path match does not prove freshness or execution",
            Confidence::Low,
        ),
    );
    match &m.features {
        Some(list) => {
            out.variant.features = Some(join_texts(list, ","));
        },
        None => {},
    }
    push_text(
        &mut out.coverage.limits,
        "JSON build record is not bound to current file content; cleanup requires fresh native evidence",
    );
    out.variant.unknowns = keep_unknowns(&u.variant.unknowns);
    out
}

fn find_place(units: &Vec<NestedArtifact>, path: &FsPath) -> (r: usize)
    ensures
        r == place_of(units_view(units@), path@, 0),
        r <= units@.len(),
{
    let ghost all = units_view(units@);
    let mut i: usize = 0;
    while i < units.len()
        invariant
            i <= units@.len(),
            all == units_view(units@),
            place_of(all, path@, 0) == place_of(all, path@, i as int),
        decreases units@.len() - i,
    {
        assert(all[i as int] == units@[i as int]@);
        if units[i].path.same(path) {
            return i;
        }
        i += 1;
    }
    i
}

fn apply_message(units: &mut Vec<NestedArtifact>, m: &CargoMessageEvidence)
    ensures
        units_view(final(units)@) == told_files(units_view(old(units)@), m@, m@.filenames.len() as int),
{
    let ghost start = units_view(units@);
    let mut i: usize = 0;
    while i < m.filenames.len()
        invariant
            i <= m.filenames@.len(),
            units_view(units@) == told_files(start, m@, i as int),
        decreases m.filenames@.len() - i,
    {
        let ghost before = units_view(units@);
        assert(m@.filenames[i as int] == m.filenames@[i as int]@);
        assert(before.len() == units@.len());
        let at = find_place(units, &m.filenames[i]);
        if at < units.len() {
            assert(before[at as int] == units@[at as int]@);
            let next = tell(&units[at], m);
            units.set(at, next);
            assert(units_view(units@) =~= before.update(at as int, next@));
        }
        i += 1;
    }
}

/// Applies existing build messages to an inspection. The first unit at a path a
/// message names takes what it says; everything else stays as it is.
pub fn apply_message_evidence(inspection: &mut CargoInspection, messages: &Vec<CargoMessageEvidence>)
    ensures
        units_view(final(inspection).units@) == told_all(
            units_view(old(inspection).units@),
            messages_view(messages@),
            messages@.len() as int,
        ),
        final(inspection).target_dir == old(inspection).target_dir,
        final(inspection).build_dir == old(inspection).build_dir,
        final(inspection).total_bytes == old(inspection).total_bytes,
        final(inspection).physical_bytes == old(inspection).physical_bytes,
        final(inspection).coverage == old(inspection).coverage,
{
    let ghost start = units_view(inspection.units@);
    let ghost all = messages_view(messages@);
    let ghost prior = *inspection;
    let mut i: usize = 0;
    while i < messages.len()
        invariant
            i <= messages@.len(),
            all == messages_view(messages@),
            units_view(inspection.units@) == told_all(start, all, i as int),
            inspection.target_dir == prior.target_dir,
            inspection.build_dir == prior.build_dir,
            inspection.total_bytes == prior.total_bytes,
            inspection.physical_bytes == prior.physical_bytes,
            inspection.coverage == prior.coverage,
        decreases messages@.len() - i,
    {
        assert(all[i as int] == messages@[i as int]@);
        apply_message(&mut inspection.units, &messages[i]);
        i += 1;
    }
}

// ---------------------------------------------------------------------
// Laws
// ---------------------------------------------------------------------

proof fn lemma_place_of(units: Seq<UnitModel>, path: PathModel, i: int)
    requires
        0 <= i,
    ensures
        0 <= place_of(units, path, i) <= units.len(),
    decreases units.len() - i,
{
    if i < units.len() && !same_path(units[i].path, path) {
        lemma_place_of(units, path, i + 1);
    }
}

proof fn lemma_told_files_keep(units: Seq<UnitModel>, m: MessageModel, n: int, i: int)
    requires
        0 <= i < units.len(),
    ensures
        told_files(units, m, n).len() == units.len(),
        told_files(units, m, n)[i].same_identity(units[i]),
        told_files(units, m, n)[i].bytes == units[i].bytes,
        told_files(units, m, n)[i].action == units[i].action,
    decreases n,
{
    if n > 0 {
        lemma_told_files_keep(units, m, n - 1, i);
        lemma_place_of(told_files(units, m, n - 1), m.filenames[n - 1], 0);
    }
}

/// A message changes nothing that is offered: which units there are, what they
/// hold and what may be done with them stays as it is.
pub proof fn law_messages_keep_units(units: Seq<UnitModel>, messages: Seq<MessageModel>, n: int, i: int)
    requires
        0 <= i < units.len(),
    ensures
        told_all(units, messages, n).len() == units.len(),
        told_all(units, messages, n)[i].same_identity(units[i]),
        told_all(units, messages, n)[i].bytes == units[i].bytes,
        told_all(units, messages, n)[i].action == units[i].action,
    decreases n,
{
    if n > 0 {
        law_messages_keep_units(units, messages, n - 1, i);
        let m = messages[n - 1];
        lemma_told_files_keep(told_all(units, messages, n - 1), m, m.filenames.len() as int, i);
    }
}

} // verus!
