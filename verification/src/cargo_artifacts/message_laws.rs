//! What build messages say, and of which files.

use super::messages::{messages_in, place_of, told, told_all, told_files, MessageModel};
use crate::artifact::{ArtifactRole, UnitModel};
use crate::json::{get2, parsed_json, text_under, JsonKind};
use crate::path::{has_path, same_path, PathModel};
use crate::text::{free_of, joined, law_split_undoes_join, split};
use vstd::prelude::*;

verus! {

/// Whether a unit is the first at its path.
pub open spec fn first_there(units: Seq<UnitModel>, i: int) -> bool {
    &&& 0 <= i < units.len()
    &&& forall|j: int| 0 <= j < i ==> !same_path((#[trigger] units[j]).path, units[i].path)
}

/// Whether a unit is what a message says of it, where it was `before`: a test
/// executable if the message is a test's, an example if it is an example's; with
/// the target and the package the message names, and the message as evidence.
pub open spec fn told_by(u: UnitModel, before: UnitModel, m: MessageModel) -> bool {
    &&& m.profile_test || m.target_kind.contains("test"@) ==> u.role == ArtifactRole::TestExecutable
    &&& !(m.profile_test || m.target_kind.contains("test"@)) && m.target_kind.contains("example"@) ==> u.role
        == ArtifactRole::Example
    &&& !(m.profile_test || m.target_kind.contains("test"@)) && !m.target_kind.contains("example"@) ==> u.role
        == before.role
    &&& u.variant.target == (if m.target_name is Some {
        m.target_name
    } else {
        before.variant.target
    })
    &&& u.variant.package == (if m.package_id is Some {
        m.package_id
    } else {
        before.variant.package
    })
    &&& m.features is Some ==> u.variant.features is Some
    &&& m.features is Some && m.features->0.len() > 0 && (forall|k: int|
        0 <= k < m.features->0.len() ==> free_of(#[trigger] m.features->0[k], ',')) ==> split(
        u.variant.features->0,
        ',',
    ) == m.features->0
    &&& m.features is None ==> u.variant.features == before.variant.features
    &&& u.producer_evidence.len() > before.producer_evidence.len()
    &&& u.producer_evidence.last().source == "cargo-json"@
    &&& u.coverage.limits.len() > before.coverage.limits.len()
}

proof fn lemma_features(list: Seq<Seq<char>>)
    requires
        list.len() > 0,
        forall|k: int| 0 <= k < list.len() ==> free_of(#[trigger] list[k], ','),
    ensures
        split(joined(list, ","@), ',') == list,
{
    reveal_strlit(",");
    assert(","@ =~= seq![',']);
    law_split_undoes_join(list, ',');
}

proof fn lemma_place(units: Seq<UnitModel>, path: PathModel, i: int)
    requires
        0 <= i <= units.len(),
    ensures
        i <= place_of(units, path, i) <= units.len(),
        place_of(units, path, i) < units.len() ==> same_path(units[place_of(units, path, i)].path, path),
        forall|j: int| i <= j < place_of(units, path, i) ==> !same_path((#[trigger] units[j]).path, path),
    decreases units.len() - i,
{
    if i < units.len() && !same_path(units[i].path, path) {
        lemma_place(units, path, i + 1);
    }
}

proof fn lemma_paths_stay(units: Seq<UnitModel>, m: MessageModel, n: int)
    ensures
        told_files(units, m, n).len() == units.len(),
        forall|k: int| 0 <= k < units.len() ==> (#[trigger] told_files(units, m, n)[k]).path == units[k].path,
    decreases n,
{
    if n > 0 {
        lemma_paths_stay(units, m, n - 1);
        lemma_place(told_files(units, m, n - 1), m.filenames[n - 1], 0);
    }
}

/// A message speaks of the units at the files it names, and of no others.
pub proof fn law_a_message_speaks_of_the_files_it_names(units: Seq<UnitModel>, m: MessageModel, n: int, i: int)
    requires
        0 <= i < units.len(),
        0 <= n <= m.filenames.len(),
    ensures
        !has_path(m.filenames.take(n), units[i].path) ==> told_files(units, m, n)[i] == units[i],
        !first_there(units, i) ==> told_files(units, m, n)[i] == units[i],
        first_there(units, i) && has_path(m.filenames.take(n), units[i].path) ==> told_by(
            told_files(units, m, n)[i],
            units[i],
            m,
        ),
    decreases n,
{
    if n > 0 {
        law_a_message_speaks_of_the_files_it_names(units, m, n - 1, i);
        lemma_paths_stay(units, m, n - 1);
        let before = told_files(units, m, n - 1);
        let now = told_files(units, m, n);
        let file = m.filenames[n - 1];
        lemma_place(before, file, 0);
        let at = place_of(before, file, 0);
        let p = units[i].path;
        assert(has_path(m.filenames.take(n), p) <==> has_path(m.filenames.take(n - 1), p) || same_path(file, p)) by {
            let a = m.filenames.take(n);
            let b = m.filenames.take(n - 1);
            if has_path(a, p) {
                let k = choose|k: int| 0 <= k < a.len() && same_path(#[trigger] a[k], p);
                if k < n - 1 {
                    assert(same_path(b[k], p));
                }
            }
            if has_path(b, p) {
                let k = choose|k: int| 0 <= k < b.len() && same_path(#[trigger] b[k], p);
                assert(same_path(a[k], p));
            }
            if same_path(file, p) {
                assert(same_path(a[n - 1], p));
            }
        }
        if at == i {
            assert(same_path(before[i].path, file));
            assert(first_there(units, i)) by {
                assert forall|j: int| 0 <= j < i implies !same_path((#[trigger] units[j]).path, units[i].path) by {
                    assert(before[j].path == units[j].path);
                    assert(!same_path(before[j].path, file));
                }
            }
            assert(now[i] == told(before[i], m));
            if m.features is Some && m.features->0.len() > 0 && (forall|k: int|
                0 <= k < m.features->0.len() ==> free_of(#[trigger] m.features->0[k], ',')) {
                lemma_features(m.features->0);
            }
        } else {
            assert(now[i] == before[i]);
            if first_there(units, i) && same_path(file, p) {
                assert(same_path(before[i].path, file));
                assert(at < i);
                assert(before[at].path == units[at].path);
                assert(same_path(units[at].path, units[i].path));
            }
        }
    } else {
        assert(!has_path(m.filenames.take(0), units[i].path));
    }
}

/// A unit that no message names is left as it was.
pub proof fn law_messages_leave_the_rest(units: Seq<UnitModel>, messages: Seq<MessageModel>, n: int, i: int)
    requires
        0 <= i < units.len(),
        0 <= n <= messages.len(),
        forall|k: int| 0 <= k < n ==> !has_path((#[trigger] messages[k]).filenames, units[i].path),
    ensures
        told_all(units, messages, n).len() == units.len(),
        told_all(units, messages, n)[i] == units[i],
    decreases n,
{
    if n > 0 {
        law_messages_leave_the_rest(units, messages, n - 1, i);
        let m = messages[n - 1];
        let before = told_all(units, messages, n - 1);
        lemma_paths_stay(before, m, m.filenames.len() as int);
        law_a_message_speaks_of_the_files_it_names(before, m, m.filenames.len() as int, i);
        assert(m.filenames.take(m.filenames.len() as int) =~= m.filenames);
    }
}

/// Whether a line is a message of the compiler about what it made: of which
/// package and target, and whether of a test.
pub open spec fn is_message(line: Seq<char>, m: MessageModel) -> bool {
    parsed_json(line) is Some && ({
        let v = parsed_json(line)->0;
        &&& text_under(v.get("reason"@)) == Some("compiler-artifact"@)
        &&& m.package_id == text_under(v.get("package_id"@))
        &&& m.target_name == text_under(get2(v, "target"@, "name"@))
        &&& m.profile_test <==> get2(v, "profile"@, "test"@) is Some && get2(v, "profile"@, "test"@)->0.value
            == JsonKind::Bool(true)
    })
}

pub open spec fn any_message(list: Seq<Seq<char>>, n: int, m: MessageModel) -> bool {
    exists|i: int| 0 <= i < n && is_message(#[trigger] list[i], m)
}

/// Each message of the compiler about what it made is read, and nothing else is:
/// a line that is no such message says nothing.
pub proof fn law_each_message_is_read(list: Seq<Seq<char>>, n: int)
    requires
        0 <= n <= list.len(),
    ensures
        forall|k: int| 0 <= k < messages_in(list, n).len() ==> any_message(list, n, #[trigger] messages_in(list, n)[k]),
        forall|i: int|
            0 <= i < n && parsed_json(#[trigger] list[i]) is Some && text_under(
                parsed_json(list[i])->0.get("reason"@),
            ) == Some("compiler-artifact"@) ==> exists|k: int|
                0 <= k < messages_in(list, n).len() && is_message(list[i], #[trigger] messages_in(list, n)[k]),
    decreases n,
{
    if n > 0 {
        law_each_message_is_read(list, n - 1);
        let before = messages_in(list, n - 1);
        let now = messages_in(list, n);
        assert forall|k: int| 0 <= k < now.len() implies any_message(list, n, #[trigger] now[k]) by {
            if k < before.len() {
                assert(now[k] == before[k]);
                let i = choose|i: int| 0 <= i < n - 1 && is_message(#[trigger] list[i], before[k]);
                assert(is_message(list[i], now[k]));
            } else {
                assert(is_message(list[n - 1], now[k]));
            }
        }
        assert forall|i: int|
            0 <= i < n && parsed_json(#[trigger] list[i]) is Some && text_under(
                parsed_json(list[i])->0.get("reason"@),
            ) == Some("compiler-artifact"@) implies exists|k: int|
            0 <= k < now.len() && is_message(list[i], #[trigger] now[k]) by {
            if i < n - 1 {
                let k = choose|k: int| 0 <= k < before.len() && is_message(list[i], #[trigger] before[k]);
                assert(now[k] == before[k]);
            } else {
                assert(is_message(list[i], now[before.len() as int]));
            }
        }
    }
}

} // verus!
