//! What the names of fingerprints and of dependency files say.

use super::profile::{
    artifact_stem, directory_hash, file_hash, fingerprint_from, fingerprint_prefixes, fingerprint_target, fitting_from,
    fits, group_from, is_group_of, matching, GroupModel, RecordModel,
};
use crate::text::{after_prefix, free_of};
use crate::text_laws::{
    law_a_text_is_cut_at_its_first_mark, law_a_text_is_cut_at_its_last_mark, law_the_rest_follows_its_beginning,
};
use vstd::prelude::*;

verus! {

/// Whether Cargo has such a kind of target, as it names it in fingerprints.
pub open spec fn is_kind(k: Seq<char>) -> bool {
    ||| k == "lib"@
    ||| k == "bin"@
    ||| k == "example"@
    ||| k == "proc-macro"@
    ||| k == "integration-test"@
    ||| k == "test-lib"@
    ||| k == "test-bin"@
    ||| k == "test-example"@
    ||| k == "test-proc-macro"@
    ||| k == "test-integration-test"@
}

proof fn lemma_prefixes()
    ensures
        forall|i: int|
            0 <= i < fingerprint_prefixes().len() ==> is_kind((#[trigger] fingerprint_prefixes()[i]).1)
                && fingerprint_prefixes()[i].0 == fingerprint_prefixes()[i].1 + seq!['-'],
        forall|k: Seq<char>|
            #[trigger] is_kind(k) ==> exists|i: int|
                0 <= i < fingerprint_prefixes().len() && (#[trigger] fingerprint_prefixes()[i]).1 == k,
{
    reveal_strlit("lib");
    reveal_strlit("bin");
    reveal_strlit("example");
    reveal_strlit("proc-macro");
    reveal_strlit("integration-test");
    reveal_strlit("test-lib");
    reveal_strlit("test-bin");
    reveal_strlit("test-example");
    reveal_strlit("test-proc-macro");
    reveal_strlit("test-integration-test");
    reveal_strlit("lib-");
    reveal_strlit("bin-");
    reveal_strlit("example-");
    reveal_strlit("proc-macro-");
    reveal_strlit("integration-test-");
    reveal_strlit("test-lib-");
    reveal_strlit("test-bin-");
    reveal_strlit("test-example-");
    reveal_strlit("test-proc-macro-");
    reveal_strlit("test-integration-test-");
    let all = fingerprint_prefixes();
    assert(all[0].0 =~= all[0].1 + seq!['-']);
    assert(all[1].0 =~= all[1].1 + seq!['-']);
    assert(all[2].0 =~= all[2].1 + seq!['-']);
    assert(all[3].0 =~= all[3].1 + seq!['-']);
    assert(all[4].0 =~= all[4].1 + seq!['-']);
    assert(all[5].0 =~= all[5].1 + seq!['-']);
    assert(all[6].0 =~= all[6].1 + seq!['-']);
    assert(all[7].0 =~= all[7].1 + seq!['-']);
    assert(all[8].0 =~= all[8].1 + seq!['-']);
    assert(all[9].0 =~= all[9].1 + seq!['-']);
}

proof fn lemma_fingerprint(stem: Seq<char>, i: int)
    requires
        0 <= i,
    ensures
        fingerprint_from(stem, i) matches Some(f) ==> is_kind(f.0) && stem == f.0 + seq!['-'] + f.1,
        fingerprint_from(stem, i) is None ==> forall|k: int|
            i <= k < fingerprint_prefixes().len() ==> after_prefix(stem, (#[trigger] fingerprint_prefixes()[k]).0) is None,
    decreases fingerprint_prefixes().len() - i,
{
    if i < fingerprint_prefixes().len() {
        lemma_prefixes();
        let p = fingerprint_prefixes()[i];
        if after_prefix(stem, p.0) is Some {
            law_the_rest_follows_its_beginning(stem, p.0, after_prefix(stem, p.0)->0);
        } else {
            lemma_fingerprint(stem, i + 1);
        }
    }
}

/// A fingerprint's name is a kind of target, a hyphen and the target; a name that
/// does not begin with a kind names no target.
pub proof fn law_a_fingerprint_is_named_by_kind_and_target(stem: Seq<char>, kind: Seq<char>, target: Seq<char>)
    ensures
        fingerprint_target(stem) matches Some(f) ==> is_kind(f.0) && stem == f.0 + seq!['-'] + f.1,
        is_kind(kind) && stem == kind + seq!['-'] + target ==> fingerprint_target(stem) is Some,
{
    lemma_fingerprint(stem, 0);
    lemma_prefixes();
    if is_kind(kind) && stem == kind + seq!['-'] + target {
        let i = choose|i: int| 0 <= i < fingerprint_prefixes().len() && (#[trigger] fingerprint_prefixes()[i]).1 == kind;
        law_the_rest_follows_its_beginning(stem, fingerprint_prefixes()[i].0, target);
    }
}

/// Whether a dependency file is named by a target and a hash: the target, a
/// hyphen, the hash, and an ending that begins with a dot or is not there.
pub open spec fn is_named(filename: Seq<char>, target: Seq<char>, hash: Seq<char>, ending: Seq<char>) -> bool {
    &&& filename == target + seq!['-'] + hash + ending
    &&& free_of(target, '-')
    &&& free_of(hash, '-')
    &&& free_of(hash, '.')
    &&& free_of(ending, '-')
    &&& ending.len() == 0 || ending[0] == '.'
}

proof fn lemma_free(a: Seq<char>, b: Seq<char>, c: char)
    requires
        free_of(a, c),
        free_of(b, c),
    ensures
        free_of(a + b, c),
{
    let s = a + b;
    if s.contains(c) {
        let k = choose|k: int| 0 <= k < s.len() && s[k] == c;
        if k < a.len() {
            assert(a.contains(a[k]));
        } else {
            assert(b.contains(b[k - a.len()]));
        }
    }
}

/// A dependency file's name says its target and its hash; a library's has `lib`
/// before the target.
pub proof fn law_a_file_names_its_target_and_hash(filename: Seq<char>, target: Seq<char>, hash: Seq<char>, ending: Seq<char>)
    requires
        is_named(filename, target, hash, ending),
    ensures
        file_hash(filename) == Some(hash),
        file_hash("lib"@ + filename) == Some(hash),
        artifact_stem("lib"@ + filename) == target,
        after_prefix(filename, "lib"@) is None ==> artifact_stem(filename) == target,
        directory_hash(target + seq!['-'] + hash) == hash,
{
    let rest = hash + ending;
    let lib = "lib"@;
    lemma_free(hash, ending, '-');
    assert(filename =~= target + seq!['-'] + rest);
    assert(lib + filename =~= (lib + target) + seq!['-'] + rest);
    law_a_text_is_cut_at_its_last_mark(filename, '-', target, rest);
    law_a_text_is_cut_at_its_last_mark(lib + filename, '-', lib + target, rest);
    law_a_text_is_cut_at_its_first_mark(filename, '-', target, rest);
    law_the_rest_follows_its_beginning(lib + filename, lib, filename);
    law_a_text_is_cut_at_its_last_mark(target + seq!['-'] + hash, '-', target, hash);
    if ending.len() == 0 {
        assert(rest =~= hash);
        law_a_text_is_cut_at_its_first_mark(rest, '.', Seq::empty(), Seq::empty());
    } else {
        assert(rest =~= hash + seq!['.'] + ending.skip(1));
        law_a_text_is_cut_at_its_first_mark(rest, '.', hash, ending.skip(1));
    }
}

/// Whether a record is of a target with a hash.
pub open spec fn is_of(r: RecordModel, target: Seq<char>, hash: Seq<char>) -> bool {
    r.target == target && r.hash == hash
}

proof fn lemma_fitting(records: Seq<RecordModel>, hash: Seq<char>, stem: Seq<char>, i: int)
    requires
        0 <= i <= records.len(),
    ensures
        i <= fitting_from(records, hash, stem, i) <= records.len(),
        fitting_from(records, hash, stem, i) < records.len() ==> is_of(
            records[fitting_from(records, hash, stem, i)],
            stem,
            hash,
        ),
        forall|k: int| i <= k < fitting_from(records, hash, stem, i) ==> !is_of(#[trigger] records[k], stem, hash),
    decreases records.len() - i,
{
    if i < records.len() && !fits(records[i], hash, stem) {
        lemma_fitting(records, hash, stem, i + 1);
    }
}

/// A dependency file is of the one record with its target and hash, and of none
/// where there is no such record or more than one.
pub proof fn law_a_file_is_of_its_one_record(
    records: Seq<RecordModel>,
    filename: Seq<char>,
    target: Seq<char>,
    hash: Seq<char>,
    ending: Seq<char>,
    k: int,
)
    requires
        is_named(filename, target, hash, ending),
        after_prefix(filename, "lib"@) is None,
        0 <= k <= records.len(),
    ensures
        k < records.len() && is_of(records[k], target, hash) && (forall|j: int|
            0 <= j < records.len() && j != k ==> !is_of(#[trigger] records[j], target, hash)) ==> matching(
            records,
            filename,
        ) == Some(records[k]),
        matching(records, filename) matches Some(r) ==> is_of(r, target, hash) && records.contains(r) && forall|i: int, j: int|
            0 <= i < j < records.len() ==> !(is_of(#[trigger] records[i], target, hash) && is_of(
                #[trigger] records[j],
                target,
                hash,
            )),
        matching(records, "lib"@ + filename) == matching(records, filename),
{
    law_a_file_names_its_target_and_hash(filename, target, hash, ending);
    lemma_fitting(records, hash, target, 0);
    let first = fitting_from(records, hash, target, 0);
    if first < records.len() {
        lemma_fitting(records, hash, target, first + 1);
        assert(records.contains(records[first]));
    }
}

/// Whether a group is told by what a record says.
pub open spec fn told_by(g: GroupModel, r: RecordModel) -> bool {
    &&& g.target == Some(r.target)
    &&& g.target_kind == Some(r.kind)
    &&& g.package_id == r.package_id
    &&& g.variant.features == r.features
    &&& g.variant.toolchain == r.toolchain
}

/// What no record explains goes to the group that is left over, and what one does
/// to the first group of that record: never one to the other.
pub proof fn law_a_record_has_its_own_group(groups: Seq<GroupModel>, m: Option<RecordModel>, i: int)
    requires
        0 <= i <= groups.len(),
    ensures
        i <= group_from(groups, m, i) <= groups.len(),
        group_from(groups, m, i) < groups.len() ==> {
            let g = groups[group_from(groups, m, i)];
            &&& m is None <==> g.residual_reason is Some
            &&& m is Some ==> told_by(g, m->0)
        },
        m is Some ==> forall|k: int|
            i <= k < group_from(groups, m, i) ==> !(told_by(#[trigger] groups[k], m->0) && groups[k].residual_reason is None),
        m is None ==> forall|k: int|
            i <= k < group_from(groups, m, i) ==> (#[trigger] groups[k]).residual_reason is None,
    decreases groups.len() - i,
{
    if i < groups.len() && !is_group_of(groups[i], m) {
        law_a_record_has_its_own_group(groups, m, i + 1);
    }
}

} // verus!
