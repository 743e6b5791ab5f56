//! What the fingerprints of a target directory say, and of what.

use super::target::{enriched, executable_of, fact_of_unit, is_record, node_text, said_of, test_target};
use crate::artifact::{ArtifactRole, UnitModel};
use crate::facts::{whole_manifest_of, FactModel};
use crate::json::parsed_json;
use crate::path::{
    components, extension, file_name, followed_by, joined_path, law_joining_appends, law_spelled_components_read_back,
    lemma_components_are_legal, lemma_parent_parts, parent, part_legal, path_text, rooted, same_path, spelled, Parts,
    PathModel,
};
use crate::text::{begins, cut_last, finishes, first_match, last_at, lemma_last_at, stands_at, without_suffixes};
use vstd::prelude::*;

verus! {

/// Where a test's record lies in a profile's directory, and which executable it
/// speaks of by its place: `<profile>/<dir>/<krate>-<hash>/<name>`, where the
/// name is the kind, the target and `.json`.
pub struct RecordPlace {
    pub profile: Parts,
    pub dir: Seq<char>,
    pub krate: Seq<char>,
    pub hash: Seq<char>,
    pub name: Seq<char>,
    pub kind: Seq<char>,
    pub target: Seq<char>,
}

/// The kinds of test that Cargo keeps records of.
pub open spec fn is_test_kind(kind: Seq<char>) -> bool {
    kind == "test-lib-"@ || kind == "test-bin-"@ || kind == "test-integration-test-"@
}

impl RecordPlace {
    pub open spec fn proper(self) -> bool {
        &&& is_test_kind(self.kind)
        &&& finishes(self.name, ".json"@)
        &&& without_suffixes(self.name, ".json"@) == self.kind + self.target
        &&& !self.hash.contains('-')
        &&& self.dir != "/"@
    }

    /// The components of the record's path.
    pub open spec fn record(self) -> Parts {
        self.profile + seq![self.dir, self.krate + "-"@ + self.hash, self.name]
    }

    /// The components of the executable's path: `<profile>/deps/<target>-<hash>`.
    pub open spec fn executable(self) -> Parts {
        self.profile + seq!["deps"@, self.target + "-"@ + self.hash]
    }
}

/// Whether a unit is a test's record that can be read.
pub open spec fn is_readable_record(u: UnitModel, facts: Seq<FactModel>) -> bool {
    &&& !u.is_dir
    &&& u.role == ArtifactRole::CompanionMetadata
    &&& exists|at: int| #[trigger] stands_at(u.relative_path, "/.fingerprint/"@, at)
    &&& whole_manifest_of(facts, u.path) matches Some(m) && parsed_json(m.text) is Some
}

// ---------------------------------------------------------------------
// Texts
// ---------------------------------------------------------------------

proof fn lemma_first_match(s: Seq<char>, p: Seq<char>, i: int, at: int)
    requires
        0 <= i <= at,
        p.len() > 0,
        stands_at(s, p, at),
    ensures
        stands_at(s, p, first_match(s, p, i)),
    decreases at - i,
{
    if i < at && !stands_at(s, p, i) {
        lemma_first_match(s, p, i + 1, at);
    }
}

proof fn lemma_cut_at_last_dash(krate: Seq<char>, hash: Seq<char>)
    requires
        !hash.contains('-'),
    ensures
        cut_last(krate + "-"@ + hash, '-') == Some((krate, hash)),
{
    reveal_strlit("-");
    let s = krate + "-"@ + hash;
    lemma_last_at(s, '-', s.len() as int);
    let i = last_at(s, '-', s.len() as int);
    let n = krate.len() as int;
    assert(s[n] == '-');
    if i > n {
        assert(s[i] == hash[i - n - 1]);
        assert(hash.contains(hash[i - n - 1]));
    }
    assert(i == n);
    assert(s.take(i) =~= krate);
    assert(s.skip(i + 1) =~= hash);
}

proof fn lemma_cut_last_parts(s: Seq<char>, krate: Seq<char>, hash: Seq<char>)
    requires
        cut_last(s, '-') == Some((krate, hash)),
    ensures
        s == krate + "-"@ + hash,
        !hash.contains('-'),
{
    reveal_strlit("-");
    lemma_last_at(s, '-', s.len() as int);
    let i = last_at(s, '-', s.len() as int);
    assert(s =~= krate + "-"@ + hash);
    if hash.contains('-') {
        let k = choose|k: int| 0 <= k < hash.len() && hash[k] == '-';
        assert(s[i + 1 + k] == '-');
    }
}

proof fn lemma_suffixes_leave_the_front(s: Seq<char>, p: Seq<char>)
    ensures
        without_suffixes(s, p).len() <= s.len(),
        without_suffixes(s, p) == s.take(without_suffixes(s, p).len() as int),
    decreases s.len(),
{
    if p.len() > 0 && finishes(s, p) {
        let t = s.take(s.len() - p.len());
        lemma_suffixes_leave_the_front(t, p);
        let n = without_suffixes(s, p).len() as int;
        assert(t.take(n) =~= s.take(n));
    } else {
        assert(s.take(s.len() as int) =~= s);
    }
}

proof fn lemma_target_read(kind: Seq<char>, target: Seq<char>)
    requires
        is_test_kind(kind),
    ensures
        test_target(kind + target) == Some(target),
{
    reveal_strlit("test-lib-");
    reveal_strlit("test-bin-");
    reveal_strlit("test-integration-test-");
    let s = kind + target;
    assert(s.take(kind.len() as int) =~= kind);
    assert(s.skip(kind.len() as int) =~= target);
    assert(s[5] == kind[5]);
    if kind != "test-lib-"@ && begins(s, "test-lib-"@) {
        assert(s.take(9)[5] == 'l');
    }
    if kind == "test-integration-test-"@ && begins(s, "test-bin-"@) {
        assert(s.take(9)[5] == 'b');
    }
}

proof fn lemma_target_kind(stem: Seq<char>, target: Seq<char>) -> (kind: Seq<char>)
    requires
        test_target(stem) == Some(target),
    ensures
        is_test_kind(kind),
        stem == kind + target,
{
    let kind = if begins(stem, "test-lib-"@) {
        "test-lib-"@
    } else if begins(stem, "test-bin-"@) {
        "test-bin-"@
    } else {
        "test-integration-test-"@
    };
    assert(begins(stem, kind));
    assert(stem =~= kind + target);
    kind
}

/// A name that is one component.
proof fn lemma_one_component(name: Seq<char>)
    requires
        name.len() > 0,
        !name.contains('/'),
        name != "."@,
    ensures
        components(name) == seq![name],
        !rooted(name),
{
    let p = seq![name];
    assert(part_legal(p, 0));
    reveal_strlit("/");
    assert(name != "/"@) by {
        if name == "/"@ {
            assert(name[0] == '/');
        }
    }
    law_spelled_components_read_back(p);
    assert(spelled(p) =~= name);
    if rooted(name) {
        assert(name.contains(name[0]));
    }
}

/// Whether a record's path is one from which its executable is told.
proof fn lemma_executable_told(path: PathModel, w: RecordPlace)
    requires
        w.proper(),
        path.parts() == w.record(),
    ensures
        executable_of(path) matches Some((dest, target)) && dest.parts() == w.executable() && target == w.target,
        extension(path) == Some("json"@),
        file_name(path) matches Some(n) && begins(n, "test-"@),
{
    reveal_strlit("test-lib-");
    reveal_strlit("test-bin-");
    reveal_strlit("test-integration-test-");
    reveal_strlit("test-");
    reveal_strlit("/");
    reveal_strlit(".");
    reveal_strlit("..");
    reveal_strlit("-");
    reveal_strlit(".json");
    reveal_strlit("json");
    reveal_strlit("deps");
    let all = w.record();
    let m = w.profile.len() as int;
    let stem = w.kind + w.target;
    let middle = w.krate + "-"@ + w.hash;
    lemma_suffixes_leave_the_front(w.name, ".json"@);
    assert(w.name.take(stem.len() as int) == stem);
    assert(w.name.len() >= stem.len());
    assert(stem.take(5) =~= "test-"@);
    assert(w.name.take(5) =~= "test-"@) by {
        assert forall|k: int| 0 <= k < 5 implies w.name[k] == "test-"@[k] by {
            assert(w.name[k] == w.name.take(stem.len() as int)[k]);
            assert(stem[k] == stem.take(5)[k]);
        }
    }
    assert(w.name[0] == 't') by {
        assert(w.name.take(5)[0] == 't');
    }
    assert(all.last() == w.name);
    assert(file_name(path) == Some(w.name));
    // The extension.
    let n = w.name.len() as int;
    assert(w.name.skip(n - 5) == ".json"@);
    lemma_last_at(w.name, '.', n);
    let dot = last_at(w.name, '.', n);
    assert(w.name[n - 5] == w.name.skip(n - 5)[0]);
    assert forall|k: int| n - 5 < k < n implies w.name[k] != '.' by {
        assert(w.name[k] == w.name.skip(n - 5)[k - (n - 5)]);
    }
    assert(dot == n - 5);
    assert(w.name.skip(dot + 1) =~= "json"@) by {
        assert forall|k: int| 0 <= k < 4 implies w.name.skip(dot + 1)[k] == "json"@[k] by {
            assert(w.name.skip(n - 5)[k + 1] == ".json"@[k + 1]);
        }
    }
    // The directories above.
    lemma_parent_parts(path);
    let dir = parent(path)->0;
    assert(dir.parts() =~= w.profile + seq![w.dir, middle]);
    assert(middle.contains('-')) by {
        assert(middle[w.krate.len() as int] == '-');
    }
    assert(middle != "/"@ && middle != "."@ && middle != ".."@) by {
        let k = w.krate.len() as int;
        assert(middle[k] == '-');
    }
    assert(dir.parts().last() == middle);
    assert(file_name(dir) == Some(middle));
    lemma_cut_at_last_dash(w.krate, w.hash);
    lemma_target_read(w.kind, w.target);
    lemma_parent_parts(dir);
    let fingerprints = parent(dir)->0;
    assert(fingerprints.parts() =~= w.profile.push(w.dir));
    lemma_components_are_legal(path.text);
    assert(part_legal(path.parts(), m));
    assert(part_legal(path.parts(), m + 1));
    assert(part_legal(path.parts(), m + 2));
    assert(all[m] == w.dir && all[m + 1] == middle && all[m + 2] == w.name);
    assert(fingerprints.parts().last() == w.dir);
    lemma_parent_parts(fingerprints);
    let profile = parent(fingerprints)->0;
    assert(profile.parts() =~= w.profile);
    let file = w.target + "-"@ + w.hash;
    assert(file[w.target.len() as int] == '-');
    assert(file != "."@);
    assert(!file.contains('/')) by {
        if file.contains('/') {
            let k = choose|k: int| 0 <= k < file.len() && file[k] == '/';
            if k < w.target.len() {
                assert(stem[w.kind.len() + k] == '/');
                assert(w.name.take(stem.len() as int)[w.kind.len() + k] == '/');
                assert(w.name[w.kind.len() + k] == '/');
                assert(w.name.contains('/'));
            } else {
                let h = k - w.target.len() - 1;
                assert(w.hash[h] == '/');
                assert(middle[w.krate.len() + 1 + h] == '/');
                assert(middle.contains('/'));
            }
        }
    }
    lemma_executable_path(profile, file);
    assert(executable_of(path) == Some((joined_path(joined_path(profile, "deps"@), file), w.target)));
    assert(w.profile + seq!["deps"@] + seq![file] =~= w.executable());
}

proof fn lemma_executable_path(profile: PathModel, file: Seq<char>)
    requires
        file.len() > 0,
        !file.contains('/'),
        file != "."@,
    ensures
        joined_path(joined_path(profile, "deps"@), file).parts() == profile.parts() + seq!["deps"@] + seq![file],
{
    reveal_strlit("deps");
    reveal_strlit(".");
    let deps = "deps"@;
    assert(!deps.contains('/')) by {
        assert forall|k: int| 0 <= k < deps.len() implies deps[k] != '/' by {}
    }
    lemma_one_component(deps);
    lemma_one_component(file);
    law_joining_appends(profile, deps);
    let dir = joined_path(profile, deps);
    assert(followed_by(profile.parts(), seq![deps]) =~= profile.parts() + seq![deps]);
    law_joining_appends(dir, file);
    assert(followed_by(dir.parts(), seq![file]) =~= dir.parts() + seq![file]);
}

/// What a record's path says, told from the path.
proof fn lemma_place_told(path: PathModel) -> (w: RecordPlace)
    requires
        executable_of(path) is Some,
        extension(path) == Some("json"@),
    ensures
        w.proper(),
        path.parts() == w.record(),
        (executable_of(path)->0).0.parts() == w.executable(),
        (executable_of(path)->0).1 == w.target,
{
    reveal_strlit(".json");
    reveal_strlit("json");
    let name = file_name(path)->0;
    let dir = parent(path)->0;
    let crate_hash = file_name(dir)->0;
    let (krate, hash) = cut_last(crate_hash, '-')->0;
    let stem = without_suffixes(name, ".json"@);
    let target = test_target(stem)->0;
    let fingerprints = parent(dir)->0;
    let profile = parent(fingerprints)->0;
    lemma_cut_last_parts(crate_hash, krate, hash);
    let kind = lemma_target_kind(stem, target);
    lemma_parent_parts(path);
    lemma_parent_parts(dir);
    lemma_parent_parts(fingerprints);
    let d = fingerprints.parts().last();
    let w = RecordPlace { profile: profile.parts(), dir: d, krate, hash, name, kind, target };
    assert(fingerprints.parts() =~= profile.parts().push(d));
    assert(dir.parts() =~= fingerprints.parts().push(crate_hash));
    assert(path.parts() =~= dir.parts().push(name));
    assert(path.parts() =~= w.record());
    let n = name.len() as int;
    lemma_last_at(name, '.', n);
    let dot = last_at(name, '.', n);
    assert(name.skip(dot + 1).len() == 4);
    assert(dot == n - 5);
    assert(name.skip(n - 5) =~= ".json"@) by {
        assert(name.skip(n - 5)[0] == '.');
        assert forall|k: int| 0 < k < 5 implies name.skip(n - 5)[k] == ".json"@[k] by {
            assert(name.skip(dot + 1)[k - 1] == "json"@[k - 1]);
        }
    }
    assert(w.proper());
    lemma_executable_told(path, w);
    w
}

// ---------------------------------------------------------------------
// What is said
// ---------------------------------------------------------------------

proof fn lemma_something_said(units: Seq<UnitModel>, facts: Seq<FactModel>, path: PathModel, n: int, r: int)
    requires
        0 <= r < n <= units.len(),
        fact_of_unit(units[r], facts) matches Some(f) && same_path(f.dest, path),
    ensures
        said_of(units, facts, path, n) is Some,
    decreases n,
{
    if r < n - 1 {
        lemma_something_said(units, facts, path, n - 1, r);
    }
}

proof fn lemma_who_said(units: Seq<UnitModel>, facts: Seq<FactModel>, path: PathModel, n: int) -> (r: int)
    requires
        0 <= n <= units.len(),
        said_of(units, facts, path, n) is Some,
    ensures
        0 <= r < n,
        fact_of_unit(units[r], facts) == said_of(units, facts, path, n),
        same_path(said_of(units, facts, path, n)->0.dest, path),
    decreases n,
{
    if n > 0 && fact_of_unit(units[n - 1], facts) is Some && same_path(
        fact_of_unit(units[n - 1], facts)->0.dest,
        path,
    ) {
        n - 1
    } else {
        lemma_who_said(units, facts, path, n - 1)
    }
}

/// Whether what a unit is said to be comes from the record at `r`: what it is,
/// its target, features and toolchain, and the evidence.
pub open spec fn speaks(u: UnitModel, record: UnitModel, facts: Seq<FactModel>, w: RecordPlace) -> bool {
    &&& is_readable_record(record, facts)
    &&& record.path.parts() == w.record()
    &&& w.proper()
    &&& u.path.parts() == w.executable()
    &&& u.variant.target == Some(w.target)
    &&& u.producer_evidence.len() > 0
    &&& u.producer_evidence.last().source == "cargo-fingerprint"@
    &&& u.producer_evidence.last().detail == path_text(record.path)
    &&& whole_manifest_of(facts, record.path) matches Some(m) && parsed_json(m.text) matches Some(json)
        && u.variant.features == node_text(json.get("features"@)) && (match node_text(json.get("rustc"@)) {
        Some(t) => u.variant.toolchain == Some("fingerprint:"@ + t),
        None => u.variant.toolchain is None,
    })
}

/// A unit is a test executable after enrichment only where a readable record in
/// the same profile says so, and it then has the record's target, features and
/// toolchain: it lies in `deps`, under the record's target and hash.
pub proof fn law_only_a_record_makes_a_test_executable(
    root: PathModel,
    units: Seq<UnitModel>,
    facts: Seq<FactModel>,
    i: int,
) -> (r: (int, RecordPlace))
    requires
        0 <= i < units.len(),
        enriched(root, units, facts)[i].role == ArtifactRole::TestExecutable,
    ensures
        0 <= r.0 < units.len(),
        speaks(enriched(root, units, facts)[i], units[r.0], facts, r.1),
{
    let e = enriched(root, units, facts)[i];
    let n = units.len() as int;
    assert(said_of(units, facts, units[i].path, n) is Some);
    let f = said_of(units, facts, units[i].path, n)->0;
    let r = lemma_who_said(units, facts, units[i].path, n);
    let w = lemma_place_told(units[r].path);
    let at = first_match(units[r].relative_path, "/.fingerprint/"@, 0);
    assert(stands_at(units[r].relative_path, "/.fingerprint/"@, at));
    (r, w)
}

/// A readable record makes a test executable of the unit it speaks of, under the
/// target that the record's name gives: of `<profile>/deps/<target>-<hash>`,
/// where the record is that of `<target>` and `<hash>` in the same profile.
pub proof fn law_a_record_makes_its_test_executable(
    root: PathModel,
    units: Seq<UnitModel>,
    facts: Seq<FactModel>,
    r: int,
    i: int,
    w: RecordPlace,
)
    requires
        0 <= r < units.len(),
        0 <= i < units.len(),
        w.proper(),
        is_readable_record(units[r], facts),
        units[r].path.parts() == w.record(),
        units[i].path.parts() == w.executable(),
    ensures
        enriched(root, units, facts)[i].role == ArtifactRole::TestExecutable,
        enriched(root, units, facts)[i].variant.target == Some(w.target),
{
    reveal_strlit("/.fingerprint/");
    let n = units.len() as int;
    lemma_executable_told(units[r].path, w);
    let at = choose|at: int| #[trigger] stands_at(units[r].relative_path, "/.fingerprint/"@, at);
    lemma_first_match(units[r].relative_path, "/.fingerprint/"@, 0, at);
    assert(is_record(units[r]));
    assert(fact_of_unit(units[r], facts) is Some);
    lemma_something_said(units, facts, units[i].path, n, r);
    let (q, v) = law_only_a_record_makes_a_test_executable(root, units, facts, i);
    // Both places name one executable, so they name one target.
    let a = w.target + "-"@ + w.hash;
    let b = v.target + "-"@ + v.hash;
    assert(w.executable().last() == a && v.executable().last() == b);
    lemma_cut_at_last_dash(w.target, w.hash);
    lemma_cut_at_last_dash(v.target, v.hash);
}

} // verus!
