//! What is kept of stores between passes.

use super::rows::{
    decode_whole, decoded, encode, encoded, ids_differ, law_units_read_back, law_written_rows_are_whole, rows_view,
    storable, stored, whole,
};
use crate::artifact::{copy_units, units_view, NestedArtifact, UnitModel};
use crate::text::{cat2, same};
use vstd::prelude::*;

verus! {

/// This library's version. Units that another version wrote are never replayed.
pub const VERSION: &'static str = "0.1.0";

/// What every stored container is marked with.
pub open spec fn mark() -> Seq<char> {
    "swamp-"@ + VERSION@
}

fn fingerprint() -> (r: String)
    ensures
        r@ == mark(),
{
    cat2("swamp-", VERSION)
}

/// A container's rows as they are kept.
#[derive(Debug, Clone, PartialEq, Eq)]
pub struct CachedRows {
    pub key: String,
    pub fingerprint: String,
    pub observed_at: u64,
    pub rows: Vec<Vec<String>>,
}

pub struct CachedModel {
    pub key: Seq<char>,
    pub fingerprint: Seq<char>,
    pub observed_at: u64,
    pub rows: Seq<Seq<Seq<char>>>,
}

impl View for CachedRows {
    type V = CachedModel;

    open spec fn view(&self) -> CachedModel {
        CachedModel {
            key: self.key@,
            fingerprint: self.fingerprint@,
            observed_at: self.observed_at,
            rows: rows_view(self.rows@),
        }
    }
}

pub open spec fn cached_view(s: Seq<CachedRows>) -> Seq<CachedModel> {
    Seq::new(s.len(), |i: int| s[i]@)
}

/// A container's units, and when they were last verified.
#[derive(Debug, Clone)]
pub struct StoredUnits {
    pub scope: String,
    pub observed_at: u64,
    pub units: Vec<NestedArtifact>,
}

pub struct StoredModel {
    pub scope: Seq<char>,
    pub observed_at: u64,
    pub units: Seq<UnitModel>,
}

impl View for StoredUnits {
    type V = StoredModel;

    open spec fn view(&self) -> StoredModel {
        StoredModel { scope: self.scope@, observed_at: self.observed_at, units: units_view(self.units@) }
    }
}

pub open spec fn stored_units_view(s: Seq<StoredUnits>) -> Seq<StoredModel> {
    Seq::new(s.len(), |i: int| s[i]@)
}

/// The containers that this version kept and of which every unit can be read,
/// of the first `n`. One of which a unit is lost is left out, so that it is
/// identified again; one in which nothing was identified is an answer like any
/// other.
pub open spec fn loaded(cached: Seq<CachedModel>, n: int) -> Seq<StoredModel>
    decreases n,
{
    if n <= 0 {
        Seq::empty()
    } else {
        let c = cached[n - 1];
        if c.fingerprint == mark() && whole(c.rows) {
            loaded(cached, n - 1).push(
                StoredModel { scope: c.key, observed_at: c.observed_at, units: decoded(c.rows) },
            )
        } else {
            loaded(cached, n - 1)
        }
    }
}

/// Every kept container's units, with when they were last verified.
pub fn load_units(cached: &Vec<CachedRows>) -> (r: Vec<StoredUnits>)
    ensures
        stored_units_view(r@) == loaded(cached_view(cached@), cached@.len() as int),
{
    let fp = fingerprint();
    let ghost all = cached_view(cached@);
    let mut out: Vec<StoredUnits> = Vec::new();
    let mut i: usize = 0;
    assert(stored_units_view(out@) =~= loaded(all, 0));
    while i < cached.len()
        invariant
            i <= cached@.len(),
            all == cached_view(cached@),
            fp@ == mark(),
            stored_units_view(out@) == loaded(all, i as int),
        decreases cached@.len() - i,
    {
        let c = &cached[i];
        assert(all[i as int] == c@);
        if same(c.fingerprint.as_str(), fp.as_str()) {
            match decode_whole(&c.rows) {
                Some(units) => {
                    let s = StoredUnits { scope: c.key.as_str().to_owned(), observed_at: c.observed_at, units };
                    let ghost sm = s@;
                    let ghost prior = out@;
                    out.push(s);
                    assert(stored_units_view(out@) =~= stored_units_view(prior).push(sm));
                },
                None => {},
            }
        }
        i += 1;
    }
    out
}

pub open spec fn written(s: StoredModel, at: u64) -> CachedModel {
    CachedModel { key: s.scope, fingerprint: mark(), observed_at: at, rows: encoded(s.units) }
}

/// Whether a container stands in a list at or after place `i`.
pub open spec fn stands_from(list: Seq<StoredModel>, scope: Seq<char>, i: int) -> bool {
    exists|k: int| i <= k < list.len() && (#[trigger] list[k]).scope == scope
}

/// The first `n` containers of a list, the last of each scope, written.
pub open spec fn written_upto(list: Seq<StoredModel>, over: Seq<StoredModel>, n: int) -> Seq<CachedModel>
    decreases n,
{
    if n <= 0 {
        Seq::empty()
    } else {
        let s = list[n - 1];
        if stands_from(list, s.scope, n) || stands_from(over, s.scope, 0) {
            written_upto(list, over, n - 1)
        } else {
            written_upto(list, over, n - 1).push(written(s, s.observed_at))
        }
    }
}

/// What a pass keeps: what it did not reach, with when that was last verified,
/// then what it identified or replayed, verified now. Carrying a container
/// forward never makes it look verified again.
pub open spec fn kept_after(this_pass: Seq<StoredModel>, previous: Seq<StoredModel>) -> Seq<CachedModel> {
    written_upto(previous, this_pass, previous.len() as int) + written_upto(
        this_pass,
        Seq::empty(),
        this_pass.len() as int,
    )
}

fn is_standing(list: &Vec<StoredUnits>, scope: &str, from: usize) -> (r: bool)
    requires
        from <= list@.len(),
    ensures
        r == stands_from(stored_units_view(list@), scope@, from as int),
{
    let ghost all = stored_units_view(list@);
    let mut i: usize = from;
    while i < list.len()
        invariant
            from <= i <= list@.len(),
            all == stored_units_view(list@),
            forall|k: int| from <= k < i ==> (#[trigger] all[k]).scope != scope@,
        decreases list@.len() - i,
    {
        assert(all[i as int] == list@[i as int]@);
        if same(list[i].scope.as_str(), scope) {
            return true;
        }
        i += 1;
    }
    false
}

fn write_list(out: &mut Vec<CachedRows>, list: &Vec<StoredUnits>, over: &Vec<StoredUnits>)
    ensures
        cached_view(final(out)@) == cached_view(old(out)@) + written_upto(
            stored_units_view(list@),
            stored_units_view(over@),
            list@.len() as int,
        ),
{
    let ghost start = cached_view(out@);
    let ghost all = stored_units_view(list@);
    let ghost others = stored_units_view(over@);
    let mut i: usize = 0;
    assert(start + written_upto(all, others, 0) =~= start);
    while i < list.len()
        invariant
            i <= list@.len(),
            all == stored_units_view(list@),
            others == stored_units_view(over@),
            cached_view(out@) == start + written_upto(all, others, i as int),
        decreases list@.len() - i,
    {
        let s = &list[i];
        assert(all[i as int] == s@);
        if !is_standing(list, s.scope.as_str(), i + 1) && !is_standing(over, s.scope.as_str(), 0) {
            let c = CachedRows {
                key: s.scope.as_str().to_owned(),
                fingerprint: fingerprint(),
                observed_at: s.observed_at,
                rows: encode(&s.units),
            };
            let ghost cm = c@;
            let ghost prior = out@;
            out.push(c);
            assert(cached_view(out@) =~= cached_view(prior).push(cm));
        }
        i += 1;
        assert(cached_view(out@) =~= start + written_upto(all, others, i as int));
    }
}

/// Containers and their units, as one pass found them.
pub open spec fn scoped_view(s: Seq<(String, Vec<NestedArtifact>)>) -> Seq<(Seq<char>, Seq<UnitModel>)> {
    Seq::new(s.len(), |i: int| (s[i].0@, units_view(s[i].1@)))
}

/// The containers of a pass, all verified at one time.
pub open spec fn verified_at(list: Seq<(Seq<char>, Seq<UnitModel>)>, at: u64) -> Seq<StoredModel> {
    Seq::new(list.len(), |i: int| StoredModel { scope: list[i].0, observed_at: at, units: list[i].1 })
}

fn verified_now(list: &Vec<(String, Vec<NestedArtifact>)>, at: u64) -> (r: Vec<StoredUnits>)
    ensures
        stored_units_view(r@) == verified_at(scoped_view(list@), at),
{
    let ghost want = verified_at(scoped_view(list@), at);
    let mut out: Vec<StoredUnits> = Vec::new();
    let mut i: usize = 0;
    assert(stored_units_view(out@) =~= want.take(0));
    while i < list.len()
        invariant
            i <= list@.len(),
            want == verified_at(scoped_view(list@), at),
            stored_units_view(out@) == want.take(i as int),
        decreases list@.len() - i,
    {
        let s = StoredUnits {
            scope: list[i].0.as_str().to_owned(),
            observed_at: at,
            units: copy_units(&list[i].1),
        };
        let ghost prior = out@;
        assert(s@ == want[i as int]);
        out.push(s);
        i += 1;
        assert(stored_units_view(out@) =~= stored_units_view(prior).push(want[i - 1]));
        assert(stored_units_view(out@) =~= want.take(i as int));
    }
    assert(want.take(i as int) =~= want);
    out
}

/// What a pass keeps of stores: every container it identified or replayed,
/// verified at `observed_at`, and every one it did not reach, as it was.
pub fn save_units(
    this_pass: &Vec<(String, Vec<NestedArtifact>)>,
    previous: &Vec<StoredUnits>,
    observed_at: u64,
) -> (r: Vec<CachedRows>)
    ensures
        cached_view(r@) == kept_after(
            verified_at(scoped_view(this_pass@), observed_at),
            stored_units_view(previous@),
        ),
{
    let now = verified_now(this_pass, observed_at);
    let mut out: Vec<CachedRows> = Vec::new();
    let none: Vec<StoredUnits> = Vec::new();
    assert(cached_view(out@) =~= Seq::<CachedModel>::empty());
    assert(stored_units_view(none@) =~= Seq::<StoredModel>::empty());
    write_list(&mut out, previous, &now);
    write_list(&mut out, &now, &none);
    assert(cached_view(out@) =~= kept_after(stored_units_view(now@), stored_units_view(previous@)));
    out
}

// ---------------------------------------------------------------------
// Laws
// ---------------------------------------------------------------------

/// Whether a container can be kept and read back.
pub open spec fn keepable(s: StoredModel) -> bool {
    &&& ids_differ(s.units)
    &&& forall|i: int| 0 <= i < s.units.len() ==> storable(#[trigger] s.units[i])
}

/// A container as it is read back: its units without their history.
pub open spec fn read_back(s: StoredModel) -> StoredModel {
    StoredModel { units: s.units.map_values(|u: UnitModel| stored(u)), ..s }
}

pub open spec fn all_keepable(list: Seq<StoredModel>) -> bool {
    forall|i: int| 0 <= i < list.len() ==> keepable(#[trigger] list[i])
}

/// The containers of a list that are kept, of the first `n`, as they are read
/// back.
pub open spec fn read_back_upto(list: Seq<StoredModel>, over: Seq<StoredModel>, n: int) -> Seq<StoredModel>
    decreases n,
{
    if n <= 0 {
        Seq::empty()
    } else {
        let s = list[n - 1];
        if stands_from(list, s.scope, n) || stands_from(over, s.scope, 0) {
            read_back_upto(list, over, n - 1)
        } else {
            read_back_upto(list, over, n - 1).push(read_back(s))
        }
    }
}

proof fn lemma_loaded_front(s: Seq<CachedModel>, t: Seq<CachedModel>, n: int)
    requires
        0 <= n <= s.len(),
    ensures
        loaded(s + t, n) == loaded(s, n),
    decreases n,
{
    if n > 0 {
        lemma_loaded_front(s, t, n - 1);
        assert((s + t)[n - 1] == s[n - 1]);
    }
}

proof fn lemma_loaded_concat(s: Seq<CachedModel>, t: Seq<CachedModel>, n: int)
    requires
        0 <= n <= t.len(),
    ensures
        loaded(s + t, s.len() + n) == loaded(s, s.len() as int) + loaded(t, n),
    decreases n,
{
    if n > 0 {
        lemma_loaded_concat(s, t, n - 1);
        assert((s + t)[s.len() + n - 1] == t[n - 1]);
        assert(loaded(s + t, s.len() + n) =~= loaded(s, s.len() as int) + loaded(t, n));
    } else {
        lemma_loaded_front(s, t, s.len() as int);
        assert(loaded(s, s.len() as int) + loaded(t, 0) =~= loaded(s, s.len() as int));
    }
}

proof fn lemma_written_loads(list: Seq<StoredModel>, over: Seq<StoredModel>, n: int)
    requires
        all_keepable(list),
        0 <= n <= list.len(),
    ensures
        loaded(written_upto(list, over, n), written_upto(list, over, n).len() as int) == read_back_upto(list, over, n),
    decreases n,
{
    if n > 0 {
        lemma_written_loads(list, over, n - 1);
        let s = list[n - 1];
        assert(keepable(s));
        if !(stands_from(list, s.scope, n) || stands_from(over, s.scope, 0)) {
            let before = written_upto(list, over, n - 1);
            let one = seq![written(s, s.observed_at)];
            assert(before.push(written(s, s.observed_at)) =~= before + one);
            lemma_loaded_concat(before, one, 1);
            law_units_read_back(s.units);
            law_written_rows_are_whole(s.units);
            assert(loaded(one, 0) =~= Seq::<StoredModel>::empty());
            assert(loaded(one, 1) =~= seq![read_back(s)]);
            assert(read_back_upto(list, over, n) =~= read_back_upto(list, over, n - 1) + seq![read_back(s)]);
        }
    }
}

/// What is kept is what the next pass loads: every container once, an empty one
/// too, with the time it was verified and its units without their history.
pub proof fn law_what_is_kept_loads(this_pass: Seq<StoredModel>, previous: Seq<StoredModel>)
    requires
        all_keepable(this_pass),
        all_keepable(previous),
    ensures
        loaded(kept_after(this_pass, previous), kept_after(this_pass, previous).len() as int) == read_back_upto(
            previous,
            this_pass,
            previous.len() as int,
        ) + read_back_upto(this_pass, Seq::empty(), this_pass.len() as int),
{
    let s = written_upto(previous, this_pass, previous.len() as int);
    let t = written_upto(this_pass, Seq::empty(), this_pass.len() as int);
    lemma_written_loads(previous, this_pass, previous.len() as int);
    lemma_written_loads(this_pass, Seq::empty(), this_pass.len() as int);
    lemma_loaded_concat(s, t, t.len() as int);
}

proof fn lemma_written_from(list: Seq<StoredModel>, over: Seq<StoredModel>, n: int, k: int)
    requires
        0 <= n <= list.len(),
        0 <= k < written_upto(list, over, n).len(),
    ensures
        exists|i: int|
            0 <= i < n && !stands_from(over, (#[trigger] list[i]).scope, 0) && written_upto(list, over, n)[k] == written(
                list[i],
                list[i].observed_at,
            ),
    decreases n,
{
    if n > 0 {
        let s = list[n - 1];
        let before = written_upto(list, over, n - 1);
        if k < before.len() {
            lemma_written_from(list, over, n - 1, k);
            let i = choose|i: int|
                0 <= i < n - 1 && !stands_from(over, (#[trigger] list[i]).scope, 0) && before[k] == written(
                    list[i],
                    list[i].observed_at,
                );
            assert(written_upto(list, over, n)[k] == written(list[i], list[i].observed_at));
        } else {
            assert(written_upto(list, over, n)[k] == written(list[n - 1], list[n - 1].observed_at));
        }
    }
}

/// Carrying a container forward never makes it look verified again: what a pass
/// keeps is either a container that it reached, verified at its own time, or one
/// that it did not reach, with the time and the units that were kept before.
pub proof fn law_carrying_forward_keeps_the_time(
    reached: Seq<(Seq<char>, Seq<UnitModel>)>,
    previous: Seq<StoredModel>,
    at: u64,
    k: int,
)
    requires
        0 <= k < kept_after(verified_at(reached, at), previous).len(),
    ensures
        ({
            let row = kept_after(verified_at(reached, at), previous)[k];
            ||| exists|i: int|
                0 <= i < reached.len() && (#[trigger] reached[i]).0 == row.key && row.observed_at == at && row.rows
                    == encoded(reached[i].1)
            ||| {
                &&& !stands_from(verified_at(reached, at), row.key, 0)
                &&& exists|i: int|
                    0 <= i < previous.len() && (#[trigger] previous[i]).scope == row.key && previous[i].observed_at
                        == row.observed_at && row.rows == encoded(previous[i].units)
            }
        }),
{
    let now = verified_at(reached, at);
    let carried = written_upto(previous, now, previous.len() as int);
    let row = kept_after(now, previous)[k];
    if k < carried.len() {
        lemma_written_from(previous, now, previous.len() as int, k);
        let i = choose|i: int|
            0 <= i < previous.len() && !stands_from(now, (#[trigger] previous[i]).scope, 0) && carried[k] == written(
                previous[i],
                previous[i].observed_at,
            );
        assert(previous[i].scope == row.key);
    } else {
        let here = written_upto(now, Seq::empty(), now.len() as int);
        lemma_written_from(now, Seq::empty(), now.len() as int, k - carried.len());
        let i = choose|i: int|
            0 <= i < now.len() && !stands_from(Seq::empty(), (#[trigger] now[i]).scope, 0) && here[k - carried.len()]
                == written(now[i], now[i].observed_at);
        assert(reached[i].0 == row.key);
    }
}

/// What another version wrote, or what cannot be read to the last unit, is never
/// replayed: every container that is loaded stands among the kept ones under
/// this version's mark, with rows that are whole.
pub proof fn law_other_versions_are_not_loaded(cached: Seq<CachedModel>, n: int, k: int)
    requires
        0 <= n <= cached.len(),
        0 <= k < loaded(cached, n).len(),
    ensures
        exists|i: int|
            0 <= i < n && (#[trigger] cached[i]).fingerprint == mark() && whole(cached[i].rows) && cached[i].key == loaded(cached, n)[k].scope
                && cached[i].observed_at == loaded(cached, n)[k].observed_at,
    decreases n,
{
    if n > 0 {
        let before = loaded(cached, n - 1);
        if k < before.len() {
            law_other_versions_are_not_loaded(cached, n - 1, k);
            let i = choose|i: int|
                0 <= i < n - 1 && (#[trigger] cached[i]).fingerprint == mark() && whole(cached[i].rows) && cached[i].key == before[k].scope
                    && cached[i].observed_at == before[k].observed_at;
            assert(cached[i].key == loaded(cached, n)[k].scope);
        } else {
            assert(cached[n - 1].key == loaded(cached, n)[k].scope);
        }
    }
}

} // verus!
