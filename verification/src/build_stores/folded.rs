//! A store's measured directories as the adapters see them: totals,
//! completeness and the newest modification folded up over what lies inside.

use crate::build_adapters::container::{dirs_view, DirModel, FoldedDir};
use crate::order::{
    before, falling_key, keys_of, law_number_keys_order_numbers, lemma_lex_irreflexive, lemma_stable_places, place_in,
    push_falling, sort_places, stable_order, stable_places,
};
use crate::path::{joined_path, FsPath, PathModel};
use crate::text::{chars_of, opt_text, same};
use vstd::prelude::*;

verus! {

/// One directory of a measured tree, by its name from the root.
#[derive(Debug, Clone, PartialEq, Eq)]
pub struct DirRollup {
    pub rel_path: String,
    pub parent_rel_path: Option<String>,
    pub own_allocated: u64,
    pub allocated_total: u64,
    /// The newest modification directly in it, in minutes.
    pub mod_time_min: i32,
    pub complete: bool,
}

pub struct RollupModel {
    pub rel_path: Seq<char>,
    pub parent_rel_path: Option<Seq<char>>,
    pub own_allocated: u64,
    pub allocated_total: u64,
    pub mod_time_min: i32,
    pub complete: bool,
}

impl View for DirRollup {
    type V = RollupModel;

    open spec fn view(&self) -> RollupModel {
        RollupModel {
            rel_path: self.rel_path@,
            parent_rel_path: opt_text(self.parent_rel_path),
            own_allocated: self.own_allocated,
            allocated_total: self.allocated_total,
            mod_time_min: self.mod_time_min,
            complete: self.complete,
        }
    }
}

pub open spec fn rollups_view(s: Seq<DirRollup>) -> Seq<RollupModel> {
    Seq::new(s.len(), |i: int| s[i]@)
}

// ---------------------------------------------------------------------
// Order
// ---------------------------------------------------------------------

/// How many separators are among the first `n` characters.
pub open spec fn slashes(s: Seq<char>, n: int) -> nat
    decreases n,
{
    if n <= 0 {
        0
    } else {
        slashes(s, n - 1) + (if s[n - 1] == '/' {
            1nat
        } else {
            0
        })
    }
}

pub open spec fn depth(name: Seq<char>) -> nat {
    slashes(name, name.len() as int)
}

pub open spec fn depth_keys(rows: Seq<RollupModel>) -> Seq<Seq<u32>> {
    Seq::new(rows.len(), |i: int| falling_key(depth(rows[i].rel_path) as u64))
}

/// The places of the rows, the deepest first.
pub open spec fn deepest_first(rows: Seq<RollupModel>) -> Seq<usize> {
    stable_places(depth_keys(rows))
}

proof fn lemma_slashes(s: Seq<char>, n: int)
    requires
        0 <= n <= s.len(),
    ensures
        slashes(s, n) <= n,
    decreases n,
{
    if n > 0 {
        lemma_slashes(s, n - 1);
    }
}

fn count_slashes(name: &str) -> (r: u64)
    ensures
        r == depth(name@),
{
    let v = chars_of(name);
    let mut n: u64 = 0;
    let mut i: usize = 0;
    while i < v.len()
        invariant
            i <= v@.len(),
            v@ == name@,
            n == slashes(name@, i as int),
            n <= i,
        decreases v@.len() - i,
    {
        if v[i] == '/' {
            n = n + 1;
        }
        i += 1;
    }
    n
}

fn order_rows(rows: &Vec<DirRollup>) -> (r: Vec<usize>)
    ensures
        r@ == deepest_first(rollups_view(rows@)),
        stable_order(depth_keys(rollups_view(rows@)), r@),
        r@.len() == rows@.len(),
        forall|i: int| 0 <= i < r@.len() ==> 0 <= #[trigger] r@[i] < rows@.len(),
{
    let ghost all = rollups_view(rows@);
    let mut keys: Vec<Vec<u32>> = Vec::new();
    let mut i: usize = 0;
    while i < rows.len()
        invariant
            i <= rows@.len(),
            all == rollups_view(rows@),
            keys_of(keys@) == depth_keys(all).take(i as int),
        decreases rows@.len() - i,
    {
        assert(all[i as int] == rows@[i as int]@);
        let n = count_slashes(rows[i].rel_path.as_str());
        let mut k: Vec<u32> = Vec::new();
        push_falling(&mut k, n);
        assert(k@ =~= falling_key(n));
        let ghost prior = keys@;
        keys.push(k);
        i += 1;
        assert(keys_of(keys@) =~= keys_of(prior).push(k@));
        assert(keys_of(keys@) =~= depth_keys(all).take(i as int));
    }
    assert(depth_keys(all).take(i as int) =~= depth_keys(all));
    sort_places(&keys)
}

// ---------------------------------------------------------------------
// Totals
// ---------------------------------------------------------------------

/// The place of the last row with a name, among the first `n`; -1 where there
/// is none.
pub open spec fn place_named(rows: Seq<RollupModel>, name: Seq<char>, n: int) -> int
    decreases n,
{
    if n <= 0 {
        -1
    } else if rows[n - 1].rel_path == name {
        n - 1
    } else {
        place_named(rows, name, n - 1)
    }
}

/// The place of the directory a row lies in; -1 where there is none.
pub open spec fn parent_row(rows: Seq<RollupModel>, i: int) -> int {
    match rows[i].parent_rel_path {
        Some(p) => place_named(rows, p, rows.len() as int),
        None => -1,
    }
}

pub open spec fn with_row(above: RollupModel, row: RollupModel) -> RollupModel {
    RollupModel {
        allocated_total: (above.allocated_total + row.allocated_total) as u64,
        complete: above.complete && row.complete,
        ..above
    }
}

pub open spec fn fold_row(rows: Seq<RollupModel>, i: int) -> Seq<RollupModel> {
    let p = parent_row(rows, i);
    if 0 <= p < rows.len() && p != i {
        rows.update(p, with_row(rows[p], rows[i]))
    } else {
        rows
    }
}

/// Rows that each hold only their own.
pub open spec fn own_only(rows: Seq<RollupModel>) -> Seq<RollupModel> {
    Seq::new(rows.len(), |i: int| RollupModel { allocated_total: rows[i].own_allocated, ..rows[i] })
}

/// The rows after the first `n` of an order were folded into theirs.
pub open spec fn folded_upto(rows: Seq<RollupModel>, order: Seq<usize>, n: int) -> Seq<RollupModel>
    decreases n,
{
    if n <= 0 {
        own_only(rows)
    } else {
        fold_row(folded_upto(rows, order, n - 1), order[n - 1] as int)
    }
}

/// The rows with totals and completeness folded up, the deepest first.
pub open spec fn rolled_up(rows: Seq<RollupModel>) -> Seq<RollupModel> {
    folded_upto(rows, deepest_first(rows), rows.len() as int)
}

pub open spec fn row_fits(rows: Seq<RollupModel>, i: int) -> bool {
    let p = parent_row(rows, i);
    0 <= p < rows.len() && p != i ==> rows[p].allocated_total + rows[i].allocated_total <= u64::MAX
}

/// Whether every total on the way fits.
pub open spec fn totals_fit(rows: Seq<RollupModel>) -> bool {
    let order = deepest_first(rows);
    forall|n: int| 0 <= n < rows.len() ==> row_fits(#[trigger] folded_upto(rows, order, n), order[n] as int)
}

fn find_named(rows: &Vec<DirRollup>, name: &str) -> (r: Option<usize>)
    ensures
        match r {
            Some(p) => place_named(rollups_view(rows@), name@, rows@.len() as int) == p && p < rows@.len(),
            None => place_named(rollups_view(rows@), name@, rows@.len() as int) == -1,
        },
{
    let ghost all = rollups_view(rows@);
    let mut n: usize = rows.len();
    while n > 0
        invariant
            n <= rows@.len(),
            all == rollups_view(rows@),
            place_named(all, name@, rows@.len() as int) == place_named(all, name@, n as int),
        decreases n,
    {
        assert(all[n - 1] == rows@[n - 1]@);
        if same(rows[n - 1].rel_path.as_str(), name) {
            return Some(n - 1);
        }
        n -= 1;
    }
    None
}

fn find_parent_row(rows: &Vec<DirRollup>, i: usize) -> (r: Option<usize>)
    requires
        i < rows@.len(),
    ensures
        match r {
            Some(p) => parent_row(rollups_view(rows@), i as int) == p && p < rows@.len(),
            None => parent_row(rollups_view(rows@), i as int) == -1,
        },
{
    assert(rollups_view(rows@)[i as int] == rows@[i as int]@);
    assert(rollups_view(rows@).len() == rows@.len());
    match &rows[i].parent_rel_path {
        Some(p) => find_named(rows, p.as_str()),
        None => None,
    }
}

fn copy_row(d: &DirRollup) -> (r: DirRollup)
    ensures
        r@ == d@,
{
    DirRollup {
        rel_path: d.rel_path.as_str().to_owned(),
        parent_rel_path: crate::text::copy_opt(&d.parent_rel_path),
        own_allocated: d.own_allocated,
        allocated_total: d.allocated_total,
        mod_time_min: d.mod_time_min,
        complete: d.complete,
    }
}

fn start_rows(rows: &Vec<DirRollup>) -> (r: Vec<DirRollup>)
    ensures
        rollups_view(r@) == own_only(rollups_view(rows@)),
{
    let ghost all = own_only(rollups_view(rows@));
    let mut out: Vec<DirRollup> = Vec::new();
    let mut i: usize = 0;
    assert(rollups_view(out@) =~= all.take(0));
    while i < rows.len()
        invariant
            i <= rows@.len(),
            all == own_only(rollups_view(rows@)),
            rollups_view(out@) == all.take(i as int),
        decreases rows@.len() - i,
    {
        assert(rollups_view(rows@)[i as int] == rows@[i as int]@);
        let mut d = copy_row(&rows[i]);
        d.allocated_total = d.own_allocated;
        let ghost prior = out@;
        let ghost dm = d@;
        out.push(d);
        i += 1;
        assert(rollups_view(out@) =~= rollups_view(prior).push(dm));
        assert(rollups_view(out@) =~= all.take(i as int));
    }
    assert(all.take(i as int) =~= all);
    out
}

/// Whether every total on the way up fits, tried out on a copy.
pub fn do_totals_fit(dirs: &Vec<DirRollup>) -> (r: bool)
    ensures
        r == totals_fit(rollups_view(dirs@)),
{
    let ghost rows = rollups_view(dirs@);
    let order = order_rows(dirs);
    let mut out = start_rows(dirs);
    assert(rollups_view(out@).len() == out@.len());
    let mut n: usize = 0;
    while n < order.len()
        invariant
            n <= order@.len(),
            order@ == deepest_first(rows),
            order@.len() == rows.len(),
            out@.len() == rows.len(),
            forall|i: int| 0 <= i < order@.len() ==> 0 <= #[trigger] order@[i] < rows.len(),
            rows == rollups_view(dirs@),
            rollups_view(out@) == folded_upto(rows, order@, n as int),
            forall|k: int| 0 <= k < n ==> row_fits(#[trigger] folded_upto(rows, order@, k), order@[k] as int),
        decreases order@.len() - n,
    {
        let i: usize = order[n];
        assert(order@[n as int] < rows.len());
        let ghost now = rollups_view(out@);
        match find_parent_row(&out, i) {
            Some(p) => {
                if p != i {
                    assert(now[p as int] == out@[p as int]@);
                    assert(now[i as int] == out@[i as int]@);
                    if out[i].allocated_total > u64::MAX - out[p].allocated_total {
                        assert(!row_fits(folded_upto(rows, order@, n as int), order@[n as int] as int));
                        return false;
                    }
                    let mut d = copy_row(&out[p]);
                    d.allocated_total = out[p].allocated_total + out[i].allocated_total;
                    d.complete = out[p].complete && out[i].complete;
                    assert(d@ == with_row(now[p as int], now[i as int]));
                    out.set(p, d);
                    assert(rollups_view(out@) =~= fold_row(now, i as int));
                }
            },
            None => {},
        }
        n += 1;
    }
    true
}

/// Folds totals and completeness upward, once.
pub fn aggregate_dir_totals(dirs: &mut Vec<DirRollup>)
    requires
        totals_fit(rollups_view(old(dirs)@)),
    ensures
        rollups_view(final(dirs)@) == rolled_up(rollups_view(old(dirs)@)),
{
    let ghost rows = rollups_view(dirs@);
    let order = order_rows(dirs);
    let mut out = start_rows(dirs);
    assert(rollups_view(out@).len() == out@.len());
    let mut n: usize = 0;
    while n < order.len()
        invariant
            n <= order@.len(),
            order@ == deepest_first(rows),
            order@.len() == rows.len(),
            out@.len() == rows.len(),
            forall|i: int| 0 <= i < order@.len() ==> 0 <= #[trigger] order@[i] < rows.len(),
            totals_fit(rows),
            rollups_view(out@) == folded_upto(rows, order@, n as int),
        decreases order@.len() - n,
    {
        let i: usize = order[n];
        assert(order@[n as int] < rows.len());
        let ghost now = rollups_view(out@);
        assert(row_fits(folded_upto(rows, order@, n as int), order@[n as int] as int));
        match find_parent_row(&out, i) {
            Some(p) => {
                if p != i {
                    assert(now[p as int] == out@[p as int]@);
                    assert(now[i as int] == out@[i as int]@);
                    let mut d = copy_row(&out[p]);
                    d.allocated_total = out[p].allocated_total + out[i].allocated_total;
                    d.complete = out[p].complete && out[i].complete;
                    assert(d@ == with_row(now[p as int], now[i as int]));
                    out.set(p, d);
                    assert(rollups_view(out@) =~= fold_row(now, i as int));
                }
            },
            None => {},
        }
        n += 1;
    }
    *dirs = out;
}

// ---------------------------------------------------------------------
// Newest modification
// ---------------------------------------------------------------------

/// The last time recorded under a name, in the first `n` records.
pub open spec fn recorded(log: Seq<(Seq<char>, i32)>, name: Seq<char>, n: int) -> Option<i32>
    decreases n,
{
    if n <= 0 {
        None
    } else if log[n - 1].0 == name {
        Some(log[n - 1].1)
    } else {
        recorded(log, name, n - 1)
    }
}

pub open spec fn or_zero(t: Option<i32>) -> i32 {
    match t {
        Some(x) => x,
        None => 0,
    }
}

pub open spec fn later(a: i32, b: i32) -> i32 {
    if b > a {
        b
    } else {
        a
    }
}

/// Records the time of a row, if it is newer, for the directory it lies in.
pub open spec fn raise(log: Seq<(Seq<char>, i32)>, row: RollupModel) -> Seq<(Seq<char>, i32)> {
    match row.parent_rel_path {
        Some(p) => {
            let own = or_zero(recorded(log, row.rel_path, log.len() as int));
            let there = or_zero(recorded(log, p, log.len() as int));
            log.push((p, later(there, own)))
        },
        None => log,
    }
}

/// Every row's own time.
pub open spec fn own_times(rows: Seq<RollupModel>) -> Seq<(Seq<char>, i32)> {
    Seq::new(rows.len(), |i: int| (rows[i].rel_path, rows[i].mod_time_min))
}

pub open spec fn raised_upto(rows: Seq<RollupModel>, order: Seq<usize>, n: int) -> Seq<(Seq<char>, i32)>
    decreases n,
{
    if n <= 0 {
        own_times(rows)
    } else {
        raise(raised_upto(rows, order, n - 1), rows[order[n - 1] as int])
    }
}

pub open spec fn all_times(rows: Seq<RollupModel>) -> Seq<(Seq<char>, i32)> {
    raised_upto(rows, deepest_first(rows), rows.len() as int)
}

/// The newest modification at or under a name, in minutes.
pub open spec fn newest(rows: Seq<RollupModel>, name: Seq<char>) -> i32 {
    let log = all_times(rows);
    or_zero(recorded(log, name, log.len() as int))
}

pub open spec fn in_seconds(minutes: i32) -> u64 {
    if minutes > 0 {
        (minutes * 60) as u64
    } else {
        0
    }
}

/// A directory as the adapters see it.
pub open spec fn folded_dir(store: PathModel, row: RollupModel, time: i32) -> DirModel {
    DirModel {
        path: if row.rel_path.len() == 0 {
            store
        } else {
            joined_path(store, row.rel_path)
        },
        allocated_total: row.allocated_total,
        mtime_max: in_seconds(time),
        complete: row.complete,
    }
}

/// A store's directories as the adapters see them.
pub open spec fn folded(store: PathModel, rows: Seq<RollupModel>) -> Seq<DirModel> {
    let up = rolled_up(rows);
    Seq::new(up.len(), |i: int| folded_dir(store, up[i], newest(up, up[i].rel_path)))
}

pub open spec fn log_view(s: Seq<(String, i32)>) -> Seq<(Seq<char>, i32)> {
    Seq::new(s.len(), |i: int| (s[i].0@, s[i].1))
}

fn find_time(log: &Vec<(String, i32)>, name: &str) -> (r: Option<i32>)
    ensures
        r == recorded(log_view(log@), name@, log@.len() as int),
{
    let ghost all = log_view(log@);
    let mut n: usize = log.len();
    while n > 0
        invariant
            n <= log@.len(),
            all == log_view(log@),
            recorded(all, name@, log@.len() as int) == recorded(all, name@, n as int),
        decreases n,
    {
        assert(all[n - 1] == (log@[n - 1].0@, log@[n - 1].1));
        if same(log[n - 1].0.as_str(), name) {
            return Some(log[n - 1].1);
        }
        n -= 1;
    }
    None
}

fn time_or_zero(log: &Vec<(String, i32)>, name: &str) -> (r: i32)
    ensures
        r == or_zero(recorded(log_view(log@), name@, log@.len() as int)),
{
    match find_time(log, name) {
        Some(t) => t,
        None => 0,
    }
}

fn push_time(log: &mut Vec<(String, i32)>, name: &str, t: i32)
    ensures
        log_view(final(log)@) == log_view(old(log)@).push((name@, t)),
{
    let ghost prior = log@;
    log.push((name.to_owned(), t));
    assert(log_view(log@) =~= log_view(prior).push((name@, t)));
}

fn record_times(rows: &Vec<DirRollup>) -> (r: Vec<(String, i32)>)
    ensures
        log_view(r@) == all_times(rollups_view(rows@)),
{
    let ghost all = rollups_view(rows@);
    let order = order_rows(rows);
    let mut log: Vec<(String, i32)> = Vec::new();
    let mut i: usize = 0;
    assert(log_view(log@) =~= own_times(all).take(0));
    while i < rows.len()
        invariant
            i <= rows@.len(),
            all == rollups_view(rows@),
            log_view(log@) == own_times(all).take(i as int),
        decreases rows@.len() - i,
    {
        assert(all[i as int] == rows@[i as int]@);
        push_time(&mut log, rows[i].rel_path.as_str(), rows[i].mod_time_min);
        i += 1;
        assert(log_view(log@) =~= own_times(all).take(i as int));
    }
    assert(own_times(all).take(i as int) =~= own_times(all));
    let mut n: usize = 0;
    while n < order.len()
        invariant
            n <= order@.len(),
            all == rollups_view(rows@),
            order@ == deepest_first(all),
            forall|i: int| 0 <= i < order@.len() ==> 0 <= #[trigger] order@[i] < rows@.len(),
            log_view(log@) == raised_upto(all, order@, n as int),
        decreases order@.len() - n,
    {
        let k: usize = order[n];
        assert(order@[n as int] < rows@.len());
        let d = &rows[k];
        assert(all[k as int] == d@);
        assert(log_view(log@).len() == log@.len());
        match &d.parent_rel_path {
            Some(p) => {
                let own = time_or_zero(&log, d.rel_path.as_str());
                let there = time_or_zero(&log, p.as_str());
                let t = if own > there {
                    own
                } else {
                    there
                };
                push_time(&mut log, p.as_str(), t);
            },
            None => {},
        }
        n += 1;
    }
    assert(all.len() == rows@.len());
    log
}

fn seconds(minutes: i32) -> (r: u64)
    ensures
        r == in_seconds(minutes),
{
    if minutes > 0 {
        minutes as u64 * 60
    } else {
        0
    }
}

proof fn lemma_record_front(log: Seq<(Seq<char>, i32)>, e: (Seq<char>, i32), name: Seq<char>, n: int)
    requires
        0 <= n <= log.len(),
    ensures
        recorded(log.push(e), name, n) == recorded(log, name, n),
    decreases n,
{
    if n > 0 {
        lemma_record_front(log, e, name, n - 1);
    }
}

/// A record changes what is recorded under its own name only.
proof fn lemma_record(log: Seq<(Seq<char>, i32)>, e: (Seq<char>, i32), name: Seq<char>)
    ensures
        recorded(log.push(e), name, log.push(e).len() as int) == (if e.0 == name {
            Some(e.1)
        } else {
            recorded(log, name, log.len() as int)
        }),
{
    lemma_record_front(log, e, name, log.len() as int);
}

/// A store's directories as the adapters see them.
pub fn folded_dirs(store: &FsPath, dirs: Vec<DirRollup>) -> (r: Vec<FoldedDir>)
    requires
        totals_fit(rollups_view(dirs@)),
    ensures
        dirs_view(r@) == folded(store@, rollups_view(dirs@)),
{
    let mut rows = dirs;
    aggregate_dir_totals(&mut rows);
    let ghost up = rollups_view(rows@);
    let ghost want = folded(store@, rollups_view(dirs@));
    let log = record_times(&rows);
    let mut out: Vec<FoldedDir> = Vec::new();
    let mut i: usize = 0;
    assert(up.len() == rows@.len());
    assert(log_view(log@).len() == log@.len());
    assert(dirs_view(out@) =~= want.take(0));
    while i < rows.len()
        invariant
            i <= rows@.len(),
            up == rollups_view(rows@),
            up.len() == rows@.len(),
            want == Seq::new(up.len(), |i: int| folded_dir(store@, up[i], newest(up, up[i].rel_path))),
            log_view(log@) == all_times(up),
            log_view(log@).len() == log@.len(),
            dirs_view(out@) == want.take(i as int),
        decreases rows@.len() - i,
    {
        let d = &rows[i];
        assert(up[i as int] == d@);
        let time = time_or_zero(&log, d.rel_path.as_str());
        let f = FoldedDir {
            path: if d.rel_path.as_str().is_empty() {
                store.copy()
            } else {
                store.join(d.rel_path.as_str())
            },
            allocated_total: d.allocated_total,
            mtime_max: seconds(time),
            complete: d.complete,
        };
        let ghost fm = f@;
        let ghost prior = out@;
        out.push(f);
        i += 1;
        assert(dirs_view(out@) =~= dirs_view(prior).push(fm));
        assert(dirs_view(out@) =~= want.take(i as int));
    }
    assert(want.take(i as int) =~= want);
    out
}

// ---------------------------------------------------------------------
// Laws
// ---------------------------------------------------------------------

/// Whether rows name each other as a tree's directories do: the root has the
/// empty name and lies in nothing, and every other directory lies in the root
/// or in one with fewer separators.
pub open spec fn nested(rows: Seq<RollupModel>) -> bool {
    &&& rows.len() <= usize::MAX
    &&& forall|i: int| 0 <= i < rows.len() ==> #[trigger] row_nested(rows[i])
}

pub open spec fn row_nested(row: RollupModel) -> bool {
    &&& row.rel_path.len() <= u64::MAX
    &&& (row.parent_rel_path matches Some(p) ==> {
        &&& row.rel_path.len() > 0
        &&& (p.len() == 0 || depth(p) < depth(row.rel_path))
    })
}

/// Of two rows in the order, the later one is no deeper.
proof fn lemma_order_depth(rows: Seq<RollupModel>, a: int, b: int)
    requires
        nested(rows),
        0 <= a < b < rows.len(),
    ensures
        depth(rows[deepest_first(rows)[b] as int].rel_path) <= depth(rows[deepest_first(rows)[a] as int].rel_path),
        deepest_first(rows)[a] != deepest_first(rows)[b],
        deepest_first(rows).len() == rows.len(),
        0 <= deepest_first(rows)[a] < rows.len(),
        0 <= deepest_first(rows)[b] < rows.len(),
{
    let keys = depth_keys(rows);
    lemma_stable_places(keys);
    let order = deepest_first(rows);
    let x = order[a] as int;
    let y = order[b] as int;
    assert(before(keys, order[a] as int, order[b] as int));
    assert(row_nested(rows[x]));
    assert(row_nested(rows[y]));
    lemma_slashes(rows[x].rel_path, rows[x].rel_path.len() as int);
    lemma_slashes(rows[y].rel_path, rows[y].rel_path.len() as int);
    let dx = depth(rows[x].rel_path) as u64;
    let dy = depth(rows[y].rel_path) as u64;
    law_number_keys_order_numbers(dx, dy);
    if x == y {
        lemma_lex_irreflexive(keys[x]);
    }
    if keys[x] == keys[y] {
        law_number_keys_order_numbers(dy, dx);
        lemma_lex_irreflexive(keys[x]);
    }
}

proof fn lemma_times_grow(rows: Seq<RollupModel>, name: Seq<char>, a: int, b: int)
    requires
        0 <= a <= b,
    ensures
        or_zero(
            recorded(
                raised_upto(rows, deepest_first(rows), a),
                name,
                raised_upto(rows, deepest_first(rows), a).len() as int,
            ),
        ) <= or_zero(
            recorded(
                raised_upto(rows, deepest_first(rows), b),
                name,
                raised_upto(rows, deepest_first(rows), b).len() as int,
            ),
        ),
    decreases b,
{
    if a < b {
        lemma_times_grow(rows, name, a, b - 1);
        lemma_raise(raised_upto(rows, deepest_first(rows), b - 1), rows[deepest_first(rows)[b - 1] as int], name);
    }
}

proof fn lemma_raise(log: Seq<(Seq<char>, i32)>, row: RollupModel, name: Seq<char>)
    ensures
        or_zero(recorded(raise(log, row), name, raise(log, row).len() as int)) >= or_zero(
            recorded(log, name, log.len() as int),
        ),
        row.parent_rel_path != Some(name) ==> recorded(raise(log, row), name, raise(log, row).len() as int) == recorded(
            log,
            name,
            log.len() as int,
        ),
        row.parent_rel_path == Some(name) ==> or_zero(
            recorded(raise(log, row), name, raise(log, row).len() as int),
        ) >= or_zero(recorded(log, row.rel_path, log.len() as int)),
{
    if row.parent_rel_path is Some {
        let p = row.parent_rel_path->0;
        let own = or_zero(recorded(log, row.rel_path, log.len() as int));
        let there = or_zero(recorded(log, p, log.len() as int));
        lemma_record(log, (p, later(there, own)), name);
    }
}

/// Nothing is recorded for a row once it has been passed.
proof fn lemma_times_settle(rows: Seq<RollupModel>, k: int, n: int)
    requires
        nested(rows),
        0 <= k < n <= rows.len(),
        rows[deepest_first(rows)[k] as int].parent_rel_path is Some,
    ensures
        recorded(
            raised_upto(rows, deepest_first(rows), n),
            rows[deepest_first(rows)[k] as int].rel_path,
            raised_upto(rows, deepest_first(rows), n).len() as int,
        ) == recorded(
            raised_upto(rows, deepest_first(rows), k),
            rows[deepest_first(rows)[k] as int].rel_path,
            raised_upto(rows, deepest_first(rows), k).len() as int,
        ),
    decreases n,
{
    lemma_stable_places(depth_keys(rows));
    let order = deepest_first(rows);
    let row = rows[order[k] as int];
    assert(0 <= order[k] < rows.len());
    assert(row_nested(row));
    let last = rows[order[n - 1] as int];
    assert(0 <= order[n - 1] < rows.len());
    assert(row_nested(last));
    lemma_raise(raised_upto(rows, order, n - 1), last, row.rel_path);
    if n - 1 > k {
        lemma_times_settle(rows, k, n - 1);
        lemma_order_depth(rows, k, n - 1);
    }
}

/// A directory's newest modification is no older than that of a directory in it.
pub proof fn law_newest_rolls_up(rows: Seq<RollupModel>, i: int)
    requires
        nested(rows),
        0 <= i < rows.len(),
        rows[i].parent_rel_path is Some,
    ensures
        newest(rows, rows[i].parent_rel_path->0) >= newest(rows, rows[i].rel_path),
{
    let keys = depth_keys(rows);
    lemma_stable_places(keys);
    let order = deepest_first(rows);
    assert(place_in(order, i));
    let k = choose|k: int| 0 <= k < order.len() && order[k] == i;
    let p = rows[i].parent_rel_path->0;
    let n = rows.len() as int;
    lemma_times_settle(rows, k, n);
    lemma_raise(raised_upto(rows, order, k), rows[i], p);
    lemma_times_grow(rows, p, k + 1, n);
}

/// A directory's newest modification is no older than what lies directly in it.
pub proof fn law_newest_covers_its_own(rows: Seq<RollupModel>, i: int)
    requires
        0 <= i < rows.len(),
        forall|j: int| i < j < rows.len() ==> (#[trigger] rows[j]).rel_path != rows[i].rel_path,
    ensures
        newest(rows, rows[i].rel_path) >= rows[i].mod_time_min,
{
    lemma_own_time(rows, i, rows.len() as int);
    lemma_times_grow(rows, rows[i].rel_path, 0, rows.len() as int);
}

proof fn lemma_own_time(rows: Seq<RollupModel>, i: int, n: int)
    requires
        0 <= i < n <= rows.len(),
        forall|j: int| i < j < rows.len() ==> (#[trigger] rows[j]).rel_path != rows[i].rel_path,
    ensures
        recorded(own_times(rows), rows[i].rel_path, n) == Some(rows[i].mod_time_min),
    decreases n,
{
    if i < n - 1 {
        assert(rows[n - 1].rel_path != rows[i].rel_path);
        lemma_own_time(rows, i, n - 1);
    }
}

/// What the directories directly in a directory hold, of the first `n` in the
/// order.
pub open spec fn held_below(rows: Seq<RollupModel>, order: Seq<usize>, p: int, n: int) -> int
    decreases n,
{
    if n <= 0 {
        0
    } else {
        held_below(rows, order, p, n - 1) + (if parent_row(rows, order[n - 1] as int) == p {
            rows[order[n - 1] as int].allocated_total as int
        } else {
            0
        })
    }
}

/// Whether two lists of rows differ in totals and completeness only.
spec fn same_names(a: Seq<RollupModel>, b: Seq<RollupModel>) -> bool {
    &&& a.len() == b.len()
    &&& forall|i: int|
        0 <= i < a.len() ==> (#[trigger] a[i]).rel_path == b[i].rel_path && a[i].parent_rel_path == b[i].parent_rel_path
            && a[i].own_allocated == b[i].own_allocated
}

proof fn lemma_same_places(a: Seq<RollupModel>, b: Seq<RollupModel>, name: Seq<char>, n: int)
    requires
        same_names(a, b),
        0 <= n <= a.len(),
    ensures
        place_named(a, name, n) == place_named(b, name, n),
        -1 <= place_named(a, name, n) < n || n == 0 && place_named(a, name, n) == -1,
        place_named(a, name, n) >= 0 ==> a[place_named(a, name, n)].rel_path == name,
    decreases n,
{
    if n > 0 {
        lemma_same_places(a, b, name, n - 1);
        assert(a[n - 1].rel_path == b[n - 1].rel_path);
    }
}

proof fn lemma_folded_names(rows: Seq<RollupModel>, order: Seq<usize>, n: int)
    ensures
        same_names(folded_upto(rows, order, n), rows),
    decreases n,
{
    if n > 0 {
        lemma_folded_names(rows, order, n - 1);
    }
}

/// Changing what one row holds leaves the sum over the others as it is.
proof fn lemma_held_after(rows: Seq<RollupModel>, next: Seq<RollupModel>, order: Seq<usize>, q: int, p: int, n: int)
    requires
        same_names(rows, next),
        0 <= n <= order.len(),
        forall|k: int| 0 <= k < n ==> 0 <= #[trigger] order[k] < rows.len(),
        forall|k: int|
            0 <= k < n && order[k] == q ==> parent_row(rows, (#[trigger] order[k]) as int) == -1,
        forall|i: int| 0 <= i < rows.len() && i != q ==> (#[trigger] next[i]).allocated_total == rows[i].allocated_total,
        0 <= p,
    ensures
        held_below(next, order, p, n) == held_below(rows, order, p, n),
    decreases n,
{
    if n > 0 {
        lemma_held_after(rows, next, order, q, p, n - 1);
        let i = order[n - 1] as int;
        assert(0 <= order[n - 1] < rows.len());
        if rows[i].parent_rel_path is Some {
            lemma_same_places(next, rows, rows[i].parent_rel_path->0, rows.len() as int);
        }
        assert(parent_row(next, i) == parent_row(rows, i));
    }
}

proof fn lemma_held(rows: Seq<RollupModel>, p: int, n: int)
    requires
        nested(rows),
        totals_fit(rows),
        0 <= p < rows.len(),
        0 <= n <= rows.len(),
    ensures
        folded_upto(rows, deepest_first(rows), n)[p].allocated_total == rows[p].own_allocated + held_below(
            folded_upto(rows, deepest_first(rows), n),
            deepest_first(rows),
            p,
            n,
        ),
    decreases n,
{
    lemma_stable_places(depth_keys(rows));
    let order = deepest_first(rows);
    if n > 0 {
        lemma_held(rows, p, n - 1);
        let now = folded_upto(rows, order, n - 1);
        let next = folded_upto(rows, order, n);
        lemma_folded_names(rows, order, n - 1);
        lemma_folded_names(rows, order, n);
        assert(0 <= order[n - 1] < rows.len());
        let i = order[n - 1] as int;
        let q = parent_row(now, i);
        assert(now[i].rel_path == rows[i].rel_path && now[i].parent_rel_path == rows[i].parent_rel_path);
        if now[i].parent_rel_path is Some {
            lemma_same_places(now, rows, now[i].parent_rel_path->0, rows.len() as int);
            lemma_same_places(next, now, now[i].parent_rel_path->0, rows.len() as int);
        }
        assert(parent_row(next, i) == q);
        assert(row_fits(folded_upto(rows, order, n - 1), order[n - 1] as int));
        assert(row_nested(rows[i]));
        if 0 <= q {
            assert(now[q].rel_path == rows[q].rel_path);
            assert(row_nested(rows[q]));
            if q == i {
                assert(depth(rows[i].rel_path) < depth(rows[i].rel_path) || rows[i].rel_path.len() == 0);
            }
        }
        assert forall|k: int| 0 <= k < n - 1 && order[k] == q implies parent_row(now, (#[trigger] order[k]) as int)
            == -1 by {
            lemma_order_depth(rows, k, n - 1);
            assert(now[q].parent_rel_path == rows[q].parent_rel_path);
        }
        assert forall|j: int| 0 <= j < now.len() && j != q implies (#[trigger] next[j]).allocated_total
            == now[j].allocated_total by {}
        assert forall|k: int| 0 <= k < n - 1 implies 0 <= #[trigger] order[k] < now.len() by {}
        assert(same_names(now, next)) by {
            assert forall|j: int| 0 <= j < now.len() implies (#[trigger] now[j]).rel_path == next[j].rel_path
                && now[j].parent_rel_path == next[j].parent_rel_path && now[j].own_allocated
                == next[j].own_allocated by {
                assert(next[j].rel_path == rows[j].rel_path);
            }
        }
        lemma_held_after(now, next, order, q, p, n - 1);
    }
}

/// A directory's total is its own files and what the directories in it hold.
pub proof fn law_totals_add_up(rows: Seq<RollupModel>, p: int)
    requires
        nested(rows),
        totals_fit(rows),
        0 <= p < rows.len(),
    ensures
        rolled_up(rows)[p].allocated_total == rows[p].own_allocated + held_below(
            rolled_up(rows),
            deepest_first(rows),
            p,
            rows.len() as int,
        ),
{
    lemma_held(rows, p, rows.len() as int);
}

/// Whether a directory and each of the first `n` in the order that lies directly
/// in it was read to the end.
pub open spec fn read_below(rows: Seq<RollupModel>, order: Seq<usize>, p: int, n: int) -> bool {
    forall|k: int| 0 <= k < n && parent_row(rows, (#[trigger] order[k]) as int) == p ==> rows[order[k] as int].complete
}

proof fn lemma_complete(rows: Seq<RollupModel>, p: int, n: int)
    requires
        nested(rows),
        0 <= p < rows.len(),
        0 <= n <= rows.len(),
    ensures
        folded_upto(rows, deepest_first(rows), n)[p].complete <==> rows[p].complete && read_below(
            folded_upto(rows, deepest_first(rows), n),
            deepest_first(rows),
            p,
            n,
        ),
    decreases n,
{
    lemma_stable_places(depth_keys(rows));
    let order = deepest_first(rows);
    if n > 0 {
        lemma_complete(rows, p, n - 1);
        let now = folded_upto(rows, order, n - 1);
        let next = folded_upto(rows, order, n);
        lemma_folded_names(rows, order, n - 1);
        lemma_folded_names(rows, order, n);
        assert(0 <= order[n - 1] < rows.len());
        let i = order[n - 1] as int;
        let q = parent_row(now, i);
        assert(now[i].rel_path == rows[i].rel_path && now[i].parent_rel_path == rows[i].parent_rel_path);
        if now[i].parent_rel_path is Some {
            lemma_same_places(now, rows, now[i].parent_rel_path->0, rows.len() as int);
        }
        assert(row_nested(rows[i]));
        if 0 <= q {
            assert(now[q].rel_path == rows[q].rel_path);
            assert(row_nested(rows[q]));
        }
        assert(same_names(now, next)) by {
            assert forall|j: int| 0 <= j < now.len() implies (#[trigger] now[j]).rel_path == next[j].rel_path
                && now[j].parent_rel_path == next[j].parent_rel_path && now[j].own_allocated
                == next[j].own_allocated by {
                assert(next[j].rel_path == rows[j].rel_path);
            }
        }
        assert forall|k: int| 0 <= k < n implies parent_row(next, (#[trigger] order[k]) as int) == parent_row(
            now,
            order[k] as int,
        ) by {
            let j = order[k] as int;
            assert(0 <= order[k] < rows.len());
            assert(next[j].parent_rel_path == now[j].parent_rel_path);
            if now[j].parent_rel_path is Some {
                lemma_same_places(next, now, now[j].parent_rel_path->0, rows.len() as int);
            }
        }
        assert forall|k: int| 0 <= k < n - 1 && parent_row(now, (#[trigger] order[k]) as int) == p implies next[order[k] as int]
            == now[order[k] as int] by {
            assert(0 <= order[k] < rows.len());
            if order[k] == q {
                lemma_order_depth(rows, k, n - 1);
                assert(now[q].parent_rel_path == rows[q].parent_rel_path);
                assert(parent_row(now, q) == -1);
            }
        }
        assert(i != q);
        assert(next[i] == now[i]);
        assert(read_below(next, order, p, n) <==> read_below(now, order, p, n - 1) && (q == p ==> now[i].complete)) by {
            if read_below(next, order, p, n) {
                assert forall|k: int|
                    0 <= k < n - 1 && parent_row(now, (#[trigger] order[k]) as int) == p implies now[order[k] as int].complete by {
                    assert(parent_row(next, order[k] as int) == p);
                    assert(next[order[k] as int] == now[order[k] as int]);
                }
                if q == p {
                    assert(parent_row(next, order[n - 1] as int) == p);
                }
            }
            if read_below(now, order, p, n - 1) && (q == p ==> now[i].complete) {
                assert forall|k: int|
                    0 <= k < n && parent_row(next, (#[trigger] order[k]) as int) == p implies next[order[k] as int].complete by {
                    if k < n - 1 {
                        assert(next[order[k] as int] == now[order[k] as int]);
                    }
                }
            }
        }
    }
}

/// A directory counts as read to the end just where it was, and each directory
/// directly in it was.
pub proof fn law_a_directory_is_whole_with_what_is_in_it(rows: Seq<RollupModel>, p: int)
    requires
        nested(rows),
        0 <= p < rows.len(),
    ensures
        rolled_up(rows)[p].complete <==> rows[p].complete && read_below(
            rolled_up(rows),
            deepest_first(rows),
            p,
            rows.len() as int,
        ),
{
    lemma_complete(rows, p, rows.len() as int);
}

} // verus!
