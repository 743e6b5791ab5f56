//! Lexicographic order on sequences of numbers, and stable sorting by it.

use vstd::prelude::*;

verus! {

/// Whether `a` comes strictly before `b` in lexicographic order.
pub open spec fn lex_less(a: Seq<u32>, b: Seq<u32>) -> bool
    decreases a.len(),
{
    if b.len() == 0 {
        false
    } else if a.len() == 0 {
        true
    } else if a[0] != b[0] {
        a[0] < b[0]
    } else {
        lex_less(a.drop_first(), b.drop_first())
    }
}

pub proof fn lemma_lex_irreflexive(a: Seq<u32>)
    ensures
        !lex_less(a, a),
    decreases a.len(),
{
    if a.len() > 0 {
        lemma_lex_irreflexive(a.drop_first());
    }
}

pub proof fn lemma_lex_transitive(a: Seq<u32>, b: Seq<u32>, c: Seq<u32>)
    requires
        lex_less(a, b),
        lex_less(b, c),
    ensures
        lex_less(a, c),
    decreases a.len(),
{
    if a.len() > 0 && a[0] == b[0] && b[0] == c[0] {
        lemma_lex_transitive(a.drop_first(), b.drop_first(), c.drop_first());
    }
}

pub proof fn lemma_lex_total(a: Seq<u32>, b: Seq<u32>)
    ensures
        lex_less(a, b) || lex_less(b, a) || a == b,
    decreases a.len(),
{
    if a.len() == 0 || b.len() == 0 {
        assert(a.len() == 0 && b.len() == 0 ==> a =~= b);
    } else if a[0] == b[0] {
        lemma_lex_total(a.drop_first(), b.drop_first());
        if a.drop_first() == b.drop_first() {
            assert(a =~= seq![a[0]] + a.drop_first());
            assert(b =~= seq![b[0]] + b.drop_first());
        }
    }
}

pub proof fn lemma_lex_asymmetric(a: Seq<u32>, b: Seq<u32>)
    requires
        lex_less(a, b),
    ensures
        !lex_less(b, a),
        a != b,
{
    if lex_less(b, a) {
        lemma_lex_transitive(a, b, a);
    }
    lemma_lex_irreflexive(a);
}

pub fn lex_before(a: &Vec<u32>, b: &Vec<u32>) -> (r: bool)
    ensures
        r == lex_less(a@, b@),
{
    let mut i: usize = 0;
    assert(a@.skip(0) =~= a@);
    assert(b@.skip(0) =~= b@);
    loop
        invariant
            i <= a@.len(),
            i <= b@.len(),
            lex_less(a@, b@) == lex_less(a@.skip(i as int), b@.skip(i as int)),
        decreases a@.len() - i,
    {
        if i >= b.len() {
            return false;
        }
        if i >= a.len() {
            return true;
        }
        assert(a@.skip(i as int)[0] == a@[i as int]);
        assert(b@.skip(i as int)[0] == b@[i as int]);
        if a[i] != b[i] {
            return a[i] < b[i];
        }
        assert(a@.skip(i as int).drop_first() =~= a@.skip(i + 1));
        assert(b@.skip(i as int).drop_first() =~= b@.skip(i + 1));
        i += 1;
    }
}

// ---------------------------------------------------------------------
// Stable order
// ---------------------------------------------------------------------

pub open spec fn keys_of(keys: Seq<Vec<u32>>) -> Seq<Seq<u32>> {
    Seq::new(keys.len(), |i: int| keys[i]@)
}

/// Whether item `a` comes before item `b`: by key, and where the keys are
/// equal by place.
pub open spec fn before(keys: Seq<Seq<u32>>, a: int, b: int) -> bool {
    lex_less(keys[a], keys[b]) || (keys[a] == keys[b] && a < b)
}

/// Whether `order` lists every place of `keys` once, in stable key order.
pub open spec fn stable_order(keys: Seq<Seq<u32>>, order: Seq<usize>) -> bool {
    &&& order.len() == keys.len()
    &&& forall|i: int| 0 <= i < order.len() ==> 0 <= #[trigger] order[i] < keys.len()
    &&& forall|i: int, j: int|
        0 <= i < j < order.len() ==> before(keys, #[trigger] order[i] as int, #[trigger] order[j] as int)
    &&& forall|k: int| 0 <= k < keys.len() ==> #[trigger] place_in(order, k)
}

pub open spec fn place_in(order: Seq<usize>, k: int) -> bool {
    exists|i: int| 0 <= i < order.len() && order[i] == k
}

proof fn lemma_before_transitive(keys: Seq<Seq<u32>>, a: int, b: int, c: int)
    requires
        before(keys, a, b),
        before(keys, b, c),
    ensures
        before(keys, a, c),
{
    if lex_less(keys[a], keys[b]) && lex_less(keys[b], keys[c]) {
        lemma_lex_transitive(keys[a], keys[b], keys[c]);
    }
}

/// The places of `keys` in stable key order.
pub open spec fn stable_places(keys: Seq<Seq<u32>>) -> Seq<usize> {
    choose|order: Seq<usize>| stable_order(keys, order)
}

/// There is only one stable order of given keys.
pub proof fn law_stable_order_is_unique(keys: Seq<Seq<u32>>, a: Seq<usize>, b: Seq<usize>)
    requires
        stable_order(keys, a),
        stable_order(keys, b),
    ensures
        a == b,
{
    assert forall|i: int| 0 <= i < a.len() implies a[i] == b[i] by {
        lemma_same_place(keys, a, b, i);
    }
    assert(a =~= b);
}

proof fn lemma_same_place(keys: Seq<Seq<u32>>, a: Seq<usize>, b: Seq<usize>, i: int)
    requires
        stable_order(keys, a),
        stable_order(keys, b),
        0 <= i < keys.len(),
    ensures
        a[i] == b[i],
        forall|j: int| 0 <= j < i ==> a[j] == b[j],
    decreases i,
{
    if i > 0 {
        lemma_same_place(keys, a, b, i - 1);
    }
    if a[i] != b[i] {
        lemma_later(keys, a, b, i);
        lemma_later(keys, b, a, i);
        let x = a[i] as int;
        let y = b[i] as int;
        if lex_less(keys[x], keys[y]) {
            lemma_lex_asymmetric(keys[x], keys[y]);
        } else {
            lemma_lex_irreflexive(keys[x]);
        }
    }
}

/// Where two orders first differ, what the one has there comes before what
/// the other has.
proof fn lemma_later(keys: Seq<Seq<u32>>, a: Seq<usize>, b: Seq<usize>, i: int)
    requires
        stable_order(keys, a),
        stable_order(keys, b),
        0 <= i < keys.len(),
        a[i] != b[i],
        forall|j: int| 0 <= j < i ==> a[j] == b[j],
    ensures
        before(keys, a[i] as int, b[i] as int),
{
    assert(place_in(a, b[i] as int));
    let j = choose|j: int| 0 <= j < a.len() && a[j] == b[i] as int;
    if j < i {
        assert(before(keys, b[j] as int, b[i] as int));
        lemma_lex_irreflexive(keys[b[i] as int]);
    }
}

/// The places of `keys` in stable key order are such an order.
pub proof fn lemma_stable_places(keys: Seq<Seq<u32>>)
    requires
        keys.len() <= usize::MAX,
    ensures
        stable_order(keys, stable_places(keys)),
{
    let order = lemma_some_order(keys, keys.len() as int);
    assert(keys.take(keys.len() as int) =~= keys);
    assert(stable_order(keys, order));
}

proof fn lemma_some_order(keys: Seq<Seq<u32>>, n: int) -> (order: Seq<usize>)
    requires
        0 <= n <= keys.len() <= usize::MAX,
    ensures
        stable_order(keys.take(n), order),
    decreases n,
{
    if n == 0 {
        Seq::empty()
    } else {
        let prior = lemma_some_order(keys, n - 1);
        let at = lemma_some_place(keys, prior, n - 1, prior.len() as int);
        lemma_insert(keys, prior, n - 1, at);
        prior.insert(at, (n - 1) as usize)
    }
}

proof fn lemma_some_place(all: Seq<Seq<u32>>, prior: Seq<usize>, n: int, at: int) -> (r: int)
    requires
        0 <= at <= prior.len(),
        forall|i: int| at <= i < prior.len() ==> lex_less(all[n], all[#[trigger] prior[i] as int]),
    ensures
        0 <= r <= prior.len(),
        forall|i: int| r <= i < prior.len() ==> lex_less(all[n], all[#[trigger] prior[i] as int]),
        r > 0 ==> !lex_less(all[n], all[prior[r - 1] as int]),
    decreases at,
{
    if at > 0 && lex_less(all[n], all[prior[at - 1] as int]) {
        lemma_some_place(all, prior, n, at - 1)
    } else {
        at
    }
}

/// The items of `s` at the given places.
pub open spec fn at_places<T>(s: Seq<T>, places: Seq<usize>) -> Seq<T> {
    Seq::new(places.len(), |i: int| s[places[i] as int])
}

/// The high and low halves of a number, which order as it does.
pub open spec fn rising_key(n: u64) -> Seq<u32> {
    seq![(n / 0x1_0000_0000) as u32, (n % 0x1_0000_0000) as u32]
}

/// A key that orders numbers the largest first.
pub open spec fn falling_key(n: u64) -> Seq<u32> {
    rising_key((u64::MAX - n) as u64)
}

pub fn push_rising(key: &mut Vec<u32>, n: u64)
    ensures
        final(key)@ == old(key)@ + rising_key(n),
{
    key.push((n / 0x1_0000_0000) as u32);
    key.push((n % 0x1_0000_0000) as u32);
    assert(key@ =~= old(key)@ + rising_key(n));
}

pub fn push_falling(key: &mut Vec<u32>, n: u64)
    ensures
        final(key)@ == old(key)@ + falling_key(n),
{
    push_rising(key, u64::MAX - n);
}

/// Keys of numbers order as the numbers do.
pub proof fn law_number_keys_order_numbers(a: u64, b: u64)
    ensures
        lex_less(rising_key(a), rising_key(b)) <==> a < b,
        lex_less(falling_key(a), falling_key(b)) <==> a > b,
        rising_key(a) == rising_key(b) <==> a == b,
{
    lemma_rising(a, b);
    lemma_rising((u64::MAX - a) as u64, (u64::MAX - b) as u64);
}

proof fn lemma_rising(a: u64, b: u64)
    ensures
        lex_less(rising_key(a), rising_key(b)) <==> a < b,
        rising_key(a) == rising_key(b) <==> a == b,
{
    let x = rising_key(a);
    let y = rising_key(b);
    assert(x[0] == a / 0x1_0000_0000 && x[1] == a % 0x1_0000_0000);
    assert(y[0] == b / 0x1_0000_0000 && y[1] == b % 0x1_0000_0000);
    assert(x.drop_first() =~= seq![x[1]]);
    assert(y.drop_first() =~= seq![y[1]]);
    assert(x.drop_first().drop_first() =~= Seq::<u32>::empty());
    assert(y.drop_first().drop_first() =~= Seq::<u32>::empty());
    reveal_with_fuel(lex_less, 3);
    if x == y {
        assert(x[0] == y[0] && x[1] == y[1]);
    }
}

/// Keys of equal length put before others decide first.
pub proof fn lemma_lex_concat(a: Seq<u32>, b: Seq<u32>, x: Seq<u32>, y: Seq<u32>)
    requires
        a.len() == b.len(),
    ensures
        lex_less(a + x, b + y) <==> lex_less(a, b) || (a == b && lex_less(x, y)),
        a + x == b + y ==> a == b && x == y,
    decreases a.len(),
{
    if a + x == b + y {
        assert(a =~= (a + x).take(a.len() as int));
        assert(b =~= (b + y).take(b.len() as int));
        assert(x =~= (a + x).skip(a.len() as int));
        assert(y =~= (b + y).skip(b.len() as int));
    }
    if a.len() == 0 {
        assert(a + x =~= x);
        assert(b + y =~= y);
        assert(a =~= b);
        lemma_lex_irreflexive(a);
    } else {
        let a1 = a.drop_first();
        let b1 = b.drop_first();
        lemma_lex_concat(a1, b1, x, y);
        assert((a + x).drop_first() =~= a1 + x);
        assert((b + y).drop_first() =~= b1 + y);
        assert((a + x)[0] == a[0]);
        assert((b + y)[0] == b[0]);
        if a[0] == b[0] && a1 == b1 {
            assert(a =~= seq![a[0]] + a1);
            assert(b =~= seq![b[0]] + b1);
        }
    }
}

/// The places of `keys` in stable key order.
pub fn sort_places(keys: &Vec<Vec<u32>>) -> (order: Vec<usize>)
    ensures
        stable_order(keys_of(keys@), order@),
        order@ == stable_places(keys_of(keys@)),
{
    let mut order: Vec<usize> = Vec::new();
    let mut n: usize = 0;
    while n < keys.len()
        invariant
            n <= keys@.len(),
            stable_order(keys_of(keys@).take(n as int), order@),
        decreases keys@.len() - n,
    {
        let ghost all = keys_of(keys@);
        let ghost done = all.take(n as int);
        let ghost next = all.take(n + 1);
        let ghost prior = order@;
        let mut at: usize = order.len();
        while at > 0 && lex_before(&keys[n], &keys[order[at - 1]])
            invariant
                at <= order@.len(),
                order@ == prior,
                n < keys@.len(),
                all == keys_of(keys@),
                done == all.take(n as int),
                stable_order(done, prior),
                forall|i: int| at <= i < prior.len() ==> lex_less(all[n as int], all[#[trigger] prior[i] as int]),
            decreases at,
        {
            assert(prior[at - 1] < done.len());
            at -= 1;
        }
        proof {
            if at > 0 {
                assert(prior[at - 1] < done.len());
                assert(all[prior[at - 1] as int] == keys@[prior[at - 1] as int]@);
                lemma_lex_total(all[n as int], all[prior[at - 1] as int]);
            }
            lemma_insert(all, prior, n as int, at as int);
        }
        order.insert(at, n);
        n += 1;
    }
    assert(keys_of(keys@).take(n as int) =~= keys_of(keys@));
    proof {
        law_stable_order_is_unique(keys_of(keys@), order@, stable_places(keys_of(keys@)));
    }
    order
}

proof fn lemma_insert(all: Seq<Seq<u32>>, prior: Seq<usize>, n: int, at: int)
    requires
        0 <= n < all.len() <= usize::MAX,
        0 <= at <= prior.len(),
        stable_order(all.take(n), prior),
        forall|i: int| at <= i < prior.len() ==> lex_less(all[n], all[#[trigger] prior[i] as int]),
        at > 0 ==> !lex_less(all[n], all[prior[at - 1] as int]),
    ensures
        stable_order(all.take(n + 1), prior.insert(at, n as usize)),
{
    let done = all.take(n);
    let next = all.take(n + 1);
    let out = prior.insert(at, n as usize);
    assert forall|i: int| 0 <= i < out.len() implies 0 <= #[trigger] out[i] < next.len() by {
        if i < at {
            assert(out[i] == prior[i]);
        } else if i > at {
            assert(out[i] == prior[i - 1]);
        }
    }
    // everything left of the insertion point is not after the new item
    if at > 0 {
        lemma_lex_total(all[n], all[prior[at - 1] as int]);
    }
    assert forall|i: int| 0 <= i < at implies before(next, #[trigger] prior[i] as int, n) by {
        assert(prior[i] < done.len());
        assert(prior[at - 1] < done.len());
        if i < at - 1 {
            assert(before(done, prior[i] as int, prior[at - 1] as int));
            assert(before(next, prior[i] as int, prior[at - 1] as int));
            lemma_before_transitive(next, prior[i] as int, prior[at - 1] as int, n);
        }
    }
    assert forall|i: int, j: int| 0 <= i < j < out.len() implies before(
        next,
        #[trigger] out[i] as int,
        #[trigger] out[j] as int,
    ) by {
        let a = if i < at { i } else { i - 1 };
        let b = if j < at { j } else { j - 1 };
        if i != at && j != at {
            assert(out[i] == prior[a]);
            assert(out[j] == prior[b]);
            assert(prior[a] < done.len() && prior[b] < done.len());
            assert(before(done, prior[a] as int, prior[b] as int));
        } else if i == at {
            assert(out[j] == prior[b]);
            assert(prior[b] < done.len());
        } else {
            assert(out[i] == prior[a]);
        }
    }
    assert forall|k: int| 0 <= k < next.len() implies #[trigger] place_in(out, k) by {
        if k == n {
            assert(out[at] == k);
        } else {
            assert(place_in(prior, k));
            let i = choose|i: int| 0 <= i < prior.len() && prior[i] == k;
            let j = if i < at { i } else { i + 1 };
            assert(out[j] == prior[i]);
        }
    }
}

} // verus!
