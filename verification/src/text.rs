//! Text: comparison, slicing, splitting and joining of strings, each stated
//! over the sequence of characters a string holds.

use crate::order::{at_places, keys_of, sort_places, stable_order, stable_places};
use vstd::prelude::*;

verus! {

/// `str`'s `==`, which compares the characters of the two strings.
pub assume_specification[ <str as PartialEq>::eq ](a: &str, b: &str) -> (r: bool)
    ensures
        r == (a@ == b@),
;

/// `String::push`, which appends one character and changes nothing else.
pub assume_specification[ String::push ](s: &mut String, c: char)
    ensures
        final(s)@ == old(s)@.push(c),
;

/// The texts a list of strings holds, in order.
pub open spec fn texts(s: Seq<String>) -> Seq<Seq<char>> {
    Seq::new(s.len(), |i: int| s[i]@)
}

/// The text an optional string holds.
pub open spec fn opt_text(o: Option<String>) -> Option<Seq<char>> {
    match o {
        Some(s) => Some(s@),
        None => None,
    }
}

pub fn same(a: &str, b: &str) -> (r: bool)
    ensures
        r == (a@ == b@),
{
    *a == *b
}

/// Whether `o` holds exactly the text `b`.
pub fn opt_is(o: &Option<String>, b: &str) -> (r: bool)
    ensures
        r == (opt_text(*o) == Some(b@)),
{
    match o {
        Some(s) => same(s.as_str(), b),
        None => false,
    }
}

pub fn copy(s: &str) -> (r: String)
    ensures
        r@ == s@,
{
    s.to_owned()
}

pub fn copy_opt(o: &Option<String>) -> (r: Option<String>)
    ensures
        opt_text(r) == opt_text(*o),
{
    match o {
        Some(s) => Some(s.clone()),
        None => None,
    }
}

pub fn copy_all(v: &Vec<String>) -> (r: Vec<String>)
    ensures
        texts(r@) == texts(v@),
{
    let mut out: Vec<String> = Vec::new();
    let mut i: usize = 0;
    while i < v.len()
        invariant
            i <= v@.len(),
            out@.len() == i,
            forall|k: int| 0 <= k < i ==> #[trigger] out@[k]@ == v@[k]@,
        decreases v@.len() - i,
    {
        out.push(v[i].clone());
        i += 1;
    }
    assert(texts(out@) =~= texts(v@));
    out
}

pub fn push_text(v: &mut Vec<String>, s: &str)
    ensures
        texts(final(v)@) == texts(old(v)@).push(s@),
{
    v.push(s.to_owned());
    assert(texts(v@) =~= texts(old(v)@).push(s@));
}

/// Appends copies of every text of `more`.
pub fn extend_texts(v: &mut Vec<String>, more: &Vec<String>)
    ensures
        texts(final(v)@) == texts(old(v)@) + texts(more@),
{
    let mut i: usize = 0;
    assert(texts(v@) =~= texts(old(v)@) + texts(more@).take(0));
    while i < more.len()
        invariant
            i <= more@.len(),
            texts(v@) == texts(old(v)@) + texts(more@).take(i as int),
        decreases more@.len() - i,
    {
        push_text(v, more[i].as_str());
        i += 1;
        assert(texts(more@).take(i as int) =~= texts(more@).take(i - 1).push(more@[i - 1]@));
        assert(texts(v@) =~= texts(old(v)@) + texts(more@).take(i as int));
    }
    assert(texts(more@).take(i as int) =~= texts(more@));
}

/// Whether `needle` is one of the texts of `v`.
pub fn holds_text(v: &Vec<String>, needle: &str) -> (r: bool)
    ensures
        r == texts(v@).contains(needle@),
{
    let mut i: usize = 0;
    while i < v.len()
        invariant
            i <= v@.len(),
            forall|k: int| 0 <= k < i ==> #[trigger] texts(v@)[k] != needle@,
        decreases v@.len() - i,
    {
        if same(v[i].as_str(), needle) {
            assert(texts(v@)[i as int] == needle@);
            return true;
        }
        i += 1;
    }
    false
}

// ---------------------------------------------------------------------
// Concatenation
// ---------------------------------------------------------------------

pub fn cat2(a: &str, b: &str) -> (r: String)
    ensures
        r@ == a@ + b@,
{
    let mut s = String::from_str(a);
    s.append(b);
    s
}

pub fn cat3(a: &str, b: &str, c: &str) -> (r: String)
    ensures
        r@ == a@ + b@ + c@,
{
    let mut s = String::from_str(a);
    s.append(b);
    s.append(c);
    s
}

pub fn cat4(a: &str, b: &str, c: &str, d: &str) -> (r: String)
    ensures
        r@ == a@ + b@ + c@ + d@,
{
    let mut s = cat3(a, b, c);
    s.append(d);
    s
}

pub fn cat5(a: &str, b: &str, c: &str, d: &str, e: &str) -> (r: String)
    ensures
        r@ == a@ + b@ + c@ + d@ + e@,
{
    let mut s = cat4(a, b, c, d);
    s.append(e);
    s
}

pub fn cat7(a: &str, b: &str, c: &str, d: &str, e: &str, f: &str, g: &str) -> (r: String)
    ensures
        r@ == a@ + b@ + c@ + d@ + e@ + f@ + g@,
{
    let mut s = cat5(a, b, c, d, e);
    s.append(f);
    s.append(g);
    s
}

pub fn cat6(a: &str, b: &str, c: &str, d: &str, e: &str, f: &str) -> (r: String)
    ensures
        r@ == a@ + b@ + c@ + d@ + e@ + f@,
{
    let mut s = cat5(a, b, c, d, e);
    s.append(f);
    s
}

pub fn cat8(a: &str, b: &str, c: &str, d: &str, e: &str, f: &str, g: &str, h: &str) -> (r: String)
    ensures
        r@ == a@ + b@ + c@ + d@ + e@ + f@ + g@ + h@,
{
    let mut s = cat7(a, b, c, d, e, f, g);
    s.append(h);
    s
}

/// The texts of `parts`, one after another with `sep` between each two.
pub open spec fn joined(parts: Seq<Seq<char>>, sep: Seq<char>) -> Seq<char>
    decreases parts.len(),
{
    if parts.len() == 0 {
        Seq::empty()
    } else if parts.len() == 1 {
        parts[0]
    } else {
        joined(parts.drop_last(), sep) + sep + parts.last()
    }
}

pub fn join_texts(parts: &Vec<String>, sep: &str) -> (r: String)
    ensures
        r@ == joined(texts(parts@), sep@),
{
    let mut out = String::new();
    let mut i: usize = 0;
    assert(texts(parts@).take(0) =~= Seq::<Seq<char>>::empty());
    while i < parts.len()
        invariant
            i <= parts@.len(),
            out@ == joined(texts(parts@).take(i as int), sep@),
        decreases parts@.len() - i,
    {
        let ghost before = texts(parts@).take(i as int);
        if i > 0 {
            out.append(sep);
        }
        out.append(parts[i].as_str());
        i += 1;
        let ghost now = texts(parts@).take(i as int);
        assert(now.drop_last() =~= before);
        assert(now.last() == parts@[i - 1]@);
        assert(out@ =~= joined(now, sep@));
    }
    assert(texts(parts@).take(i as int) =~= texts(parts@));
    out
}

// ---------------------------------------------------------------------
// Characters
// ---------------------------------------------------------------------

/// The characters of `s`, addressable by position.
pub fn chars_of(s: &str) -> (r: Vec<char>)
    ensures
        r@ == s@,
{
    let mut out: Vec<char> = Vec::new();
    for c in iter: s.chars()
        invariant
            iter.seq() == s@,
            out@ == s@.take(iter.index()),
    {
        out.push(c);
        assert(out@ =~= s@.take(iter.index() + 1));
    }
    assert(out@ =~= s@);
    out
}

/// The text made of the characters `from..to` of `v`.
pub fn text_of(v: &Vec<char>, from: usize, to: usize) -> (r: String)
    requires
        from <= to <= v@.len(),
    ensures
        r@ == v@.subrange(from as int, to as int),
{
    let mut s = String::new();
    let mut i: usize = from;
    assert(s@ =~= v@.subrange(from as int, from as int));
    while i < to
        invariant
            from <= i <= to <= v@.len(),
            s@ == v@.subrange(from as int, i as int),
        decreases to - i,
    {
        s.push(v[i]);
        i += 1;
        assert(s@ =~= v@.subrange(from as int, i as int));
    }
    s
}

/// The place of the first `c` at or after `from`, or the length.
pub open spec fn first_at(s: Seq<char>, c: char, from: int) -> int
    decreases s.len() - from,
{
    if from >= s.len() || from < 0 {
        s.len() as int
    } else if s[from] == c {
        from
    } else {
        first_at(s, c, from + 1)
    }
}

/// The place of the last `c` before `to`, or -1.
pub open spec fn last_at(s: Seq<char>, c: char, to: int) -> int
    decreases to,
{
    if to <= 0 || to > s.len() {
        -1
    } else if s[to - 1] == c {
        to - 1
    } else {
        last_at(s, c, to - 1)
    }
}

pub proof fn lemma_first_at(s: Seq<char>, c: char, from: int)
    requires
        0 <= from <= s.len(),
    ensures
        from <= first_at(s, c, from) <= s.len(),
        first_at(s, c, from) < s.len() ==> s[first_at(s, c, from)] == c,
        forall|k: int| from <= k < first_at(s, c, from) ==> s[k] != c,
    decreases s.len() - from,
{
    if from < s.len() && s[from] != c {
        lemma_first_at(s, c, from + 1);
    }
}

pub proof fn lemma_last_at(s: Seq<char>, c: char, to: int)
    requires
        0 <= to <= s.len(),
    ensures
        -1 <= last_at(s, c, to) < to || (to == 0 && last_at(s, c, to) == -1),
        last_at(s, c, to) >= 0 ==> s[last_at(s, c, to)] == c,
        forall|k: int| last_at(s, c, to) < k < to ==> s[k] != c,
    decreases to,
{
    if to > 0 && s[to - 1] != c {
        lemma_last_at(s, c, to - 1);
    }
}

/// The place of the first `c` in `v` at or after `from`, or the length.
pub fn find_from(v: &Vec<char>, c: char, from: usize) -> (r: usize)
    requires
        from <= v@.len(),
    ensures
        r == first_at(v@, c, from as int),
        from <= r <= v@.len(),
        r < v@.len() ==> v@[r as int] == c,
{
    proof {
        lemma_first_at(v@, c, from as int);
    }
    let mut i: usize = from;
    while i < v.len()
        invariant
            from <= i <= v@.len(),
            first_at(v@, c, from as int) == first_at(v@, c, i as int),
        ensures
            i == first_at(v@, c, from as int),
        decreases v@.len() - i,
    {
        if v[i] == c {
            break;
        }
        i += 1;
    }
    i
}

/// The place of the last `c` in `v`, when there is one.
pub fn find_last(v: &Vec<char>, c: char) -> (r: Option<usize>)
    ensures
        r is None <==> last_at(v@, c, v@.len() as int) < 0,
        r is Some ==> r->0 == last_at(v@, c, v@.len() as int) && r->0 < v@.len(),
{
    proof {
        lemma_last_at(v@, c, v@.len() as int);
    }
    let mut i: usize = v.len();
    while i > 0
        invariant
            i <= v@.len(),
            last_at(v@, c, v@.len() as int) == last_at(v@, c, i as int),
        decreases i,
    {
        if v[i - 1] == c {
            return Some(i - 1);
        }
        i -= 1;
    }
    None
}

pub fn has_char(s: &str, c: char) -> (r: bool)
    ensures
        r == s@.contains(c),
{
    let v = chars_of(s);
    let i: usize = find_from(&v, c, 0);
    proof {
        lemma_first_at(v@, c, 0);
    }
    i < v.len()
}

// ---------------------------------------------------------------------
// Prefixes and suffixes
// ---------------------------------------------------------------------

pub open spec fn begins(s: Seq<char>, p: Seq<char>) -> bool {
    s.len() >= p.len() && s.take(p.len() as int) == p
}

pub open spec fn finishes(s: Seq<char>, p: Seq<char>) -> bool {
    s.len() >= p.len() && s.skip(s.len() - p.len()) == p
}

/// What follows `p`, when the text begins with it.
pub open spec fn after_prefix(s: Seq<char>, p: Seq<char>) -> Option<Seq<char>> {
    if begins(s, p) {
        Some(s.skip(p.len() as int))
    } else {
        None
    }
}

/// What precedes `p`, when the text ends with it.
pub open spec fn before_suffix(s: Seq<char>, p: Seq<char>) -> Option<Seq<char>> {
    if finishes(s, p) {
        Some(s.take(s.len() - p.len()))
    } else {
        None
    }
}

/// Whether the characters of `v` from `at` on begin with `p`.
pub fn matches_at(v: &Vec<char>, at: usize, p: &Vec<char>) -> (r: bool)
    requires
        at <= v@.len(),
    ensures
        r == begins(v@.skip(at as int), p@),
{
    let n: usize = v.len();
    if n - at < p.len() {
        return false;
    }
    let mut i: usize = 0;
    while i < p.len()
        invariant
            i <= p@.len(),
            n == v@.len(),
            at + p@.len() <= n,
            forall|k: int| 0 <= k < i ==> v@[at + k] == p@[k],
        decreases p@.len() - i,
    {
        if v[at + i] != p[i] {
            assert(v@.skip(at as int).take(p@.len() as int)[i as int] == v@[at + i]);
            return false;
        }
        i += 1;
    }
    assert(v@.skip(at as int).take(p@.len() as int) =~= p@);
    true
}

pub fn starts(s: &str, p: &str) -> (r: bool)
    ensures
        r == begins(s@, p@),
{
    let v = chars_of(s);
    let w = chars_of(p);
    assert(v@.skip(0) =~= v@);
    matches_at(&v, 0, &w)
}

pub fn ends(s: &str, p: &str) -> (r: bool)
    ensures
        r == finishes(s@, p@),
{
    let v = chars_of(s);
    let w = chars_of(p);
    if v.len() < w.len() {
        return false;
    }
    let ghost tail = v@.skip(v@.len() - w@.len());
    assert(tail.take(w@.len() as int) =~= tail);
    matches_at(&v, v.len() - w.len(), &w)
}

pub fn drop_prefix(s: &str, p: &str) -> (r: Option<String>)
    ensures
        opt_text(r) == after_prefix(s@, p@),
{
    if starts(s, p) {
        let v = chars_of(s);
        let n: usize = p.unicode_len();
        let out = text_of(&v, n, v.len());
        assert(out@ =~= s@.skip(p@.len() as int));
        Some(out)
    } else {
        None
    }
}

pub fn drop_suffix(s: &str, p: &str) -> (r: Option<String>)
    ensures
        opt_text(r) == before_suffix(s@, p@),
{
    if ends(s, p) {
        let v = chars_of(s);
        let n: usize = p.unicode_len();
        let out = text_of(&v, 0, v.len() - n);
        assert(out@ =~= s@.take(s@.len() - p@.len()));
        Some(out)
    } else {
        None
    }
}

/// The text with every trailing repetition of the non-empty `p` removed.
pub open spec fn without_suffixes(s: Seq<char>, p: Seq<char>) -> Seq<char>
    decreases s.len(),
{
    if p.len() > 0 && finishes(s, p) {
        without_suffixes(s.take(s.len() - p.len()), p)
    } else {
        s
    }
}

/// The text with every leading repetition of the non-empty `p` removed.
pub open spec fn without_prefixes(s: Seq<char>, p: Seq<char>) -> Seq<char>
    decreases s.len(),
{
    if p.len() > 0 && begins(s, p) {
        without_prefixes(s.skip(p.len() as int), p)
    } else {
        s
    }
}

pub fn trim_prefixes(s: &str, p: &str) -> (r: String)
    ensures
        r@ == without_prefixes(s@, p@),
{
    let n: usize = p.unicode_len();
    let mut out = s.to_owned();
    if n == 0 {
        return out;
    }
    while starts(out.as_str(), p)
        invariant
            n == p@.len(),
            n > 0,
            without_prefixes(out@, p@) == without_prefixes(s@, p@),
        decreases out@.len(),
    {
        let v = chars_of(out.as_str());
        let cut = text_of(&v, n, v.len());
        assert(cut@ =~= out@.skip(p@.len() as int));
        out = cut;
    }
    out
}

pub fn trim_suffixes(s: &str, p: &str) -> (r: String)
    ensures
        r@ == without_suffixes(s@, p@),
{
    let n: usize = p.unicode_len();
    let mut out = s.to_owned();
    if n == 0 {
        return out;
    }
    while ends(out.as_str(), p)
        invariant
            n == p@.len(),
            n > 0,
            without_suffixes(out@, p@) == without_suffixes(s@, p@),
        decreases out@.len(),
    {
        let v = chars_of(out.as_str());
        let cut = text_of(&v, 0, v.len() - n);
        assert(cut@ =~= out@.take(out@.len() - p@.len()));
        out = cut;
    }
    out
}

// ---------------------------------------------------------------------
// Splitting
// ---------------------------------------------------------------------

/// The pieces between the occurrences of `c`: one more than there are `c`s.
pub open spec fn split(s: Seq<char>, c: char) -> Seq<Seq<char>>
    decreases s.len(),
    when true
    via split_decreases
{
    let i = first_at(s, c, 0);
    if i >= s.len() {
        seq![s]
    } else {
        seq![s.take(i)] + split(s.skip(i + 1), c)
    }
}

#[via_fn]
proof fn split_decreases(s: Seq<char>, c: char) {
    lemma_first_at(s, c, 0);
}

pub fn split_text(s: &str, c: char) -> (r: Vec<String>)
    ensures
        texts(r@) == split(s@, c),
        r@.len() >= 1,
{
    let v = chars_of(s);
    let mut out: Vec<String> = Vec::new();
    let mut at: usize = 0;
    assert(v@.skip(0) =~= v@);
    assert(texts(out@) + split(v@, c) =~= split(v@, c));
    loop
        invariant_except_break
            at <= v@.len(),
            texts(out@) + split(v@.skip(at as int), c) == split(s@, c),
        invariant
            v@ == s@,
        ensures
            texts(out@) == split(s@, c),
            out@.len() >= 1,
        decreases v@.len() - at,
    {
        let i: usize = find_from(&v, c, at);
        let ghost rest = v@.skip(at as int);
        proof {
            lemma_first_at_skip(v@, c, at as int);
            lemma_first_at(rest, c, 0);
        }
        let ghost old_out = texts(out@);
        let piece = text_of(&v, at, i);
        push_text(&mut out, piece.as_str());
        if i >= v.len() {
            assert(piece@ =~= rest);
            assert(texts(out@) =~= old_out + seq![rest]);
            break;
        }
        proof {
            assert(piece@ =~= rest.take(i - at));
            assert(rest.skip(i - at + 1) =~= v@.skip(i + 1));
            assert(texts(out@) + split(v@.skip(i + 1), c) =~= old_out + split(rest, c));
        }
        at = i + 1;
    }
    out
}

pub proof fn lemma_first_at_skip(s: Seq<char>, c: char, at: int)
    requires
        0 <= at <= s.len(),
    ensures
        first_at(s, c, at) == at + first_at(s.skip(at), c, 0),
{
    lemma_first_at_shift(s, c, at, 0);
}

proof fn lemma_first_at_shift(s: Seq<char>, c: char, at: int, k: int)
    requires
        0 <= at <= s.len(),
        0 <= k <= s.len() - at,
    ensures
        first_at(s, c, at + k) == at + first_at(s.skip(at), c, k),
    decreases s.len() - at - k,
{
    if at + k < s.len() {
        assert(s.skip(at)[k] == s[at + k]);
        if s[at + k] != c {
            lemma_first_at_shift(s, c, at, k + 1);
        }
    }
}

/// A text of one character.
pub fn text_from_char(c: char) -> (r: String)
    ensures
        r@ == seq![c],
{
    let mut s = String::new();
    s.push(c);
    assert(s@ =~= seq![c]);
    s
}

/// Whether a text is free of a character.
pub open spec fn free_of(s: Seq<char>, c: char) -> bool {
    !s.contains(c)
}

pub proof fn lemma_first_at_end(s: Seq<char>, c: char, rest: Seq<char>)
    requires
        free_of(s, c),
    ensures
        first_at(s, c, 0) == s.len(),
        first_at(s + seq![c] + rest, c, 0) == s.len(),
{
    lemma_first_at(s, c, 0);
    let t = s + seq![c] + rest;
    lemma_first_at(t, c, 0);
    let i = first_at(s, c, 0);
    if i < s.len() {
        assert(s.contains(s[i]));
    }
    let j = first_at(t, c, 0);
    assert(t[s.len() as int] == c);
    if j < s.len() {
        assert(t[j] == s[j]);
        assert(s.contains(s[j]));
    }
}

/// Cutting at a character gives back what it was put between.
pub proof fn lemma_cut_first(s: Seq<char>, c: char, rest: Seq<char>)
    requires
        free_of(s, c),
    ensures
        cut_first(s + seq![c] + rest, c) == Some((s, rest)),
{
    let t = s + seq![c] + rest;
    lemma_first_at_end(s, c, rest);
    assert(t.take(s.len() as int) =~= s);
    assert(t.skip(s.len() as int + 1) =~= rest);
}

pub(crate) proof fn lemma_joined_front(parts: Seq<Seq<char>>, sep: Seq<char>)
    requires
        parts.len() >= 2,
    ensures
        joined(parts, sep) == parts[0] + sep + joined(parts.skip(1), sep),
    decreases parts.len(),
{
    let rest = parts.skip(1);
    if parts.len() == 2 {
        let d = parts.drop_last();
        assert(d.len() == 1 && d[0] == parts[0]);
        assert(rest.len() == 1 && rest[0] == parts[1]);
        assert(joined(d, sep) == parts[0]);
        assert(joined(rest, sep) == parts[1]);
    } else {
        let d = parts.drop_last();
        lemma_joined_front(d, sep);
        assert(d.skip(1) =~= rest.drop_last());
        assert(d[0] == parts[0]);
        assert(rest.last() == parts.last());
        assert(joined(parts, sep) =~= parts[0] + sep + (joined(rest.drop_last(), sep) + sep + parts.last()));
    }
}

/// Splitting undoes joining: pieces free of the separator come back as they
/// were.
pub proof fn law_split_undoes_join(parts: Seq<Seq<char>>, c: char)
    requires
        parts.len() > 0,
        forall|i: int| 0 <= i < parts.len() ==> free_of(#[trigger] parts[i], c),
    ensures
        split(joined(parts, seq![c]), c) == parts,
    decreases parts.len(),
{
    let s = joined(parts, seq![c]);
    assert(free_of(parts[0], c));
    if parts.len() == 1 {
        lemma_first_at_end(parts[0], c, Seq::empty());
        assert(split(s, c) =~= parts);
    } else {
        let rest = parts.skip(1);
        lemma_joined_front(parts, seq![c]);
        let tail = joined(rest, seq![c]);
        lemma_first_at_end(parts[0], c, tail);
        assert(s.take(parts[0].len() as int) =~= parts[0]);
        assert(s.skip(parts[0].len() as int + 1) =~= tail);
        assert forall|i: int| 0 <= i < rest.len() implies free_of(#[trigger] rest[i], c) by {
            assert(rest[i] == parts[i + 1]);
        }
        law_split_undoes_join(rest, c);
        assert(parts =~= seq![parts[0]] + rest);
    }
}

/// The pieces of a text are free of the separator.
pub proof fn lemma_split_pieces(s: Seq<char>, c: char)
    ensures
        split(s, c).len() >= 1,
        forall|i: int| 0 <= i < split(s, c).len() ==> free_of(#[trigger] split(s, c)[i], c),
    decreases s.len(),
{
    let at = first_at(s, c, 0);
    lemma_first_at(s, c, 0);
    let pieces = split(s, c);
    if at < s.len() {
        let rest = split(s.skip(at + 1), c);
        lemma_split_pieces(s.skip(at + 1), c);
        assert forall|i: int| 0 <= i < pieces.len() implies free_of(#[trigger] pieces[i], c) by {
            if i == 0 {
                assert(pieces[0] == s.take(at));
            } else {
                assert(pieces[i] == rest[i - 1]);
            }
        }
    } else {
        assert(pieces =~= seq![s]);
    }
}

/// Joining undoes splitting.
pub proof fn law_join_undoes_split(s: Seq<char>, c: char)
    ensures
        joined(split(s, c), seq![c]) == s,
    decreases s.len(),
{
    let at = first_at(s, c, 0);
    lemma_first_at(s, c, 0);
    if at < s.len() {
        let rest = s.skip(at + 1);
        law_join_undoes_split(rest, c);
        lemma_split_pieces(rest, c);
        let pieces = split(s, c);
        lemma_joined_front(pieces, seq![c]);
        assert(pieces.skip(1) =~= split(rest, c));
        assert(s =~= s.take(at) + seq![c] + rest);
    }
}

proof fn lemma_joined_both(a: Seq<Seq<char>>, b: Seq<Seq<char>>, sep: Seq<char>)
    requires
        a.len() > 0,
        b.len() > 0,
    ensures
        joined(a + b, sep) == joined(a, sep) + sep + joined(b, sep),
    decreases b.len(),
{
    let both = a + b;
    assert(both.drop_last() =~= a + b.drop_last());
    if b.len() == 1 {
        assert(both.drop_last() =~= a);
    } else {
        lemma_joined_both(a, b.drop_last(), sep);
        assert(joined(both, sep) =~= joined(a, sep) + sep + joined(b, sep));
    }
}

/// A text with a separator in it splits as what stands before it and what
/// follows.
pub proof fn law_split_at_a_separator(a: Seq<char>, b: Seq<char>, c: char)
    ensures
        split(a + seq![c] + b, c) == split(a, c) + split(b, c),
{
    lemma_split_pieces(a, c);
    lemma_split_pieces(b, c);
    law_join_undoes_split(a, c);
    law_join_undoes_split(b, c);
    let both = split(a, c) + split(b, c);
    lemma_joined_both(split(a, c), split(b, c), seq![c]);
    assert forall|i: int| 0 <= i < both.len() implies free_of(#[trigger] both[i], c) by {
        if i >= split(a, c).len() {
            assert(both[i] == split(b, c)[i - split(a, c).len()]);
        }
    }
    law_split_undoes_join(both, c);
}

/// The text before and after the first `c`.
pub open spec fn cut_first(s: Seq<char>, c: char) -> Option<(Seq<char>, Seq<char>)> {
    let i = first_at(s, c, 0);
    if i >= s.len() {
        None
    } else {
        Some((s.take(i), s.skip(i + 1)))
    }
}

/// The text before and after the last `c`.
pub open spec fn cut_last(s: Seq<char>, c: char) -> Option<(Seq<char>, Seq<char>)> {
    let i = last_at(s, c, s.len() as int);
    if i < 0 {
        None
    } else {
        Some((s.take(i), s.skip(i + 1)))
    }
}

pub open spec fn pair_text(o: Option<(String, String)>) -> Option<(Seq<char>, Seq<char>)> {
    match o {
        Some(p) => Some((p.0@, p.1@)),
        None => None,
    }
}

pub fn split_first(s: &str, c: char) -> (r: Option<(String, String)>)
    ensures
        pair_text(r) == cut_first(s@, c),
{
    let v = chars_of(s);
    let i: usize = find_from(&v, c, 0);
    if i >= v.len() {
        None
    } else {
        let a = text_of(&v, 0, i);
        let b = text_of(&v, i + 1, v.len());
        assert(a@ =~= s@.take(i as int));
        assert(b@ =~= s@.skip(i + 1));
        Some((a, b))
    }
}

pub fn split_last(s: &str, c: char) -> (r: Option<(String, String)>)
    ensures
        pair_text(r) == cut_last(s@, c),
{
    let v = chars_of(s);
    let n: usize = v.len();
    match find_last(&v, c) {
        None => None,
        Some(i) => {
            let a = text_of(&v, 0, i);
            let b = text_of(&v, i + 1, n);
            assert(a@ =~= s@.take(i as int));
            assert(b@ =~= s@.skip(i + 1));
            Some((a, b))
        },
    }
}

/// What precedes the first `c`, or the whole text.
pub open spec fn first_piece(s: Seq<char>, c: char) -> Seq<char> {
    s.take(first_at(s, c, 0))
}

/// What follows the last `c`, or the whole text.
pub open spec fn last_piece(s: Seq<char>, c: char) -> Seq<char> {
    s.skip(last_at(s, c, s.len() as int) + 1)
}

pub fn piece_before(s: &str, c: char) -> (r: String)
    ensures
        r@ == first_piece(s@, c),
{
    let v = chars_of(s);
    let i: usize = find_from(&v, c, 0);
    let out = text_of(&v, 0, i);
    assert(out@ =~= first_piece(s@, c));
    out
}

pub fn piece_after(s: &str, c: char) -> (r: String)
    ensures
        r@ == last_piece(s@, c),
{
    let v = chars_of(s);
    let n: usize = v.len();
    match find_last(&v, c) {
        Some(i) => {
            let out = text_of(&v, i + 1, n);
            assert(out@ =~= last_piece(s@, c));
            out
        },
        None => {
            proof {
                lemma_last_at(v@, c, v@.len() as int);
            }
            assert(s@ =~= last_piece(s@, c));
            s.to_owned()
        },
    }
}

// ---------------------------------------------------------------------
// Words
// ---------------------------------------------------------------------

/// The characters with Unicode's White_Space property.
pub open spec fn is_space(c: char) -> bool {
    ('\u{9}' <= c && c <= '\u{d}') || c == ' ' || c == '\u{85}' || c == '\u{a0}' || c == '\u{1680}' || (
    '\u{2000}' <= c && c <= '\u{200a}') || c == '\u{2028}' || c == '\u{2029}' || c == '\u{202f}' || c
        == '\u{205f}' || c == '\u{3000}'
}

pub fn char_is_space(c: char) -> (r: bool)
    ensures
        r == is_space(c),
{
    ('\u{9}' <= c && c <= '\u{d}') || c == ' ' || c == '\u{85}' || c == '\u{a0}' || c == '\u{1680}' || (
    '\u{2000}' <= c && c <= '\u{200a}') || c == '\u{2028}' || c == '\u{2029}' || c == '\u{202f}' || c
        == '\u{205f}' || c == '\u{3000}'
}

/// Where the word that place `i` is in ends.
pub open spec fn word_end(s: Seq<char>, i: int) -> int
    decreases s.len() - i,
{
    if i < 0 || i >= s.len() || is_space(s[i]) {
        i
    } else {
        word_end(s, i + 1)
    }
}

proof fn lemma_word_end(s: Seq<char>, i: int)
    requires
        0 <= i <= s.len(),
    ensures
        i <= word_end(s, i) <= s.len(),
        i < s.len() && !is_space(s[i]) ==> word_end(s, i) > i,
    decreases s.len() - i,
{
    if i < s.len() && !is_space(s[i]) {
        lemma_word_end(s, i + 1);
    }
}

/// The words of `s` from place `i` on: the runs between white space.
pub open spec fn words_from(s: Seq<char>, i: int) -> Seq<Seq<char>>
    decreases s.len() - i,
    when 0 <= i <= s.len()
    via words_from_decreases
{
    if i >= s.len() {
        Seq::empty()
    } else if is_space(s[i]) {
        words_from(s, i + 1)
    } else {
        seq![s.subrange(i, word_end(s, i))] + words_from(s, word_end(s, i))
    }
}

#[via_fn]
proof fn words_from_decreases(s: Seq<char>, i: int) {
    lemma_word_end(s, i);
}

pub open spec fn words(s: Seq<char>) -> Seq<Seq<char>> {
    words_from(s, 0)
}

pub fn split_words(s: &str) -> (r: Vec<String>)
    ensures
        texts(r@) == words(s@),
{
    let v = chars_of(s);
    let n: usize = v.len();
    let mut out: Vec<String> = Vec::new();
    let mut i: usize = 0;
    assert(texts(out@) + words_from(v@, 0) =~= words(s@));
    while i < n
        invariant
            i <= n,
            n == v@.len(),
            v@ == s@,
            texts(out@) + words_from(v@, i as int) == words(s@),
        decreases n - i,
    {
        if char_is_space(v[i]) {
            i += 1;
        } else {
            let start: usize = i;
            proof {
                lemma_word_end(v@, start as int);
            }
            while i < n && !char_is_space(v[i])
                invariant
                    start <= i <= n,
                    n == v@.len(),
                    word_end(v@, start as int) == word_end(v@, i as int),
                decreases n - i,
            {
                i += 1;
            }
            let ghost prior = texts(out@);
            let w = text_of(&v, start, i);
            push_text(&mut out, w.as_str());
            assert(texts(out@) + words_from(v@, i as int) =~= prior + words_from(v@, start as int));
        }
    }
    assert(texts(out@) =~= words(s@));
    out
}

// ---------------------------------------------------------------------
// Trimming and lines
// ---------------------------------------------------------------------

/// The text without its leading white space.
pub open spec fn left_trimmed(s: Seq<char>) -> Seq<char>
    decreases s.len(),
{
    if s.len() > 0 && is_space(s[0]) {
        left_trimmed(s.skip(1))
    } else {
        s
    }
}

/// The text without its trailing white space.
pub open spec fn right_trimmed(s: Seq<char>) -> Seq<char>
    decreases s.len(),
{
    if s.len() > 0 && is_space(s.last()) {
        right_trimmed(s.drop_last())
    } else {
        s
    }
}

/// The text without white space at either end.
pub open spec fn trimmed(s: Seq<char>) -> Seq<char> {
    right_trimmed(left_trimmed(s))
}

pub fn trim(s: &str) -> (r: String)
    ensures
        r@ == trimmed(s@),
{
    let v = chars_of(s);
    let n: usize = v.len();
    let mut a: usize = 0;
    assert(v@.skip(0) =~= v@);
    while a < n && char_is_space(v[a])
        invariant
            a <= n,
            n == v@.len(),
            left_trimmed(v@.skip(a as int)) == left_trimmed(v@),
        decreases n - a,
    {
        assert(v@.skip(a as int).skip(1) =~= v@.skip(a + 1));
        a += 1;
    }
    let ghost rest = v@.skip(a as int);
    assert(left_trimmed(v@) == rest);
    let mut b: usize = n;
    assert(rest =~= v@.subrange(a as int, n as int));
    while b > a && char_is_space(v[b - 1])
        invariant
            a <= b <= n,
            n == v@.len(),
            right_trimmed(v@.subrange(a as int, b as int)) == right_trimmed(rest),
        decreases b,
    {
        assert(v@.subrange(a as int, b as int).drop_last() =~= v@.subrange(a as int, b - 1));
        b -= 1;
    }
    assert(b > a ==> v@.subrange(a as int, b as int).last() == v@[b - 1]);
    text_of(&v, a, b)
}

/// A line without the carriage return that may end it.
pub open spec fn bare_line(s: Seq<char>) -> Seq<char> {
    if s.len() > 0 && s.last() == '\r' {
        s.drop_last()
    } else {
        s
    }
}

/// The lines of a text. A final line break does not begin another line.
pub open spec fn lines(s: Seq<char>) -> Seq<Seq<char>> {
    let pieces = split(s, '\n');
    let whole = if pieces.last().len() == 0 {
        pieces.drop_last()
    } else {
        pieces
    };
    Seq::new(whole.len(), |i: int| bare_line(whole[i]))
}

pub fn split_lines(s: &str) -> (r: Vec<String>)
    ensures
        texts(r@) == lines(s@),
{
    let pieces = split_text(s, '\n');
    let ghost ps = split(s@, '\n');
    let m: usize = pieces.len();
    assert(ps.last() == pieces@[m - 1]@);
    let n: usize = if pieces[m - 1].as_str().is_empty() {
        m - 1
    } else {
        m
    };
    let mut out: Vec<String> = Vec::new();
    let mut i: usize = 0;
    while i < n
        invariant
            i <= n <= pieces@.len(),
            texts(pieces@) == ps,
            out@.len() == i,
            forall|k: int| 0 <= k < i ==> #[trigger] out@[k]@ == bare_line(ps[k]),
        decreases n - i,
    {
        assert(ps[i as int] == pieces@[i as int]@);
        let v = chars_of(pieces[i].as_str());
        let len: usize = v.len();
        if len > 0 && v[len - 1] == '\r' {
            let cut = text_of(&v, 0, len - 1);
            assert(cut@ =~= bare_line(ps[i as int]));
            out.push(cut);
        } else {
            out.push(pieces[i].clone());
        }
        i += 1;
    }
    assert(texts(out@) =~= lines(s@));
    out
}

// ---------------------------------------------------------------------
// Texts inside texts
// ---------------------------------------------------------------------

/// Whether `p` stands at place `at` of `s`.
pub open spec fn stands_at(s: Seq<char>, p: Seq<char>, at: int) -> bool {
    0 <= at && at + p.len() <= s.len() && s.subrange(at, at + p.len()) == p
}

/// The first place from `i` on where `p` stands; the length of `s` where there
/// is none.
pub open spec fn first_match(s: Seq<char>, p: Seq<char>, i: int) -> int
    decreases s.len() - i,
{
    if i >= s.len() || stands_at(s, p, i) {
        i
    } else {
        first_match(s, p, i + 1)
    }
}

/// The last place up to `i` where `p` stands; -1 where there is none.
pub open spec fn last_match(s: Seq<char>, p: Seq<char>, i: int) -> int
    decreases i + 1,
{
    if i < 0 || stands_at(s, p, i) {
        i
    } else {
        last_match(s, p, i - 1)
    }
}

/// What is before and after the first `p` of a text.
pub open spec fn cut_at(s: Seq<char>, p: Seq<char>) -> Option<(Seq<char>, Seq<char>)> {
    let at = first_match(s, p, 0);
    if stands_at(s, p, at) {
        Some((s.take(at), s.skip(at + p.len())))
    } else {
        None
    }
}

/// What is before and after the last `p` of a text.
pub open spec fn cut_at_last(s: Seq<char>, p: Seq<char>) -> Option<(Seq<char>, Seq<char>)> {
    let at = last_match(s, p, s.len() as int);
    if at >= 0 {
        Some((s.take(at), s.skip(at + p.len())))
    } else {
        None
    }
}

fn stands(v: &Vec<char>, at: usize, p: &Vec<char>) -> (r: bool)
    requires
        at <= v@.len(),
    ensures
        r == stands_at(v@, p@, at as int),
{
    if p.len() <= v.len() - at {
        assert(v@.skip(at as int).take(p@.len() as int) =~= v@.subrange(at as int, at + p@.len()));
    }
    matches_at(v, at, p)
}

pub fn split_at(s: &str, p: &str) -> (r: Option<(String, String)>)
    ensures
        pair_text(r) == cut_at(s@, p@),
{
    let v = chars_of(s);
    let q = chars_of(p);
    let n: usize = v.len();
    let mut i: usize = 0;
    while i < n && !stands(&v, i, &q)
        invariant
            i <= n,
            n == v@.len(),
            v@ == s@,
            q@ == p@,
            first_match(s@, p@, 0) == first_match(s@, p@, i as int),
        decreases n - i,
    {
        i += 1;
    }
    if stands(&v, i, &q) {
        let a = text_of(&v, 0, i);
        let b = text_of(&v, i + q.len(), n);
        assert(a@ =~= s@.take(i as int));
        assert(b@ =~= s@.skip(i + q.len()));
        Some((a, b))
    } else {
        None
    }
}

pub fn split_at_last(s: &str, p: &str) -> (r: Option<(String, String)>)
    ensures
        pair_text(r) == cut_at_last(s@, p@),
{
    let v = chars_of(s);
    let q = chars_of(p);
    let n: usize = v.len();
    let mut i: usize = n;
    loop
        invariant
            i <= n,
            n == v@.len(),
            v@ == s@,
            q@ == p@,
            last_match(s@, p@, n as int) == last_match(s@, p@, i as int),
        decreases i,
    {
        if stands(&v, i, &q) {
            let a = text_of(&v, 0, i);
            let b = text_of(&v, i + q.len(), n);
            assert(a@ =~= s@.take(i as int));
            assert(b@ =~= s@.skip(i + q.len()));
            return Some((a, b));
        }
        if i == 0 {
            assert(last_match(s@, p@, -1) == -1);
            return None;
        }
        i -= 1;
    }
}

// ---------------------------------------------------------------------
// ASCII letters
// ---------------------------------------------------------------------

pub open spec fn is_upper(c: char) -> bool {
    'A' <= c && c <= 'Z'
}

pub open spec fn is_lower(c: char) -> bool {
    'a' <= c && c <= 'z'
}

pub open spec fn lower_char(c: char) -> char {
    if is_upper(c) {
        (c as u32 + 32) as char
    } else {
        c
    }
}

/// The text with its ASCII capitals made small.
pub open spec fn lowered(s: Seq<char>) -> Seq<char> {
    Seq::new(s.len(), |i: int| lower_char(s[i]))
}

pub fn char_is_upper(c: char) -> (r: bool)
    ensures
        r == is_upper(c),
{
    'A' <= c && c <= 'Z'
}

fn small(c: char) -> (r: char)
    ensures
        r == lower_char(c),
{
    if char_is_upper(c) {
        (c as u8 + 32) as char
    } else {
        c
    }
}

pub fn lower(s: &str) -> (r: String)
    ensures
        r@ == lowered(s@),
{
    let v = chars_of(s);
    let mut out = String::new();
    let mut i: usize = 0;
    assert(out@ =~= lowered(s@).take(0));
    while i < v.len()
        invariant
            i <= v@.len(),
            v@ == s@,
            out@ == lowered(s@).take(i as int),
        decreases v@.len() - i,
    {
        out.push(small(v[i]));
        i += 1;
        assert(out@ =~= lowered(s@).take(i as int));
    }
    assert(out@ =~= lowered(s@));
    out
}

pub open spec fn all_ascii(s: Seq<char>) -> bool {
    forall|i: int| 0 <= i < s.len() ==> #[trigger] s[i] < '\u{80}'
}

/// The text that `str::to_lowercase` makes of a text.
pub uninterp spec fn lowercased(s: Seq<char>) -> Seq<char>;

/// `str::to_lowercase`: the lower-case mapping of the Unicode standard, a
/// function of the text alone. On ASCII text it makes the capitals small and
/// changes nothing else; what it makes of other letters is left to the name.
#[verifier::external_body]
pub(crate) fn to_lowercase(s: &str) -> (r: String)
    ensures
        r@ == lowercased(s@),
        all_ascii(s@) ==> r@ == lowered(s@),
{
    s.to_lowercase()
}

pub fn char_is_lower(c: char) -> (r: bool)
    ensures
        r == is_lower(c),
{
    'a' <= c && c <= 'z'
}

pub open spec fn is_hex(c: char) -> bool {
    ('0' <= c && c <= '9') || ('a' <= c && c <= 'f') || ('A' <= c && c <= 'F')
}

pub open spec fn all_hex(s: Seq<char>) -> bool {
    forall|i: int| 0 <= i < s.len() ==> #[trigger] is_hex(s[i])
}

pub fn only_hex(s: &str) -> (r: bool)
    ensures
        r == all_hex(s@),
{
    let v = chars_of(s);
    let mut i: usize = 0;
    while i < v.len()
        invariant
            i <= v@.len(),
            v@ == s@,
            forall|k: int| 0 <= k < i ==> #[trigger] is_hex(s@[k]),
        decreases v@.len() - i,
    {
        let c = v[i];
        if !(('0' <= c && c <= '9') || ('a' <= c && c <= 'f') || ('A' <= c && c <= 'F')) {
            assert(!is_hex(s@[i as int]));
            return false;
        }
        i += 1;
    }
    true
}

/// A list of its first `n` items.
pub fn texts_to(list: &Vec<String>, n: usize) -> (r: Vec<String>)
    requires
        n <= list@.len(),
    ensures
        texts(r@) == texts(list@).take(n as int),
{
    let ghost all = texts(list@);
    let mut out: Vec<String> = Vec::new();
    let mut i: usize = 0;
    assert(texts(out@) =~= all.take(0));
    while i < n
        invariant
            i <= n <= list@.len(),
            all == texts(list@),
            texts(out@) == all.take(i as int),
        decreases n - i,
    {
        push_text(&mut out, list[i].as_str());
        i += 1;
        assert(texts(out@) =~= all.take(i as int));
    }
    out
}

/// A list without its first `n` items.
pub fn texts_from(list: &Vec<String>, n: usize) -> (r: Vec<String>)
    requires
        n <= list@.len(),
    ensures
        texts(r@) == texts(list@).skip(n as int),
{
    let ghost all = texts(list@);
    let mut out: Vec<String> = Vec::new();
    let mut i: usize = n;
    assert(texts(out@) =~= all.subrange(n as int, n as int));
    while i < list.len()
        invariant
            n <= i <= list@.len(),
            all == texts(list@),
            texts(out@) == all.subrange(n as int, i as int),
        decreases list@.len() - i,
    {
        push_text(&mut out, list[i].as_str());
        i += 1;
        assert(texts(out@) =~= all.subrange(n as int, i as int));
    }
    assert(all.subrange(n as int, i as int) =~= all.skip(n as int));
    out
}

/// Every `from` of the text turned into `to`.
pub open spec fn replaced(s: Seq<char>, from: char, to: char) -> Seq<char> {
    Seq::new(
        s.len(),
        |i: int|
            if s[i] == from {
                to
            } else {
                s[i]
            },
    )
}

pub fn replace_char(s: &str, from: char, to: char) -> (r: String)
    ensures
        r@ == replaced(s@, from, to),
{
    let v = chars_of(s);
    let mut out = String::new();
    let mut i: usize = 0;
    assert(out@ =~= replaced(s@, from, to).take(0));
    while i < v.len()
        invariant
            i <= v@.len(),
            v@ == s@,
            out@ == replaced(s@, from, to).take(i as int),
        decreases v@.len() - i,
    {
        if v[i] == from {
            out.push(to);
        } else {
            out.push(v[i]);
        }
        i += 1;
        assert(out@ =~= replaced(s@, from, to).take(i as int));
    }
    assert(out@ =~= replaced(s@, from, to));
    out
}

/// How many bytes a text is written in.
pub open spec fn byte_len(s: Seq<char>) -> nat {
    vstd::utf8::encode_utf8(s).len()
}

pub fn text_bytes(s: &str) -> (r: usize)
    ensures
        r == byte_len(s@),
{
    s.as_bytes().len()
}

// ---------------------------------------------------------------------
// Sorted lists
// ---------------------------------------------------------------------

/// The numbers a text orders by: its characters' codes.
pub open spec fn codes(s: Seq<char>) -> Seq<u32> {
    Seq::new(s.len(), |i: int| s[i] as u32)
}

fn codes_of(s: &str) -> (r: Vec<u32>)
    ensures
        r@ == codes(s@),
{
    let v = chars_of(s);
    let mut out: Vec<u32> = Vec::new();
    let mut i: usize = 0;
    while i < v.len()
        invariant
            i <= v@.len(),
            v@ == s@,
            out@ == codes(s@).take(i as int),
        decreases v@.len() - i,
    {
        out.push(v[i] as u32);
        i += 1;
        assert(out@ =~= codes(s@).take(i as int));
    }
    assert(out@ =~= codes(s@));
    out
}

pub open spec fn all_codes(list: Seq<Seq<char>>) -> Seq<Seq<u32>> {
    Seq::new(list.len(), |i: int| codes(list[i]))
}

/// A list of texts in order.
pub open spec fn sorted_texts(list: Seq<Seq<char>>) -> Seq<Seq<char>> {
    at_places(list, stable_places(all_codes(list)))
}

/// A list without the items that equal the one before them.
pub open spec fn without_repeats(list: Seq<Seq<char>>) -> Seq<Seq<char>>
    decreases list.len(),
{
    if list.len() <= 1 {
        list
    } else {
        let shorter = without_repeats(list.drop_last());
        if list.last() == list[list.len() - 2] {
            shorter
        } else {
            shorter.push(list.last())
        }
    }
}

/// The places of texts in order.
pub fn text_places(list: &Vec<String>) -> (r: Vec<usize>)
    ensures
        r@ == stable_places(all_codes(texts(list@))),
        stable_order(all_codes(texts(list@)), r@),
        r@.len() == list@.len(),
        forall|i: int| 0 <= i < r@.len() ==> 0 <= #[trigger] r@[i] < list@.len(),
{
    let ghost all = texts(list@);
    let mut keys: Vec<Vec<u32>> = Vec::new();
    let mut i: usize = 0;
    while i < list.len()
        invariant
            i <= list@.len(),
            all == texts(list@),
            keys_of(keys@) == all_codes(all).take(i as int),
        decreases list@.len() - i,
    {
        let k = codes_of(list[i].as_str());
        let ghost prior = keys@;
        assert(all[i as int] == list@[i as int]@);
        keys.push(k);
        i += 1;
        assert(keys_of(keys@) =~= keys_of(prior).push(k@));
        assert(keys_of(keys@) =~= all_codes(all).take(i as int));
    }
    assert(all_codes(all).take(i as int) =~= all_codes(all));
    sort_places(&keys)
}

pub fn sort_texts(list: &Vec<String>) -> (r: Vec<String>)
    ensures
        texts(r@) == sorted_texts(texts(list@)),
{
    let ghost all = texts(list@);
    let order = text_places(list);
    let ghost want = sorted_texts(all);
    let mut out: Vec<String> = Vec::new();
    let mut j: usize = 0;
    assert(texts(out@) =~= want.take(0));
    while j < order.len()
        invariant
            j <= order@.len(),
            all == texts(list@),
            want == sorted_texts(all),
            order@ == stable_places(all_codes(all)),
            stable_order(all_codes(all), order@),
            texts(out@) == want.take(j as int),
        decreases order@.len() - j,
    {
        assert(order@[j as int] < all.len());
        push_text(&mut out, list[order[j]].as_str());
        assert(want[j as int] == all[order@[j as int] as int]);
        j += 1;
        assert(texts(out@) =~= want.take(j as int));
    }
    assert(want.take(j as int) =~= want);
    out
}

pub fn drop_repeats(list: &Vec<String>) -> (r: Vec<String>)
    ensures
        texts(r@) == without_repeats(texts(list@)),
{
    let ghost all = texts(list@);
    let mut out: Vec<String> = Vec::new();
    let mut i: usize = 0;
    assert(texts(out@) =~= without_repeats(all.take(0)));
    while i < list.len()
        invariant
            i <= list@.len(),
            all == texts(list@),
            texts(out@) == without_repeats(all.take(i as int)),
        decreases list@.len() - i,
    {
        let ghost next = all.take(i + 1);
        assert(next.drop_last() =~= all.take(i as int));
        assert(next.last() == list@[i as int]@);
        if i == 0 {
            push_text(&mut out, list[i].as_str());
            assert(texts(out@) =~= next);
        } else {
            assert(next[next.len() - 2] == list@[i - 1]@);
            if !same(list[i].as_str(), list[i - 1].as_str()) {
                push_text(&mut out, list[i].as_str());
            }
        }
        i += 1;
    }
    assert(all.take(i as int) =~= all);
    out
}

} // verus!
