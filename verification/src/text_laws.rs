//! What cutting a text apart gives, told by putting it together again.

use crate::text::{
    after_prefix, before_suffix, cut_first, cut_last, first_at, first_piece, free_of, is_space, last_at, last_piece,
    lemma_cut_first, lemma_first_at, lemma_first_at_end, lemma_last_at, left_trimmed, right_trimmed, trimmed,
    without_suffixes,
};
use vstd::prelude::*;

verus! {

/// A text is cut at the first mark: put together again it is the text, and there
/// is no mark before it.
pub proof fn law_a_text_is_cut_at_its_first_mark(s: Seq<char>, c: char, a: Seq<char>, b: Seq<char>)
    ensures
        cut_first(s, c) == Some((a, b)) <==> s == a + seq![c] + b && free_of(a, c),
        cut_first(s, c) is None <==> free_of(s, c),
        free_of(s, c) ==> first_piece(s, c) == s,
        s == a + seq![c] + b && free_of(a, c) ==> first_piece(s, c) == a,
{
    lemma_first_at(s, c, 0);
    let i = first_at(s, c, 0);
    if i < s.len() {
        assert(s.contains(s[i]));
        assert(s =~= s.take(i) + seq![c] + s.skip(i + 1));
        assert(free_of(s.take(i), c)) by {
            if s.take(i).contains(c) {
                let k = choose|k: int| 0 <= k < s.take(i).len() && s.take(i)[k] == c;
                assert(s[k] == c);
            }
        }
    }
    if s == a + seq![c] + b && free_of(a, c) {
        lemma_cut_first(a, c, b);
        assert(s[a.len() as int] == c);
        assert(s.contains(c));
        lemma_first_at_end(a, c, b);
        assert(s.take(a.len() as int) =~= a);
    }
    if free_of(s, c) {
        lemma_first_at_end(s, c, Seq::empty());
        assert(s.take(s.len() as int) =~= s);
    } else {
        let k = choose|k: int| 0 <= k < s.len() && s[k] == c;
        assert(s[k] == c);
    }
}

/// A text is cut at the last mark: put together again it is the text, and there
/// is no mark after it.
pub proof fn law_a_text_is_cut_at_its_last_mark(s: Seq<char>, c: char, a: Seq<char>, b: Seq<char>)
    ensures
        cut_last(s, c) == Some((a, b)) <==> s == a + seq![c] + b && free_of(b, c),
        cut_last(s, c) is None <==> free_of(s, c),
        free_of(s, c) ==> last_piece(s, c) == s,
        s == a + seq![c] + b && free_of(b, c) ==> last_piece(s, c) == b,
{
    lemma_last_at(s, c, s.len() as int);
    let i = last_at(s, c, s.len() as int);
    if i >= 0 {
        assert(s.contains(s[i]));
        assert(s =~= s.take(i) + seq![c] + s.skip(i + 1));
        assert(free_of(s.skip(i + 1), c)) by {
            let after = s.skip(i + 1);
            if after.contains(c) {
                let k = choose|k: int| 0 <= k < after.len() && after[k] == c;
                assert(s[i + 1 + k] == c);
            }
        }
    }
    if s == a + seq![c] + b && free_of(b, c) {
        let n = a.len() as int;
        assert(s[n] == c);
        assert(s.contains(c));
        if i > n {
            assert(b[i - n - 1] == c);
            assert(b.contains(c));
        }
        assert(i == n);
        assert(s.take(n) =~= a);
        assert(s.skip(n + 1) =~= b);
    }
    if free_of(s, c) {
        if i >= 0 {
            assert(s.contains(s[i]));
        }
        assert(s.skip(0) =~= s);
    } else {
        let k = choose|k: int| 0 <= k < s.len() && s[k] == c;
        assert(s[k] == c);
    }
}

/// What follows a beginning, and what precedes an ending, is the rest of the text.
pub proof fn law_the_rest_follows_its_beginning(s: Seq<char>, p: Seq<char>, rest: Seq<char>)
    ensures
        after_prefix(s, p) == Some(rest) <==> s == p + rest,
        before_suffix(s, p) == Some(rest) <==> s == rest + p,
{
    if after_prefix(s, p) is Some {
        assert(s =~= p + s.skip(p.len() as int));
    }
    if s == p + rest {
        assert(s.take(p.len() as int) =~= p);
        assert(s.skip(p.len() as int) =~= rest);
    }
    if before_suffix(s, p) is Some {
        assert(s =~= s.take(s.len() - p.len()) + p);
    }
    if s == rest + p {
        assert(s.skip(s.len() - p.len()) =~= p);
        assert(s.take(s.len() - p.len()) =~= rest);
    }
}

/// Every repetition of an ending is taken off, and nothing else.
pub proof fn law_endings_are_taken_off(s: Seq<char>, p: Seq<char>)
    requires
        p.len() > 0,
    ensures
        without_suffixes(s + p, p) == without_suffixes(s, p),
        before_suffix(without_suffixes(s, p), p) is None,
        before_suffix(s, p) is None ==> without_suffixes(s, p) == s,
        without_suffixes(s, p).is_prefix_of(s),
    decreases s.len(),
{
    law_the_rest_follows_its_beginning(s + p, p, s);
    assert((s + p).take((s + p).len() - p.len()) =~= s);
    if before_suffix(s, p) is Some {
        let shorter = s.take(s.len() - p.len());
        law_endings_are_taken_off(shorter, p);
        assert(s =~= shorter + p);
    }
}

/// Whether a text is nothing but white space.
pub open spec fn blank(s: Seq<char>) -> bool {
    forall|i: int| 0 <= i < s.len() ==> is_space(#[trigger] s[i])
}

/// Whether a text neither begins nor ends with white space.
pub open spec fn bare(s: Seq<char>) -> bool {
    s.len() > 0 ==> !is_space(s[0]) && !is_space(s.last())
}

proof fn lemma_left(a: Seq<char>, s: Seq<char>)
    requires
        blank(a),
        s.len() > 0 ==> !is_space(s[0]),
    ensures
        left_trimmed(a + s) == s,
    decreases a.len(),
{
    let t = a + s;
    if a.len() > 0 {
        assert(is_space(a[0]));
        assert(t[0] == a[0]);
        let rest = a.skip(1);
        assert forall|i: int| 0 <= i < rest.len() implies is_space(#[trigger] rest[i]) by {
            assert(rest[i] == a[i + 1]);
        }
        assert(t.skip(1) =~= rest + s);
        lemma_left(rest, s);
    } else {
        assert(t =~= s);
    }
}

proof fn lemma_right(s: Seq<char>, b: Seq<char>)
    requires
        blank(b),
        s.len() > 0 ==> !is_space(s.last()),
    ensures
        right_trimmed(s + b) == s,
    decreases b.len(),
{
    let t = s + b;
    if b.len() > 0 {
        assert(is_space(b[b.len() - 1]));
        let rest = b.drop_last();
        assert forall|i: int| 0 <= i < rest.len() implies is_space(#[trigger] rest[i]) by {
            assert(rest[i] == b[i]);
        }
        assert(t.drop_last() =~= s + rest);
        lemma_right(s, rest);
    } else {
        assert(t =~= s);
    }
}

/// Trimming takes off the white space around a text, and nothing else.
pub proof fn law_trimming_takes_off_white_space(a: Seq<char>, s: Seq<char>, b: Seq<char>)
    requires
        blank(a),
        bare(s),
        blank(b),
    ensures
        trimmed(a + s + b) == s,
{
    if s.len() > 0 {
        assert(a + s + b =~= a + (s + b));
        lemma_left(a, s + b);
        lemma_right(s, b);
    } else {
        let all = a + s + b;
        assert forall|i: int| 0 <= i < all.len() implies is_space(#[trigger] all[i]) by {
            if i < a.len() {
                assert(all[i] == a[i]);
            } else {
                assert(all[i] == b[i - a.len()]);
            }
        }
        assert(all =~= all + Seq::<char>::empty());
        lemma_left(all, Seq::empty());
        assert(s =~= Seq::<char>::empty());
    }
}

} // verus!
