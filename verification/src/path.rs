//! Paths: the text each was written as, and the components that it names.
//!
//! An absolute path names the component `/` first; every other component is a
//! name, `..`, or a leading `.`. Two paths are the same, nested or ordered by
//! their components, never by how they were written: a separator written twice
//! and a `.` in the middle name nothing. What is shown is the text as it was
//! written.

use crate::order::{
    at_places, keys_of, lemma_lex_asymmetric, lemma_lex_total, lemma_stable_places, lex_less, place_in, sort_places,
    stable_places,
};
use crate::text::{
    cat2, cat3, chars_of, copy, find_last, free_of, join_texts, joined, last_at, law_split_at_a_separator,
    law_split_undoes_join, lemma_first_at, lemma_joined_front, lemma_split_pieces, push_text, same, split, split_text,
    text_of, texts,
};
use vstd::prelude::*;

verus! {

/// One path.
#[derive(Debug)]
pub struct FsPath {
    text: String,
    parts: Vec<String>,
}

/// The components of a path.
pub type Parts = Seq<Seq<char>>;

/// A path as a value to reason about: the text it was written as.
pub struct PathModel {
    pub text: Seq<char>,
}

impl PathModel {
    /// The components it names.
    pub open spec fn parts(self) -> Parts {
        components(self.text)
    }

    /// How many components it names.
    pub open spec fn len(self) -> nat {
        self.parts().len()
    }
}

impl View for FsPath {
    type V = PathModel;

    closed spec fn view(&self) -> PathModel {
        PathModel { text: self.text@ }
    }
}

pub open spec fn paths(s: Seq<FsPath>) -> Seq<PathModel> {
    Seq::new(s.len(), |i: int| s[i]@)
}

pub open spec fn opt_path(o: Option<FsPath>) -> Option<PathModel> {
    match o {
        Some(p) => Some(p@),
        None => None,
    }
}

/// What one segment of a path's text contributes: nothing when it is empty or
/// a `.` that does not lead a relative path.
pub open spec fn segment_counts(segments: Seq<Seq<char>>, i: int) -> bool {
    &&& segments[i].len() > 0
    &&& segments[i] == "."@ ==> i == 0
}

/// The components the first `n` segments contribute.
pub open spec fn segment_parts(segments: Seq<Seq<char>>, n: int) -> Parts
    decreases n,
{
    if n <= 0 {
        Seq::empty()
    } else if segment_counts(segments, n - 1) {
        segment_parts(segments, n - 1).push(segments[n - 1])
    } else {
        segment_parts(segments, n - 1)
    }
}

/// Whether a text begins at the root.
pub open spec fn rooted(text: Seq<char>) -> bool {
    text.len() > 0 && text[0] == '/'
}

/// The components that a text names.
#[verifier::opaque]
pub open spec fn components(text: Seq<char>) -> Parts {
    let segments = split(text, '/');
    let named = segment_parts(segments, segments.len() as int);
    if rooted(text) {
        seq!["/"@] + named
    } else {
        named
    }
}

/// The path written as `text`.
pub open spec fn path_of(text: Seq<char>) -> PathModel {
    PathModel { text }
}

/// The text a path is shown as: as it was written.
pub open spec fn path_text(p: PathModel) -> Seq<char> {
    p.text
}

/// Components, written with one separator between them.
pub open spec fn spelled(p: Parts) -> Seq<char> {
    if p.len() > 0 && p[0] == "/"@ {
        "/"@ + joined(p.skip(1), "/"@)
    } else {
        joined(p, "/"@)
    }
}

/// Whether two paths name the same components.
pub open spec fn same_path(p: PathModel, q: PathModel) -> bool {
    p.parts() == q.parts()
}

pub open spec fn same_opt(p: Option<PathModel>, q: PathModel) -> bool {
    p matches Some(x) && same_path(x, q)
}

/// Whether a list holds a path that is the same.
pub open spec fn has_path(list: Seq<PathModel>, p: PathModel) -> bool {
    exists|k: int| 0 <= k < list.len() && same_path(#[trigger] list[k], p)
}

/// Whether every component is a legal one in its place.
pub open spec fn well_formed(p: Parts) -> bool {
    forall|i: int| 0 <= i < p.len() ==> #[trigger] part_legal(p, i)
}

pub open spec fn part_legal(p: Parts, i: int) -> bool {
    ||| i == 0 && p[i] == "/"@
    ||| p[i].len() > 0 && !p[i].contains('/') && (p[i] == "."@ ==> i == 0)
}

pub open spec fn is_absolute(p: PathModel) -> bool {
    rooted(p.text)
}

/// How many of the first `n` segments there are up to the last that counts.
pub open spec fn counted(segments: Seq<Seq<char>>, n: int) -> int
    decreases n,
{
    if n <= 0 {
        0
    } else if segment_counts(segments, n - 1) {
        n
    } else {
        counted(segments, n - 1)
    }
}

/// A text up to the end of its last component but one.
pub open spec fn above(text: Seq<char>) -> Seq<char> {
    let segments = split(text, '/');
    let last = counted(segments, segments.len() as int);
    let before = counted(segments, last - 1);
    if before > 0 {
        joined(segments.take(before), seq!['/'])
    } else if rooted(text) {
        "/"@
    } else {
        Seq::empty()
    }
}

/// The directory a path is directly inside of.
pub open spec fn parent(p: PathModel) -> Option<PathModel> {
    if p.len() == 0 || p.parts().last() == "/"@ {
        None
    } else {
        Some(PathModel { text: above(p.text) })
    }
}

/// A path's own name.
pub open spec fn file_name(p: PathModel) -> Option<Seq<char>> {
    if p.len() == 0 || p.parts().last() == "/"@ || p.parts().last() == ".."@ || p.parts().last() == "."@ {
        None
    } else {
        Some(p.parts().last())
    }
}

/// A path's own name, or nothing.
pub open spec fn name_of(p: PathModel) -> Seq<char> {
    match file_name(p) {
        Some(n) => n,
        None => Seq::empty(),
    }
}

/// Whether `p` is `base` or lies under it.
pub open spec fn within(p: PathModel, base: PathModel) -> bool {
    p.len() >= base.len() && p.parts().take(base.len() as int) == base.parts()
}

/// Whether `p` lies strictly under `base`.
pub open spec fn inside(p: PathModel, base: PathModel) -> bool {
    within(p, base) && !same_path(p, base)
}

/// A text with another written after it, a separator between them.
pub open spec fn appended(text: Seq<char>, more: Seq<char>) -> Seq<char> {
    if text.len() > 0 && text.last() != '/' {
        text + seq!['/'] + more
    } else {
        text + more
    }
}

/// `rel`, taken from `p` unless it is absolute.
pub open spec fn join(p: PathModel, rel: PathModel) -> PathModel {
    if is_absolute(rel) {
        rel
    } else {
        PathModel { text: appended(p.text, rel.text) }
    }
}

/// `p` with the path written as `text` appended.
pub open spec fn joined_path(p: PathModel, text: Seq<char>) -> PathModel {
    join(p, path_of(text))
}

impl FsPath {
    #[verifier::type_invariant]
    spec fn read(self) -> bool {
        texts(self.parts@) == components(self.text@)
    }

    pub fn parse(text: &str) -> (r: FsPath)
        ensures
            r@ == path_of(text@),
    {
        let segments = split_text(text, '/');
        let mut parts: Vec<String> = Vec::new();
        let v = chars_of(text);
        if v.len() > 0 && v[0] == '/' {
            push_text(&mut parts, "/");
            assert(texts(parts@) =~= seq!["/"@]);
        }
        let ghost head = texts(parts@);
        let ghost segs = texts(segments@);
        let mut i: usize = 0;
        assert(head + segment_parts(segs, 0) =~= head);
        while i < segments.len()
            invariant
                i <= segments@.len(),
                segs == texts(segments@),
                texts(parts@) == head + segment_parts(segs, i as int),
            decreases segments@.len() - i,
        {
            let s = segments[i].as_str();
            assert(segs[i as int] == s@);
            if !s.is_empty() && (i == 0 || !same(s, ".")) {
                assert(segment_counts(segs, i as int));
                push_text(&mut parts, s);
                assert(texts(parts@) =~= head + segment_parts(segs, i + 1));
            } else {
                assert(!segment_counts(segs, i as int));
            }
            i += 1;
        }
        proof {
            reveal(components);
        }
        assert(texts(parts@) =~= components(text@));
        FsPath { text: text.to_owned(), parts }
    }

    pub fn copy(&self) -> (r: FsPath)
        ensures
            r@ == self@,
    {
        proof {
            use_type_invariant(self);
        }
        FsPath { text: copy(self.text.as_str()), parts: crate::text::copy_all(&self.parts) }
    }

    /// How a path is shown.
    pub fn text(&self) -> (r: String)
        ensures
            r@ == path_text(self@),
    {
        copy(self.text.as_str())
    }

    pub fn len(&self) -> (r: usize)
        ensures
            r == self@.len(),
    {
        proof {
            use_type_invariant(self);
        }
        assert(texts(self.parts@).len() == self.parts@.len());
        self.parts.len()
    }

    pub fn part(&self, i: usize) -> (r: &str)
        requires
            i < self@.len(),
        ensures
            r@ == self@.parts()[i as int],
    {
        proof {
            use_type_invariant(self);
        }
        assert(texts(self.parts@)[i as int] == self.parts@[i as int]@);
        self.parts[i].as_str()
    }

    pub fn is_absolute(&self) -> (r: bool)
        ensures
            r == is_absolute(self@),
    {
        let v = chars_of(self.text.as_str());
        v.len() > 0 && v[0] == '/'
    }

    /// The components after the first `n`, as they are spelled.
    pub fn rest(&self, n: usize) -> (r: String)
        requires
            n <= self@.len(),
        ensures
            r@ == spelled(self@.parts().skip(n as int)),
    {
        proof {
            use_type_invariant(self);
        }
        let ghost want = self@.parts().skip(n as int);
        let lead = n < self.parts.len() && same(self.parts[n].as_str(), "/");
        let mut names: Vec<String> = Vec::new();
        let from: usize = if lead {
            n + 1
        } else {
            n
        };
        let mut i: usize = from;
        assert(texts(names@) =~= self@.parts().subrange(from as int, from as int));
        while i < self.parts.len()
            invariant
                from <= i <= self.parts@.len(),
                self@.parts() == texts(self.parts@),
                texts(names@) == self@.parts().subrange(from as int, i as int),
            decreases self.parts@.len() - i,
        {
            push_text(&mut names, self.parts[i].as_str());
            i += 1;
            assert(texts(names@) =~= self@.parts().subrange(from as int, i as int));
        }
        let tail = join_texts(&names, "/");
        if lead {
            assert(want[0] == self.parts@[n as int]@);
            assert(texts(names@) =~= want.skip(1));
            cat2("/", tail.as_str())
        } else {
            assert(texts(names@) =~= want);
            assert(want.len() > 0 ==> want[0] == self.parts@[n as int]@);
            tail
        }
    }

    pub fn parent(&self) -> (r: Option<FsPath>)
        ensures
            opt_path(r) == parent(self@),
    {
        proof {
            use_type_invariant(self);
        }
        let n: usize = self.parts.len();
        assert(self@.parts().len() == n);
        if n == 0 {
            return None;
        }
        assert(self@.parts().last() == self.parts@[n - 1]@);
        if same(self.parts[n - 1].as_str(), "/") {
            None
        } else {
            let up = text_above(self.text.as_str());
            Some(FsPath::parse(up.as_str()))
        }
    }

    pub fn file_name(&self) -> (r: Option<String>)
        ensures
            crate::text::opt_text(r) == file_name(self@),
    {
        proof {
            use_type_invariant(self);
        }
        let n: usize = self.parts.len();
        assert(self@.parts().len() == n);
        if n == 0 {
            return None;
        }
        let last = self.parts[n - 1].as_str();
        assert(self@.parts().last() == last@);
        if same(last, "/") || same(last, "..") || same(last, ".") {
            None
        } else {
            Some(copy(last))
        }
    }

    pub fn name(&self) -> (r: String)
        ensures
            r@ == name_of(self@),
    {
        match self.file_name() {
            Some(n) => n,
            None => {
                let s = String::new();
                assert(s@ =~= Seq::<char>::empty());
                s
            },
        }
    }

    pub fn join_path(&self, rel: &FsPath) -> (r: FsPath)
        ensures
            r@ == join(self@, rel@),
    {
        if rel.is_absolute() {
            return rel.copy();
        }
        let v = chars_of(self.text.as_str());
        proof {
            reveal_strlit("/");
            assert("/"@ =~= seq!['/']);
        }
        let text = if v.len() > 0 && v[v.len() - 1] != '/' {
            cat3(self.text.as_str(), "/", rel.text.as_str())
        } else {
            cat2(self.text.as_str(), rel.text.as_str())
        };
        assert(text@ =~= appended(self@.text, rel@.text));
        FsPath::parse(text.as_str())
    }

    pub fn join(&self, text: &str) -> (r: FsPath)
        ensures
            r@ == joined_path(self@, text@),
    {
        let rel = FsPath::parse(text);
        self.join_path(&rel)
    }

    pub fn same(&self, other: &FsPath) -> (r: bool)
        ensures
            r == same_path(self@, other@),
    {
        if self.len() != other.len() {
            return false;
        }
        let b = self.within(other);
        assert(self@.parts().take(self@.len() as int) =~= self@.parts());
        b
    }

    pub fn within(&self, base: &FsPath) -> (r: bool)
        ensures
            r == within(self@, base@),
    {
        proof {
            use_type_invariant(self);
            use_type_invariant(base);
        }
        if self.len() < base.len() {
            return false;
        }
        let mut i: usize = 0;
        while i < base.parts.len()
            invariant
                i <= base.parts@.len() <= self.parts@.len(),
                self@.parts() == texts(self.parts@),
                base@.parts() == texts(base.parts@),
                forall|k: int| 0 <= k < i ==> self@.parts()[k] == base@.parts()[k],
            decreases base.parts@.len() - i,
        {
            if !same(self.parts[i].as_str(), base.parts[i].as_str()) {
                assert(self@.parts().take(base@.len() as int)[i as int] != base@.parts()[i as int]);
                return false;
            }
            i += 1;
        }
        assert(self@.parts().take(base@.len() as int) =~= base@.parts());
        true
    }

    pub fn inside(&self, base: &FsPath) -> (r: bool)
        ensures
            r == inside(self@, base@),
    {
        self.within(base) && !self.same(base)
    }
}

impl Clone for FsPath {
    fn clone(&self) -> (r: FsPath)
        ensures
            r@ == self@,
    {
        self.copy()
    }
}

impl PartialEq for FsPath {
    fn eq(&self, other: &FsPath) -> (r: bool) {
        self.same(other)
    }
}

impl vstd::std_specs::cmp::PartialEqSpecImpl for FsPath {
    open spec fn obeys_eq_spec() -> bool {
        true
    }

    open spec fn eq_spec(&self, other: &FsPath) -> bool {
        same_path(self@, other@)
    }
}

impl Eq for FsPath {

}

fn find_counted(segments: &Vec<String>, n: usize) -> (r: usize)
    requires
        n <= segments@.len(),
    ensures
        r == counted(texts(segments@), n as int),
        r <= n,
{
    let ghost segs = texts(segments@);
    let mut k: usize = n;
    while k > 0
        invariant
            k <= n <= segments@.len(),
            segs == texts(segments@),
            counted(segs, n as int) == counted(segs, k as int),
        decreases k,
    {
        let s = segments[k - 1].as_str();
        assert(segs[k - 1] == s@);
        if !s.is_empty() && (k == 1 || !same(s, ".")) {
            return k;
        }
        k -= 1;
    }
    0
}

fn text_above(text: &str) -> (r: String)
    ensures
        r@ == above(text@),
{
    let segments = split_text(text, '/');
    let ghost segs = texts(segments@);
    assert(segs.len() == segments@.len());
    let last: usize = find_counted(&segments, segments.len());
    let before: usize = if last > 0 {
        find_counted(&segments, last - 1)
    } else {
        0
    };
    let v = chars_of(text);
    if before > 0 {
        proof {
            reveal_strlit("/");
            assert("/"@ =~= seq!['/']);
        }
        let mut head: Vec<String> = Vec::new();
        let mut i: usize = 0;
        assert(texts(head@) =~= segs.take(0));
        while i < before
            invariant
                i <= before <= segments@.len(),
                segs == texts(segments@),
                texts(head@) == segs.take(i as int),
            decreases before - i,
        {
            push_text(&mut head, segments[i].as_str());
            i += 1;
            assert(texts(head@) =~= segs.take(i as int));
        }
        join_texts(&head, "/")
    } else if v.len() > 0 && v[0] == '/' {
        "/".to_owned()
    } else {
        let s = String::new();
        assert(s@ =~= Seq::<char>::empty());
        s
    }
}

pub fn copy_opt_path(o: &Option<FsPath>) -> (r: Option<FsPath>)
    ensures
        opt_path(r) == opt_path(*o),
{
    match o {
        Some(p) => Some(p.copy()),
        None => None,
    }
}

/// Whether `p` is one of `list`.
pub fn holds_path(list: &Vec<FsPath>, p: &FsPath) -> (r: bool)
    ensures
        r == has_path(paths(list@), p@),
{
    let mut i: usize = 0;
    while i < list.len()
        invariant
            i <= list@.len(),
            forall|k: int| 0 <= k < i ==> !same_path(#[trigger] paths(list@)[k], p@),
        decreases list@.len() - i,
    {
        if list[i].same(p) {
            assert(same_path(paths(list@)[i as int], p@));
            return true;
        }
        i += 1;
    }
    false
}

pub fn copy_paths(list: &Vec<FsPath>) -> (r: Vec<FsPath>)
    ensures
        paths(r@) == paths(list@),
{
    let ghost all = paths(list@);
    let mut out: Vec<FsPath> = Vec::new();
    let mut i: usize = 0;
    assert(paths(out@) =~= all.take(0));
    while i < list.len()
        invariant
            i <= list@.len(),
            all == paths(list@),
            paths(out@) == all.take(i as int),
        decreases list@.len() - i,
    {
        push_path(&mut out, list[i].copy());
        i += 1;
        assert(paths(out@) =~= all.take(i as int));
    }
    assert(all.take(i as int) =~= all);
    out
}

pub fn push_path(list: &mut Vec<FsPath>, p: FsPath)
    ensures
        paths(final(list)@) == paths(old(list)@).push(p@),
{
    let ghost v = p@;
    list.push(p);
    assert(paths(list@) =~= paths(old(list)@).push(v));
}

// ---------------------------------------------------------------------
// The last component without its extension
// ---------------------------------------------------------------------

/// A path's name up to its last dot, the whole name when the only dot leads.
pub open spec fn file_stem(p: PathModel) -> Option<Seq<char>> {
    match file_name(p) {
        Some(n) => {
            let dot = last_at(n, '.', n.len() as int);
            if dot <= 0 {
                Some(n)
            } else {
                Some(n.take(dot))
            }
        },
        None => None,
    }
}

/// A path's extension: what follows the last dot of its name, unless that dot
/// leads it.
pub open spec fn extension(p: PathModel) -> Option<Seq<char>> {
    match file_name(p) {
        Some(n) => {
            let dot = last_at(n, '.', n.len() as int);
            if dot <= 0 {
                None
            } else {
                Some(n.skip(dot + 1))
            }
        },
        None => None,
    }
}

impl FsPath {
    pub fn file_stem(&self) -> (r: Option<String>)
        ensures
            crate::text::opt_text(r) == file_stem(self@),
    {
        match self.file_name() {
            Some(n) => {
                let v = chars_of(n.as_str());
                match find_last(&v, '.') {
                    Some(dot) => {
                        if dot == 0 {
                            Some(n)
                        } else {
                            let s = text_of(&v, 0, dot);
                            assert(s@ =~= n@.take(dot as int));
                            Some(s)
                        }
                    },
                    None => Some(n),
                }
            },
            None => None,
        }
    }

    pub fn extension(&self) -> (r: Option<String>)
        ensures
            crate::text::opt_text(r) == extension(self@),
    {
        match self.file_name() {
            Some(n) => {
                let v = chars_of(n.as_str());
                let len: usize = v.len();
                match find_last(&v, '.') {
                    Some(dot) => {
                        if dot == 0 {
                            None
                        } else {
                            let s = text_of(&v, dot + 1, len);
                            assert(s@ =~= n@.skip(dot + 1));
                            Some(s)
                        }
                    },
                    None => None,
                }
            },
            None => None,
        }
    }
}

// ---------------------------------------------------------------------
// Order
// ---------------------------------------------------------------------

/// How one component sorts: the root, then `.`, then `..`, then names by
/// their characters, a name before its own continuations.
pub open spec fn part_key(s: Seq<char>) -> Seq<u32> {
    if s == "/"@ {
        seq![1u32]
    } else if s == "."@ {
        seq![2u32]
    } else if s == ".."@ {
        seq![3u32]
    } else {
        (seq![4u32] + Seq::new(s.len(), |i: int| (s[i] as u32 + 1) as u32)).push(0u32)
    }
}

pub open spec fn parts_key(p: Parts) -> Seq<u32>
    decreases p.len(),
{
    if p.len() == 0 {
        Seq::empty()
    } else {
        parts_key(p.drop_last()) + part_key(p.last())
    }
}

/// The key by which paths sort: that of their components.
pub open spec fn path_key(p: PathModel) -> Seq<u32> {
    parts_key(p.parts())
}

/// Whether `a` sorts strictly before `b`.
pub open spec fn path_less(a: PathModel, b: PathModel) -> bool {
    lex_less(path_key(a), path_key(b))
}

impl FsPath {
    /// The key by which this path sorts.
    pub fn key(&self) -> (r: Vec<u32>)
        ensures
            r@ == path_key(self@),
    {
        proof {
            use_type_invariant(self);
        }
        let mut out: Vec<u32> = Vec::new();
        let mut i: usize = 0;
        assert(self@.parts().take(0) =~= Seq::<Seq<char>>::empty());
        while i < self.parts.len()
            invariant
                i <= self.parts@.len(),
                self@.parts() == texts(self.parts@),
                out@ == parts_key(self@.parts().take(i as int)),
            decreases self.parts@.len() - i,
        {
            let s = self.parts[i].as_str();
            let ghost so_far = out@;
            if same(s, "/") {
                out.push(1);
            } else if same(s, ".") {
                out.push(2);
            } else if same(s, "..") {
                out.push(3);
            } else {
                let v = chars_of(s);
                out.push(4);
                let mut k: usize = 0;
                while k < v.len()
                    invariant
                        k <= v@.len(),
                        out@ == so_far + (seq![4u32] + Seq::new(k as nat, |j: int| (v@[j] as u32 + 1) as u32)),
                    decreases v@.len() - k,
                {
                    let c = v[k];
                    proof {
                        lemma_char_range(c);
                    }
                    out.push(c as u32 + 1);
                    k += 1;
                    assert(out@ =~= so_far + (seq![4u32] + Seq::new(k as nat, |j: int| (v@[j] as u32 + 1) as u32)));
                }
                out.push(0);
            }
            assert(out@ =~= so_far + part_key(s@));
            i += 1;
            let ghost now = self@.parts().take(i as int);
            assert(now.drop_last() =~= self@.parts().take(i - 1));
            assert(now.last() == s@);
        }
        assert(self@.parts().take(i as int) =~= self@.parts());
        out
    }
}

pub(crate) proof fn lemma_char_range(c: char)
    ensures
        0 <= c as u32 <= 0x10ffff,
        c as u32 == c as int,
{
}

proof fn lemma_part_key_ends(s: Seq<char>)
    ensures
        part_key(s).len() > 0,
        part_key(s)[0] == 1 || part_key(s)[0] == 2 || part_key(s)[0] == 3 || part_key(s)[0] == 4,
        part_key(s)[0] == 4 ==> s != "/"@ && s != "."@ && s != ".."@ && part_key(s).last() == 0 && part_key(s).len() == s.len() + 2,
{
}

/// Reads one component's key off the front of a longer one.
proof fn lemma_part_key_front(s: Seq<char>, t: Seq<char>, x: Seq<u32>, y: Seq<u32>)
    requires
        part_key(s) + x == part_key(t) + y,
    ensures
        s == t,
        x == y,
{
    let a = part_key(s);
    let b = part_key(t);
    lemma_part_key_ends(s);
    lemma_part_key_ends(t);
    let w = a + x;
    assert(w[0] == a[0]);
    assert((b + y)[0] == b[0]);
    if a[0] != 4 {
        assert(a.len() == 1 && b.len() == 1);
        reveal_strlit("/");
        reveal_strlit(".");
        reveal_strlit("..");
        assert(s =~= t);
    } else {
        // both are names: the terminators stand at the same place
        if s.len() < t.len() {
            assert(w[s.len() as int + 1] == a[s.len() as int + 1]);
            assert((b + y)[s.len() as int + 1] == b[s.len() as int + 1]);
            lemma_char_range(t[s.len() as int]);
            assert(b[s.len() as int + 1] == (t[s.len() as int] as u32 + 1) as u32);
            assert(false);
        }
        if t.len() < s.len() {
            assert(w[t.len() as int + 1] == a[t.len() as int + 1]);
            assert((b + y)[t.len() as int + 1] == b[t.len() as int + 1]);
            lemma_char_range(s[t.len() as int]);
            assert(a[t.len() as int + 1] == (s[t.len() as int] as u32 + 1) as u32);
            assert(false);
        }
        assert forall|i: int| 0 <= i < s.len() implies s[i] == t[i] by {
            lemma_char_range(s[i]);
            lemma_char_range(t[i]);
            assert(w[i + 1] == a[i + 1]);
            assert((b + y)[i + 1] == b[i + 1]);
            assert(a[i + 1] == (s[i] as u32 + 1) as u32);
            assert(b[i + 1] == (t[i] as u32 + 1) as u32);
        }
        assert(s =~= t);
    }
    assert(a == b);
    assert(x =~= w.skip(a.len() as int));
    assert(y =~= (b + y).skip(b.len() as int));
}

proof fn lemma_parts_key_front(p: Parts)
    requires
        p.len() > 0,
    ensures
        parts_key(p) == part_key(p[0]) + parts_key(p.drop_first()),
    decreases p.len(),
{
    if p.len() == 1 {
        assert(p.drop_last() =~= Seq::<Seq<char>>::empty());
        assert(p.drop_first() =~= Seq::<Seq<char>>::empty());
        assert(parts_key(p) =~= part_key(p[0]) + parts_key(p.drop_first()));
    } else {
        lemma_parts_key_front(p.drop_last());
        assert(p.drop_last().drop_first() =~= p.drop_first().drop_last());
        assert(parts_key(p) =~= part_key(p[0]) + parts_key(p.drop_first()));
    }
}

proof fn lemma_parts_key_injective(p: Parts, q: Parts)
    requires
        parts_key(p) == parts_key(q),
    ensures
        p == q,
    decreases p.len(),
{
    if p.len() == 0 || q.len() == 0 {
        if p.len() > 0 {
            lemma_parts_key_front(p);
            lemma_part_key_ends(p[0]);
        }
        if q.len() > 0 {
            lemma_parts_key_front(q);
            lemma_part_key_ends(q[0]);
        }
        assert(p =~= q);
    } else {
        lemma_parts_key_front(p);
        lemma_parts_key_front(q);
        lemma_part_key_front(p[0], q[0], parts_key(p.drop_first()), parts_key(q.drop_first()));
        lemma_parts_key_injective(p.drop_first(), q.drop_first());
        assert(p =~= seq![p[0]] + p.drop_first());
        assert(q =~= seq![q[0]] + q.drop_first());
    }
}

/// Paths that are not the same have distinct keys.
pub proof fn lemma_path_key_injective(p: PathModel, q: PathModel)
    requires
        path_key(p) == path_key(q),
    ensures
        same_path(p, q),
{
    lemma_parts_key_injective(p.parts(), q.parts());
}

/// Of two distinct paths exactly one sorts before the other.
pub proof fn law_path_order_is_total(p: PathModel, q: PathModel)
    ensures
        !same_path(p, q) ==> (path_less(p, q) <==> !path_less(q, p)),
        same_path(p, q) ==> !path_less(p, q),
{
    lemma_lex_total(path_key(p), path_key(q));
    if path_key(p) == path_key(q) {
        lemma_path_key_injective(p, q);
    }
    if path_less(p, q) {
        lemma_lex_asymmetric(path_key(p), path_key(q));
    }
    if path_less(q, p) {
        lemma_lex_asymmetric(path_key(q), path_key(p));
    }
}

/// The order of paths chains.
pub proof fn law_path_order_is_transitive(p: PathModel, q: PathModel, r: PathModel)
    requires
        path_less(p, q),
        path_less(q, r),
    ensures
        path_less(p, r),
{
    crate::order::lemma_lex_transitive(path_key(p), path_key(q), path_key(r));
}

// ---------------------------------------------------------------------
// Nesting
// ---------------------------------------------------------------------

proof fn lemma_all_count(segments: Seq<Seq<char>>, n: int, lead: int)
    requires
        0 <= lead <= n <= segments.len(),
        lead <= 1,
        lead == 1 ==> segments[0].len() == 0,
        forall|i: int| lead <= i < n ==> #[trigger] segment_counts(segments, i),
    ensures
        segment_parts(segments, n) == segments.subrange(lead, n),
    decreases n,
{
    if n > lead {
        lemma_all_count(segments, n - 1, lead);
        assert(segment_counts(segments, n - 1));
        assert(segments.subrange(lead, n) =~= segments.subrange(lead, n - 1).push(segments[n - 1]));
    } else if n == 1 {
        assert(segment_parts(segments, 0) =~= Seq::<Seq<char>>::empty());
        assert(segments.subrange(lead, n) =~= Seq::<Seq<char>>::empty());
    } else {
        assert(segments.subrange(lead, n) =~= Seq::<Seq<char>>::empty());
    }
}

/// Reading the text of a path gives the path back, whatever the text is.
pub proof fn law_path_texts_read_back(p: PathModel)
    ensures
        path_of(path_text(p)) == p,
{
}

/// Components that are spelled out read back as they are.
pub proof fn law_spelled_components_read_back(p: Parts)
    requires
        well_formed(p),
    ensures
        components(spelled(p)) == p,
{
    reveal(components);
    reveal_strlit("/");
    reveal_strlit(".");
    assert("/"@ =~= seq!['/']);
    let text = spelled(p);
    if p.len() > 0 && p[0] == "/"@ {
        let named = p.skip(1);
        let parts = seq![Seq::<char>::empty()] + named;
        assert forall|i: int| 0 <= i < parts.len() implies free_of(#[trigger] parts[i], '/') by {
            if i > 0 {
                assert(parts[i] == p[i]);
                assert(part_legal(p, i));
            }
        }
        if named.len() == 0 {
            assert(text =~= seq!['/']);
            assert(joined(named, "/"@) =~= Seq::<char>::empty());
            let both = seq![Seq::<char>::empty(), Seq::<char>::empty()];
            assert(both.drop_last() =~= seq![Seq::<char>::empty()]);
            assert(joined(both.drop_last(), seq!['/']) =~= Seq::<char>::empty());
            assert(joined(both, seq!['/']) =~= seq!['/']);
            law_split_undoes_join(both, '/');
            assert(!segment_counts(both, 0));
            assert(!segment_counts(both, 1));
            assert(segment_parts(both, 0) =~= Seq::<Seq<char>>::empty());
            assert(segment_parts(both, 1) =~= Seq::<Seq<char>>::empty());
            assert(segment_parts(both, 2) =~= Seq::<Seq<char>>::empty());
            assert(components(text) =~= p);
        } else {
            lemma_joined_lead(named, seq!['/']);
            assert(text =~= joined(parts, seq!['/']));
            law_split_undoes_join(parts, '/');
            assert forall|i: int| 1 <= i < parts.len() implies #[trigger] segment_counts(parts, i) by {
                assert(parts[i] == p[i]);
                assert(part_legal(p, i));
            }
            lemma_all_count(parts, parts.len() as int, 1);
            assert(parts.subrange(1, parts.len() as int) =~= named);
            assert(text[0] == '/');
            assert(components(text) =~= p);
        }
    } else if p.len() == 0 {
        assert(text =~= Seq::<char>::empty());
        let one = seq![Seq::<char>::empty()];
        assert(joined(one, seq!['/']) =~= text);
        law_split_undoes_join(one, '/');
        assert(!segment_counts(one, 0));
        assert(segment_parts(one, 0) =~= Seq::<Seq<char>>::empty());
        assert(components(text) =~= p);
    } else {
        assert forall|i: int| 0 <= i < p.len() implies free_of(#[trigger] p[i], '/') && segment_counts(p, i) by {
            assert(part_legal(p, i));
        }
        law_split_undoes_join(p, '/');
        lemma_all_count(p, p.len() as int, 0);
        assert(p.subrange(0, p.len() as int) =~= p);
        lemma_joined_begins(p, seq!['/']);
        assert(text[0] == p[0][0]);
        assert(p[0].contains(p[0][0]));
        assert(text[0] != '/');
        assert(components(text) =~= p);
    }
}

proof fn lemma_joined_begins(parts: Seq<Seq<char>>, sep: Seq<char>)
    requires
        parts.len() > 0,
        parts[0].len() > 0,
    ensures
        joined(parts, sep).len() > 0,
        joined(parts, sep)[0] == parts[0][0],
    decreases parts.len(),
{
    if parts.len() > 1 {
        assert(parts.drop_last()[0] == parts[0]);
        lemma_joined_begins(parts.drop_last(), sep);
    }
}

proof fn lemma_joined_lead(named: Seq<Seq<char>>, sep: Seq<char>)
    requires
        named.len() > 0,
    ensures
        joined(seq![Seq::<char>::empty()] + named, sep) == sep + joined(named, sep),
    decreases named.len(),
{
    let parts = seq![Seq::<char>::empty()] + named;
    if named.len() == 1 {
        assert(parts.drop_last() =~= seq![Seq::<char>::empty()]);
        assert(joined(parts.drop_last(), sep) =~= Seq::<char>::empty());
        assert(joined(parts, sep) =~= sep + joined(named, sep));
    } else {
        lemma_joined_lead(named.drop_last(), sep);
        assert(parts.drop_last() =~= seq![Seq::<char>::empty()] + named.drop_last());
        assert(joined(parts, sep) =~= sep + joined(named, sep));
    }
}

proof fn lemma_segments_of(text: Seq<char>)
    ensures
        split(text, '/').len() >= 1,
        forall|i: int| 0 <= i < split(text, '/').len() ==> free_of(#[trigger] split(text, '/')[i], '/'),
        rooted(text) ==> split(text, '/')[0].len() == 0,
        !rooted(text) && text.len() > 0 ==> split(text, '/')[0].len() > 0 && split(text, '/')[0][0] == text[0],
        text.len() == 0 ==> split(text, '/') == seq![Seq::<char>::empty()],
{
    lemma_split_pieces(text, '/');
    lemma_first_at(text, '/', 0);
    if text.len() == 0 {
        assert(text =~= Seq::<char>::empty());
    }
}

proof fn lemma_counted(segments: Seq<Seq<char>>, n: int)
    requires
        0 <= n <= segments.len(),
    ensures
        0 <= counted(segments, n) <= n,
        segment_parts(segments, n) == segment_parts(segments, counted(segments, n)),
        counted(segments, n) > 0 ==> segment_counts(segments, counted(segments, n) - 1),
        counted(segments, n) == 0 ==> segment_parts(segments, n).len() == 0,
    decreases n,
{
    if n > 0 && !segment_counts(segments, n - 1) {
        lemma_counted(segments, n - 1);
    }
}

proof fn lemma_parts_of_some(segments: Seq<Seq<char>>, n: int, k: int)
    requires
        0 <= k <= n <= segments.len(),
    ensures
        segment_parts(segments.take(n), k) == segment_parts(segments, k),
    decreases k,
{
    if k > 0 {
        lemma_parts_of_some(segments, n, k - 1);
        assert(segment_counts(segments.take(n), k - 1) == segment_counts(segments, k - 1));
    }
}

/// What a path's parent names: all that the path names but the last.
pub proof fn lemma_parent_parts(p: PathModel)
    requires
        parent(p) is Some,
    ensures
        parent(p)->0.parts() == p.parts().drop_last(),
{
    reveal(components);
    reveal_strlit("/");
    let segments = split(p.text, '/');
    let n = segments.len() as int;
    let named = segment_parts(segments, n);
    let last = counted(segments, n);
    let before = counted(segments, last - 1);
    lemma_segments_of(p.text);
    lemma_counted(segments, n);
    let up = above(p.text);
    if last == 0 {
        assert(named =~= Seq::<Seq<char>>::empty());
        assert(p.parts().last() == "/"@);
    } else {
        lemma_counted(segments, last - 1);
        assert(named == segment_parts(segments, before).push(segments[last - 1]));
        if before > 0 {
            let head = segments.take(before);
            assert forall|i: int| 0 <= i < head.len() implies free_of(#[trigger] head[i], '/') by {
                assert(head[i] == segments[i]);
            }
            law_split_undoes_join(head, '/');
            lemma_parts_of_some(segments, before, before);
            if rooted(p.text) {
                assert(before >= 2);
                lemma_joined_front(head, seq!['/']);
                assert(up[0] == '/');
            } else {
                if p.text.len() == 0 {
                    assert(segments[0].len() == 0);
                    assert(!segment_counts(segments, before - 1));
                }
                lemma_joined_begins(head, seq!['/']);
                assert(segments[0].contains(segments[0][0]));
                assert(up[0] == p.text[0]);
            }
            assert(components(up) =~= p.parts().drop_last());
        } else {
            assert(segment_parts(segments, before) =~= Seq::<Seq<char>>::empty());
            lemma_bare_components();
            assert(components(up) =~= p.parts().drop_last());
        }
    }
}

proof fn lemma_bare_components()
    ensures
        components("/"@) == seq!["/"@],
        components(Seq::<char>::empty()) == Seq::<Seq<char>>::empty(),
{
    reveal_strlit("/");
    law_spelled_components_read_back(seq!["/"@]);
    assert(spelled(seq!["/"@]) =~= "/"@) by {
        assert(seq!["/"@].skip(1) =~= Seq::<Seq<char>>::empty());
    }
    let none = Seq::<Seq<char>>::empty();
    law_spelled_components_read_back(none);
    assert(spelled(none) =~= Seq::<char>::empty());
}

proof fn lemma_named_legal(segments: Seq<Seq<char>>, n: int)
    requires
        0 <= n <= segments.len(),
        forall|i: int| 0 <= i < segments.len() ==> free_of(#[trigger] segments[i], '/'),
    ensures
        forall|k: int|
            0 <= k < segment_parts(segments, n).len() ==> {
                let part = #[trigger] segment_parts(segments, n)[k];
                &&& part.len() > 0
                &&& !part.contains('/')
                &&& part == "."@ ==> k == 0 && segments[0].len() > 0
            },
    decreases n,
{
    if n > 0 {
        lemma_named_legal(segments, n - 1);
        let prior = segment_parts(segments, n - 1);
        assert(free_of(segments[n - 1], '/'));
        assert forall|k: int| 0 <= k < segment_parts(segments, n).len() implies {
            let part = #[trigger] segment_parts(segments, n)[k];
            &&& part.len() > 0
            &&& !part.contains('/')
            &&& part == "."@ ==> k == 0 && segments[0].len() > 0
        } by {
            if k < prior.len() {
                assert(segment_parts(segments, n)[k] == prior[k]);
            } else {
                assert(segment_parts(segments, n)[k] == segments[n - 1]);
                if segments[n - 1] == "."@ {
                    assert(n == 1);
                }
            }
        }
    }
}

/// What a text names are legal components.
pub proof fn lemma_components_are_legal(text: Seq<char>)
    ensures
        well_formed(components(text)),
{
    reveal(components);
    reveal_strlit("/");
    reveal_strlit(".");
    let segments = split(text, '/');
    lemma_segments_of(text);
    lemma_named_legal(segments, segments.len() as int);
    let named = segment_parts(segments, segments.len() as int);
    let all = components(text);
    assert forall|i: int| 0 <= i < all.len() implies #[trigger] part_legal(all, i) by {
        if rooted(text) {
            if i > 0 {
                assert(all[i] == named[i - 1]);
            }
        } else {
            assert(all[i] == named[i]);
        }
    }
}

/// Components with those of a relative path after them: a `.` that leads it says
/// no more where something stands before it.
pub open spec fn followed_by(p: Parts, rel: Parts) -> Parts {
    if p.len() > 0 && rel.len() > 0 && rel[0] == "."@ {
        p + rel.skip(1)
    } else {
        p + rel
    }
}

proof fn lemma_appended_segments(a: Seq<Seq<char>>, b: Seq<Seq<char>>, m: int)
    requires
        a.len() > 0,
        0 <= m <= b.len(),
    ensures
        ({
            let rel = segment_parts(b, m);
            let late = if m > 0 && b[0] == "."@ {
                rel.skip(1)
            } else {
                rel
            };
            &&& segment_parts(a + b, a.len() + m) == segment_parts(a, a.len() as int) + late
            &&& m > 0 && b[0] == "."@ ==> rel.len() > 0 && rel[0] == "."@
            &&& rel.len() > 0 && rel[0] == "."@ ==> m > 0 && b[0] == "."@
        }),
    decreases m,
{
    reveal_strlit(".");
    let both = a + b;
    if m == 0 {
        assert(both.take(a.len() as int) =~= a);
        lemma_parts_of_some(both, a.len() as int, a.len() as int);
        assert(segment_parts(a, a.len() as int) + Seq::<Seq<char>>::empty() =~= segment_parts(a, a.len() as int));
    } else {
        lemma_appended_segments(a, b, m - 1);
        assert(both[a.len() + m - 1] == b[m - 1]);
        let prior = segment_parts(b, m - 1);
        let rel = segment_parts(b, m);
        let late = if b[0] == "."@ {
            rel.skip(1)
        } else {
            rel
        };
        if m == 1 {
            assert(prior =~= Seq::<Seq<char>>::empty());
            if b[0] == "."@ {
                assert(segment_counts(b, 0));
                assert(rel =~= seq!["."@]);
                assert(late =~= Seq::<Seq<char>>::empty());
            }
        }
        assert(segment_parts(both, a.len() + m) =~= segment_parts(a, a.len() as int) + late);
    }
}

/// A relative path written after another names what the first names, and then
/// what it names itself.
pub proof fn law_joining_appends(p: PathModel, text: Seq<char>)
    requires
        !is_absolute(path_of(text)),
    ensures
        joined_path(p, text).parts() == followed_by(p.parts(), components(text)),
{
    reveal(components);
    reveal_strlit("/");
    reveal_strlit(".");
    let t = p.text;
    let b = split(text, '/');
    lemma_segments_of(text);
    lemma_segments_of(t);
    let all = appended(t, text);
    if t.len() == 0 {
        assert(all =~= text);
        assert(t =~= Seq::<char>::empty());
        lemma_bare_components();
        assert(p.parts() + components(text) =~= components(text));
    } else {
        let stem = if t.last() == '/' {
            t.drop_last()
        } else {
            t
        };
        assert(all =~= stem + seq!['/'] + text);
        law_split_at_a_separator(stem, text, '/');
        let a = split(stem, '/');
        lemma_segments_of(stem);
        lemma_appended_segments(a, b, b.len() as int);
        assert(all[0] == t[0]);
        let named = segment_parts(a, a.len() as int);
        if t.last() == '/' {
            let none = Seq::<char>::empty();
            assert(t =~= stem + seq!['/'] + none);
            law_split_at_a_separator(stem, none, '/');
            lemma_segments_of(none);
            lemma_appended_segments(a, split(none, '/'), 1);
            assert(split(t, '/').len() == a.len() + 1);
            assert(!segment_counts(split(none, '/'), 0));
            assert(segment_parts(split(none, '/'), 0) =~= Seq::<Seq<char>>::empty());
            assert(segment_parts(split(none, '/'), 1) =~= Seq::<Seq<char>>::empty());
            assert(segment_parts(split(t, '/'), split(t, '/').len() as int) =~= named);
        }
        if !rooted(t) {
            assert(stem.len() > 0);
            lemma_first_counts(a, a.len() as int);
        }
        assert(components(all) =~= followed_by(components(t), components(text)));
    }
}

proof fn lemma_first_counts(segments: Seq<Seq<char>>, n: int)
    requires
        1 <= n <= segments.len(),
        segments[0].len() > 0,
    ensures
        segment_parts(segments, n).len() > 0,
    decreases n,
{
    if n > 1 {
        lemma_first_counts(segments, n - 1);
    } else {
        assert(segment_counts(segments, 0));
    }
}

/// A path is inside each directory above it, and nesting chains.
pub proof fn law_nesting_chains(p: PathModel, q: PathModel, r: PathModel)
    requires
        within(p, q),
        within(q, r),
    ensures
        within(p, r),
{
    assert(p.parts().take(r.len() as int) =~= p.parts().take(q.len() as int).take(r.len() as int));
}

/// What is written after a directory lies inside it.
pub proof fn law_joined_paths_are_within(p: PathModel, text: Seq<char>)
    requires
        !is_absolute(path_of(text)),
    ensures
        within(joined_path(p, text), p),
{
    law_joining_appends(p, text);
    assert(joined_path(p, text).parts().take(p.len() as int) =~= p.parts());
}

// ---------------------------------------------------------------------
// Lists in path order
// ---------------------------------------------------------------------

pub open spec fn keys_of_paths(list: Seq<PathModel>) -> Seq<Seq<u32>> {
    Seq::new(list.len(), |i: int| path_key(list[i]))
}

/// A list in path order.
pub open spec fn in_path_order(list: Seq<PathModel>) -> Seq<PathModel> {
    at_places(list, stable_places(keys_of_paths(list)))
}

/// A list without the paths that equal the one before them.
pub open spec fn without_neighbours(list: Seq<PathModel>) -> Seq<PathModel>
    decreases list.len(),
{
    if list.len() <= 1 {
        list
    } else {
        let shorter = without_neighbours(list.drop_last());
        if same_path(list.last(), list[list.len() - 2]) {
            shorter
        } else {
            shorter.push(list.last())
        }
    }
}

/// The paths of a list in order, each once.
pub open spec fn ordered_once(list: Seq<PathModel>) -> Seq<PathModel> {
    without_neighbours(in_path_order(list))
}

/// Puts paths in order, each once.
pub fn order_once(list: &Vec<FsPath>) -> (r: Vec<FsPath>)
    ensures
        paths(r@) == ordered_once(paths(list@)),
{
    let ghost all = paths(list@);
    let mut keys: Vec<Vec<u32>> = Vec::new();
    let mut i: usize = 0;
    while i < list.len()
        invariant
            i <= list@.len(),
            all == paths(list@),
            keys_of(keys@) == keys_of_paths(all).take(i as int),
        decreases list@.len() - i,
    {
        let k = list[i].key();
        let ghost prior = keys@;
        assert(all[i as int] == list@[i as int]@);
        keys.push(k);
        i += 1;
        assert(keys_of(keys@) =~= keys_of(prior).push(k@));
        assert(keys_of(keys@) =~= keys_of_paths(all).take(i as int));
    }
    assert(keys_of_paths(all).take(i as int) =~= keys_of_paths(all));
    let order = sort_places(&keys);
    let ghost want = in_path_order(all);
    let mut out: Vec<FsPath> = Vec::new();
    let mut n: usize = 0;
    assert(want.take(0) =~= Seq::<PathModel>::empty());
    assert(paths(out@) =~= without_neighbours(want.take(0)));
    while n < order.len()
        invariant
            n <= order@.len(),
            all == paths(list@),
            want == in_path_order(all),
            order@ == stable_places(keys_of_paths(all)),
            order@.len() == list@.len(),
            want.len() == order@.len(),
            forall|i: int| 0 <= i < order@.len() ==> 0 <= #[trigger] order@[i] < list@.len(),
            paths(out@) == without_neighbours(want.take(n as int)),
        decreases order@.len() - n,
    {
        assert(order@[n as int] < list@.len());
        let p = &list[order[n]];
        assert(want[n as int] == p@);
        let ghost now = want.take(n + 1);
        assert(now.drop_last() =~= want.take(n as int));
        assert(now.last() == p@);
        if n == 0 {
            push_path(&mut out, p.copy());
            assert(want.take(0) =~= Seq::<PathModel>::empty());
            assert(without_neighbours(now) =~= now);
            assert(paths(out@) =~= now);
        } else {
            assert(order@[n - 1] < list@.len());
            let q = &list[order[n - 1]];
            assert(want[n - 1] == q@);
            assert(now[now.len() - 2] == q@);
            if !p.same(q) {
                push_path(&mut out, p.copy());
            }
        }
        n += 1;
    }
    assert(want.take(n as int) =~= want);
    out
}

proof fn lemma_neighbours_hold(list: Seq<PathModel>, p: PathModel)
    ensures
        has_path(without_neighbours(list), p) <==> has_path(list, p),
        list.len() > 0 ==> without_neighbours(list).len() > 0 && same_path(
            without_neighbours(list).last(),
            list.last(),
        ),
    decreases list.len(),
{
    if list.len() > 1 {
        let d = list.drop_last();
        lemma_neighbours_hold(d, p);
        let shorter = without_neighbours(d);
        assert(d.last() == list[list.len() - 2]);
        assert(has_path(list, p) <==> has_path(d, p) || same_path(list.last(), p)) by {
            if has_path(d, p) {
                let k = choose|k: int| 0 <= k < d.len() && same_path(#[trigger] d[k], p);
                assert(same_path(list[k], p));
            }
            if has_path(list, p) {
                let k = choose|k: int| 0 <= k < list.len() && same_path(#[trigger] list[k], p);
                if k < d.len() {
                    assert(same_path(d[k], p));
                }
            }
            if same_path(list.last(), p) {
                assert(same_path(list[list.len() - 1], p));
            }
        }
        if same_path(list.last(), d.last()) {
            if same_path(list.last(), p) {
                assert(same_path(d[d.len() - 1], p));
            }
        } else {
            let next = shorter.push(list.last());
            assert(has_path(next, p) <==> has_path(shorter, p) || same_path(list.last(), p)) by {
                if has_path(shorter, p) {
                    let k = choose|k: int| 0 <= k < shorter.len() && same_path(#[trigger] shorter[k], p);
                    assert(same_path(next[k], p));
                }
                if has_path(next, p) {
                    let k = choose|k: int| 0 <= k < next.len() && same_path(#[trigger] next[k], p);
                    if k < shorter.len() {
                        assert(same_path(shorter[k], p));
                    }
                }
                if same_path(list.last(), p) {
                    assert(same_path(next[next.len() - 1], p));
                }
            }
        }
    }
}

/// Putting paths in order, each once, loses none and adds none.
pub proof fn law_ordering_keeps_paths(list: Seq<PathModel>, p: PathModel)
    requires
        list.len() <= usize::MAX,
    ensures
        has_path(ordered_once(list), p) <==> has_path(list, p),
{
    let keys = keys_of_paths(list);
    let order = stable_places(keys);
    lemma_stable_places(keys);
    let sorted = in_path_order(list);
    lemma_neighbours_hold(sorted, p);
    if has_path(list, p) {
        let k = choose|k: int| 0 <= k < list.len() && same_path(#[trigger] list[k], p);
        assert(place_in(order, k));
        let i = choose|i: int| 0 <= i < order.len() && order[i] == k;
        assert(same_path(sorted[i], p));
    }
    if has_path(sorted, p) {
        let i = choose|i: int| 0 <= i < sorted.len() && same_path(#[trigger] sorted[i], p);
        assert(0 <= order[i] < keys.len());
        assert(same_path(list[order[i] as int], p));
    }
}

} // verus!
