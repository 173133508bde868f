//! The scan's side observation: how many candidate files sit under each
//! top-level directory (and each second-level one), and how many carry each
//! extension. Display-only.

use vstd::prelude::*;
use crate::indexed::{distinct, lemma_map_of_lookup, lemma_map_of_update, map_of};
use crate::paths::{extension, extension_of, file_name, file_name_of};
use crate::text::str_equal;
use vstd::utf8::encode_utf8;

verus! {

/// Index of the first `c` in `p` at or after `start`, or -1.
pub open spec fn first_index_from(p: Seq<char>, c: char, start: int) -> int
    decreases p.len() - start,
{
    if start < 0 || start >= p.len() {
        -1
    } else if p[start] == c {
        start
    } else {
        first_index_from(p, c, start + 1)
    }
}

proof fn lemma_first_index_bounds(p: Seq<char>, c: char, start: int)
    requires
        0 <= start,
    ensures
        first_index_from(p, c, start) == -1 || (start <= first_index_from(p, c, start) < p.len()
            && p[first_index_from(p, c, start)] == c),
    decreases p.len() - start,
{
    if start < p.len() && p[start] != c {
        lemma_first_index_bounds(p, c, start + 1);
    }
}

/// The directory keys a file at relative path `rel` counts toward: its
/// top-level directory, and that directory joined with the next one where
/// the file lies deeper; `.` for a file at the root.
pub open spec fn dir_keys_of(rel: Seq<char>) -> Seq<Seq<char>> {
    let i1 = first_index_from(rel, '/', 0);
    if i1 < 0 {
        seq![seq!['.']]
    } else {
        let i2 = first_index_from(rel, '/', i1 + 1);
        if i2 < 0 {
            seq![rel.subrange(0, i1)]
        } else {
            seq![rel.subrange(0, i1), rel.subrange(0, i2)]
        }
    }
}

/// The extension key of a file: its extension with the dot, or `(no ext)`.
pub open spec fn ext_key_of(rel: Seq<char>) -> Seq<char> {
    match extension_of(file_name_of(rel)) {
        Some(e) => seq!['.'] + e,
        None => "(no ext)"@,
    }
}

/// `m` with the count of `k` raised by one, stopping at `usize::MAX`.
pub open spec fn bump(m: Map<Seq<char>, int>, k: Seq<char>) -> Map<Seq<char>, int> {
    m.insert(
        k,
        if !m.contains_key(k) {
            1
        } else if m[k] < usize::MAX {
            m[k] + 1
        } else {
            m[k]
        },
    )
}

/// `m` with each key of `ks` bumped in turn.
pub open spec fn bump_all(m: Map<Seq<char>, int>, ks: Seq<Seq<char>>) -> Map<Seq<char>, int>
    decreases ks.len(),
{
    if ks.len() == 0 {
        m
    } else {
        bump(bump_all(m, ks.drop_last()), ks.last())
    }
}

/// Directory counts over relative paths.
pub open spec fn dir_histogram(rels: Seq<Seq<char>>) -> Map<Seq<char>, int>
    decreases rels.len(),
{
    if rels.len() == 0 {
        Map::empty()
    } else {
        bump_all(dir_histogram(rels.drop_last()), dir_keys_of(rels.last()))
    }
}

/// Extension counts over relative paths.
pub open spec fn ext_histogram(rels: Seq<Seq<char>>) -> Map<Seq<char>, int>
    decreases rels.len(),
{
    if rels.len() == 0 {
        Map::empty()
    } else {
        bump(ext_histogram(rels.drop_last()), ext_key_of(rels.last()))
    }
}

/// Counts per key, in the order keys were first seen.
pub struct Histogram {
    keys: Vec<String>,
    counts: Vec<usize>,
}

impl Histogram {
    pub closed spec fn wf(&self) -> bool {
        &&& self.keys@.len() == self.counts@.len()
        &&& distinct(self.keys@.map_values(|k: String| k@))
    }

    /// The count of each key seen.
    pub closed spec fn view(&self) -> Map<Seq<char>, int> {
        map_of(self.keys@.map_values(|k: String| k@), self.counts@.map_values(|c: usize| c as int))
    }

    pub fn new() -> (r: Self)
        ensures
            r.wf(),
            r.view() == Map::<Seq<char>, int>::empty(),
    {
        let r = Histogram { keys: Vec::new(), counts: Vec::new() };
        assert(r.keys@.map_values(|k: String| k@) =~= seq![]);
        r
    }

    /// Counts one more occurrence of `key`.
    pub fn add(&mut self, key: String)
        requires
            old(self).wf(),
        ensures
            final(self).wf(),
            final(self).view() == bump(old(self).view(), key@),
    {
        let ghost ks = self.keys@.map_values(|k: String| k@);
        let ghost cs = self.counts@.map_values(|c: usize| c as int);
        proof {
            lemma_map_of_lookup(ks, cs);
        }
        let mut i: usize = 0;
        while i < self.keys.len()
            invariant
                i <= self.keys@.len(),
                self.wf(),
                ks == self.keys@.map_values(|k: String| k@),
                cs == self.counts@.map_values(|c: usize| c as int),
                old(self).view() == map_of(ks, cs),
                forall|j: int| 0 <= j < i ==> ks[j] != key@,
            decreases self.keys@.len() - i,
        {
            if str_equal(self.keys[i].as_str(), key.as_str()) {
                let c = self.counts[i];
                let next = if c < usize::MAX {
                    c + 1
                } else {
                    c
                };
                self.counts.set(i, next);
                proof {
                    assert(ks[i as int] == key@);
                    lemma_map_of_lookup(ks, cs);
                    assert(cs[i as int] == c as int);
                    lemma_map_of_update(ks, cs, i as int, next as int);
                    assert(self.counts@.map_values(|c: usize| c as int) =~= cs.update(
                        i as int,
                        next as int,
                    ));
                    assert(self.keys@.map_values(|k: String| k@) == ks);
                }
                return;
            }
            i = i + 1;
        }
        assert(!ks.contains(key@));
        self.keys.push(key);
        self.counts.push(1);
        proof {
            let ks2 = self.keys@.map_values(|k: String| k@);
            let cs2 = self.counts@.map_values(|c: usize| c as int);
            assert(ks2.drop_last() =~= ks);
            assert(cs2.drop_last() =~= cs);
            assert(distinct(ks2)) by {
                assert forall|a: int, b: int| 0 <= a < b < ks2.len() implies ks2[a] != ks2[b] by {
                    assert(ks2[a] == ks[a]);
                    if b == ks2.len() - 1 {
                        assert(ks.contains(ks[a]));
                    } else {
                        assert(ks2[b] == ks[b]);
                    }
                }
            }
        }
    }

    /// Each key with its count, in the order keys were first seen.
    pub fn entries(&self) -> (r: Vec<(String, usize)>)
        requires
            self.wf(),
        ensures
            distinct(r@.map_values(|e: (String, usize)| e.0@)),
            forall|i: int|
                0 <= i < r@.len() ==> self.view().contains_key((#[trigger] r@[i]).0@)
                    && self.view()[r@[i].0@] == r@[i].1 as int,
            forall|k: Seq<char>|
                #[trigger] self.view().contains_key(k) ==> exists|i: int|
                    0 <= i < r@.len() && (#[trigger] r@[i]).0@ == k,
    {
        let ghost ks = self.keys@.map_values(|k: String| k@);
        let ghost cs = self.counts@.map_values(|c: usize| c as int);
        let ghost m = self.view();
        proof {
            lemma_map_of_lookup(ks, cs);
        }
        let mut out: Vec<(String, usize)> = Vec::new();
        let mut i: usize = 0;
        while i < self.keys.len()
            invariant
                i <= self.keys@.len(),
                self.wf(),
                ks == self.keys@.map_values(|k: String| k@),
                out@.len() == i,
                forall|j: int|
                    0 <= j < i ==> out@[j].0@ == ks[j] && out@[j].1 == self.counts@[j],
            decreases self.keys@.len() - i,
        {
            out.push((self.keys[i].clone(), self.counts[i]));
            i = i + 1;
        }
        proof {
            assert(out@.map_values(|e: (String, usize)| e.0@) =~= ks);
            assert forall|k: Seq<char>| #[trigger] m.contains_key(k) implies exists|i: int|
                0 <= i < out@.len() && (#[trigger] out@[i]).0@ == k by {
                let j = choose|j: int| 0 <= j < ks.len() && ks[j] == k;
                assert(out@[j].0@ == k);
            }
            assert forall|i: int| 0 <= i < out@.len() implies m.contains_key((#[trigger] out@[i]).0@)
                && m[out@[i].0@] == out@[i].1 as int by {
                assert(ks[i] == out@[i].0@);
                assert(ks.contains(ks[i]));
            }
        }
        out
    }
}

/// Byte-wise lexicographic order: `a` comes strictly before `b`.
pub open spec fn lex_less(a: Seq<u8>, b: Seq<u8>) -> bool
    decreases a.len(),
{
    if a.len() == 0 {
        b.len() > 0
    } else if b.len() == 0 {
        false
    } else if a[0] != b[0] {
        a[0] < b[0]
    } else {
        lex_less(a.drop_first(), b.drop_first())
    }
}

/// Relies on `str`'s `<`: strings are ordered lexicographically by their
/// bytes.
#[verifier::external_body]
fn str_less(a: &str, b: &str) -> (r: bool)
    ensures
        r == lex_less(encode_utf8(a@), encode_utf8(b@)),
{
    a < b
}

/// A histogram entry as text and count.
pub open spec fn entry_view(e: (String, usize)) -> (Seq<char>, int) {
    (e.0@, e.1 as int)
}

/// `x` ranks before `y`: a higher count, or an equal count and a key that
/// comes first byte-wise.
pub open spec fn ranks_before(x: (Seq<char>, int), y: (Seq<char>, int)) -> bool {
    x.1 > y.1 || (x.1 == y.1 && lex_less(encode_utf8(x.0), encode_utf8(y.0)))
}

/// The first position from `i` on whose entry `e` ranks before, or the end.
pub open spec fn rank_slot(s: Seq<(Seq<char>, int)>, e: (Seq<char>, int), i: int) -> int
    decreases s.len() - i,
{
    if i >= s.len() || i < 0 {
        s.len() as int
    } else if ranks_before(e, s[i]) {
        i
    } else {
        rank_slot(s, e, i + 1)
    }
}

/// Entries ranked by count, highest first, and by key among equal counts:
/// each entry in turn goes in front of the first ranked entry it ranks
/// before.
pub open spec fn ranked_spec(es: Seq<(Seq<char>, int)>) -> Seq<(Seq<char>, int)>
    decreases es.len(),
{
    if es.len() == 0 {
        seq![]
    } else {
        let r = ranked_spec(es.drop_last());
        r.insert(rank_slot(r, es.last(), 0), es.last())
    }
}

proof fn lemma_lex_irreflexive(a: Seq<u8>)
    ensures
        !lex_less(a, a),
    decreases a.len(),
{
    if a.len() > 0 {
        lemma_lex_irreflexive(a.drop_first());
    }
}

proof fn lemma_lex_transitive(a: Seq<u8>, b: Seq<u8>, c: Seq<u8>)
    requires
        lex_less(a, b),
        lex_less(b, c),
    ensures
        lex_less(a, c),
    decreases a.len(),
{
    if a.len() > 0 && b.len() > 0 && c.len() > 0 && a[0] == b[0] && b[0] == c[0] {
        lemma_lex_transitive(a.drop_first(), b.drop_first(), c.drop_first());
    }
}

proof fn lemma_rank_slot(s: Seq<(Seq<char>, int)>, e: (Seq<char>, int), i: int)
    requires
        0 <= i <= s.len(),
    ensures
        i <= rank_slot(s, e, i) <= s.len(),
        forall|k: int| i <= k < rank_slot(s, e, i) ==> !ranks_before(e, #[trigger] s[k]),
        rank_slot(s, e, i) < s.len() ==> ranks_before(e, s[rank_slot(s, e, i)]),
    decreases s.len() - i,
{
    if i < s.len() && !ranks_before(e, s[i]) {
        lemma_rank_slot(s, e, i + 1);
    }
}

/// No entry ranks before one that precedes it.
pub open spec fn in_rank_order(s: Seq<(Seq<char>, int)>) -> bool {
    forall|i: int, j: int| 0 <= i < j < s.len() ==> !ranks_before(#[trigger] s[j], #[trigger] s[i])
}

/// Ranked entries are in rank order: counts never rise along the list, and
/// among equal counts keys never go back byte-wise.
pub proof fn lemma_ranked_in_order(es: Seq<(Seq<char>, int)>)
    ensures
        in_rank_order(ranked_spec(es)),
    decreases es.len(),
{
    if es.len() > 0 {
        let r = ranked_spec(es.drop_last());
        let e = es.last();
        lemma_ranked_in_order(es.drop_last());
        let p = rank_slot(r, e, 0);
        lemma_rank_slot(r, e, 0);
        let t = r.insert(p, e);
        assert(t == ranked_spec(es));
        assert forall|i: int, j: int| 0 <= i < j < t.len() implies !ranks_before(
            #[trigger] t[j],
            #[trigger] t[i],
        ) by {
            let ri = if i < p { i } else { i - 1 };
            let rj = if j < p { j } else { j - 1 };
            if i == p {
                assert(t[i] == e);
                assert(t[j] == r[rj]);
                if ranks_before(r[rj], e) {
                    if rj == p {
                        lemma_lex_irreflexive(encode_utf8(r[p].0));
                        if r[p].1 == e.1 {
                            lemma_lex_transitive(encode_utf8(r[p].0), encode_utf8(e.0), encode_utf8(r[p].0));
                        }
                    } else {
                        assert(!ranks_before(r[rj], r[p]));
                        if r[rj].1 == e.1 && e.1 == r[p].1 {
                            lemma_lex_transitive(encode_utf8(r[rj].0), encode_utf8(e.0), encode_utf8(r[p].0));
                        }
                    }
                }
            } else if j == p {
                assert(t[j] == e);
                assert(t[i] == r[i]);
            } else {
                assert(t[i] == r[ri]);
                assert(t[j] == r[rj]);
                assert(ri < rj);
            }
        }
    }
}

/// Histogram entries ranked for display (see `ranked_spec`).
pub fn ranked(entries: &Vec<(String, usize)>) -> (r: Vec<(String, usize)>)
    ensures
        r@.map_values(|e: (String, usize)| entry_view(e)) == ranked_spec(
            entries@.map_values(|e: (String, usize)| entry_view(e)),
        ),
{
    let ghost es = entries@.map_values(|e: (String, usize)| entry_view(e));
    let mut out: Vec<(String, usize)> = Vec::new();
    let mut i: usize = 0;
    assert(es.take(0) =~= seq![]);
    assert(out@.map_values(|e: (String, usize)| entry_view(e)) =~= seq![]);
    while i < entries.len()
        invariant
            i <= entries@.len(),
            es == entries@.map_values(|e: (String, usize)| entry_view(e)),
            out@.map_values(|e: (String, usize)| entry_view(e)) == ranked_spec(es.take(i as int)),
        decreases entries@.len() - i,
    {
        let ghost ov = out@.map_values(|e: (String, usize)| entry_view(e));
        let key = entries[i].0.clone();
        let count = entries[i].1;
        let ghost e = es[i as int];
        assert(e == entry_view((key, count)));
        let mut p: usize = 0;
        while p < out.len() && !(count > out[p].1 || (count == out[p].1 && str_less(
            key.as_str(),
            out[p].0.as_str(),
        )))
            invariant
                p <= out@.len(),
                ov == out@.map_values(|e: (String, usize)| entry_view(e)),
                e == entry_view((key, count)),
                rank_slot(ov, e, 0) == rank_slot(ov, e, p as int),
            decreases out@.len() - p,
        {
            assert(ov[p as int] == entry_view(out@[p as int]));
            p = p + 1;
        }
        proof {
            if p < out.len() {
                assert(ov[p as int] == entry_view(out@[p as int]));
            }
        }
        out.insert(p, (key, count));
        proof {
            assert(es.take(i + 1).drop_last() =~= es.take(i as int));
            assert(es.take(i + 1).last() == e);
            assert(out@.map_values(|e: (String, usize)| entry_view(e)) =~= ov.insert(p as int, e));
        }
        i = i + 1;
    }
    assert(es.take(es.len() as int) =~= es);
    out
}

/// The directory keys of one file (see `dir_keys_of`).
pub fn dir_keys(rel: &str) -> (r: Vec<String>)
    ensures
        r@.map_values(|k: String| k@) == dir_keys_of(rel@),
{
    let n = rel.unicode_len();
    let mut i1: usize = 0;
    while i1 < n && rel.get_char(i1) != '/'
        invariant
            i1 <= n,
            n == rel@.len(),
            first_index_from(rel@, '/', 0) == first_index_from(rel@, '/', i1 as int),
        decreases n - i1,
    {
        i1 = i1 + 1;
    }
    let mut r: Vec<String> = Vec::new();
    if i1 == n {
        proof {
            reveal_strlit(".");
            assert("."@ =~= seq!['.']);
            assert(first_index_from(rel@, '/', n as int) == -1);
        }
        r.push(String::from_str("."));
        assert(r@.map_values(|k: String| k@) =~= dir_keys_of(rel@));
        return r;
    }
    let mut i2: usize = i1 + 1;
    while i2 < n && rel.get_char(i2) != '/'
        invariant
            i1 < i2 <= n,
            n == rel@.len(),
            first_index_from(rel@, '/', i1 + 1) == first_index_from(rel@, '/', i2 as int),
        decreases n - i2,
    {
        i2 = i2 + 1;
    }
    proof {
        lemma_first_index_bounds(rel@, '/', 0);
        assert(first_index_from(rel@, '/', 0) == i1);
    }
    r.push(String::from_str(rel.substring_char(0, i1)));
    if i2 < n {
        r.push(String::from_str(rel.substring_char(0, i2)));
    }
    assert(r@.map_values(|k: String| k@) =~= dir_keys_of(rel@));
    r
}

/// The extension key of one file (see `ext_key_of`).
pub fn ext_key(rel: &str) -> (r: String)
    ensures
        r@ == ext_key_of(rel@),
{
    match extension(file_name(rel)) {
        Some(e) => {
            proof {
                reveal_strlit(".");
            }
            let mut k = String::from_str(".");
            k.append(e);
            assert(k@ =~= seq!['.'] + e@);
            k
        },
        None => String::from_str("(no ext)"),
    }
}

/// Directory and extension counts over the candidate files' relative paths.
pub fn file_audit(rels: &Vec<String>) -> (r: (Histogram, Histogram))
    ensures
        r.0.wf(),
        r.1.wf(),
        r.0.view() == dir_histogram(rels@.map_values(|s: String| s@)),
        r.1.view() == ext_histogram(rels@.map_values(|s: String| s@)),
{
    let ghost all = rels@.map_values(|s: String| s@);
    let mut dirs = Histogram::new();
    let mut exts = Histogram::new();
    let mut i: usize = 0;
    while i < rels.len()
        invariant
            i <= rels@.len(),
            all == rels@.map_values(|s: String| s@),
            dirs.wf(),
            exts.wf(),
            dirs.view() == dir_histogram(all.take(i as int)),
            exts.view() == ext_histogram(all.take(i as int)),
        decreases rels@.len() - i,
    {
        let rel = rels[i].as_str();
        let keys = dir_keys(rel);
        let ghost kv = keys@.map_values(|k: String| k@);
        let ghost before = dirs.view();
        let mut j: usize = 0;
        while j < keys.len()
            invariant
                j <= keys@.len(),
                kv == keys@.map_values(|k: String| k@),
                dirs.wf(),
                dirs.view() == bump_all(before, kv.take(j as int)),
            decreases keys@.len() - j,
        {
            dirs.add(keys[j].clone());
            proof {
                assert(kv.take(j + 1).drop_last() =~= kv.take(j as int));
            }
            j = j + 1;
        }
        exts.add(ext_key(rel));
        proof {
            assert(kv.take(kv.len() as int) =~= kv);
            assert(all.take(i + 1).drop_last() =~= all.take(i as int));
        }
        i = i + 1;
    }
    assert(all.take(all.len() as int) =~= all);
    (dirs, exts)
}

} // verus!
