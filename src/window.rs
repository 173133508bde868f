//! Line windows: which consecutive lines of a file form each chunk.
//!
//! A window is a half-open range `[start, end)` of 0-based line indices.
//! Lines are added one at a time; a line costs its byte length plus one.
//! When adding a line would push a non-empty window over the size budget,
//! the window is closed, and the next one is seeded with the longest run of
//! trailing lines of the closed window whose cost stays within the overlap
//! budget.

use vstd::prelude::*;

verus! {

/// Byte lengths as integers.
pub open spec fn lens_of(v: Seq<usize>) -> Seq<int> {
    v.map_values(|x: usize| x as int)
}

/// Cost of lines `[a, b)`: each line's length plus one for its newline.
pub open spec fn span(lens: Seq<int>, a: int, b: int) -> int
    decreases b - a,
{
    if b <= a {
        0
    } else {
        span(lens, a, b - 1) + lens[b - 1] + 1
    }
}

/// How many trailing lines of `[s, e)` are kept as overlap, counting on
/// from `k` already kept: lines are taken from the end while their total
/// cost stays within `overlap`.
pub open spec fn kept_tail(lens: Seq<int>, overlap: int, s: int, e: int, k: int) -> int
    decreases e - s - k,
{
    if k < e - s && span(lens, e - k - 1, e) <= overlap {
        kept_tail(lens, overlap, s, e, k + 1)
    } else {
        k
    }
}

/// The windows of lines `j..` onwards, where the open window starts at `s`
/// and holds lines `[s, j)`.
pub open spec fn windows_from(
    lens: Seq<int>,
    chunk_size: int,
    overlap: int,
    s: int,
    j: int,
) -> Seq<(int, int)>
    decreases lens.len() - j,
{
    if j >= lens.len() {
        seq![(s, lens.len() as int)]
    } else if s < j && span(lens, s, j + 1) > chunk_size {
        seq![(s, j)] + windows_from(
            lens,
            chunk_size,
            overlap,
            j - kept_tail(lens, overlap, s, j, 0),
            j + 1,
        )
    } else {
        windows_from(lens, chunk_size, overlap, s, j + 1)
    }
}

/// The windows of a file whose lines have the byte lengths `lens`.
pub open spec fn line_windows(lens: Seq<int>, chunk_size: int, overlap: int) -> Seq<(int, int)> {
    if lens.len() == 0 {
        seq![]
    } else {
        windows_from(lens, chunk_size, overlap, 0, 1)
    }
}

/// 1-based inclusive line numbers as 0-based half-open windows.
pub open spec fn zero_based(v: Seq<(usize, usize)>) -> Seq<(int, int)> {
    v.map_values(|p: (usize, usize)| (p.0 as int - 1, p.1 as int))
}

/// A line whose length fits in `usize` costs at most 2^64.
pub open spec fn line_cost_bound() -> int {
    0x1_0000_0000_0000_0000
}

proof fn lemma_span_left(lens: Seq<int>, a: int, b: int)
    requires
        a < b,
    ensures
        span(lens, a, b) == lens[a] + 1 + span(lens, a + 1, b),
    decreases b - a,
{
    if a + 1 < b {
        lemma_span_left(lens, a, b - 1);
        assert(span(lens, a + 1, b) == span(lens, a + 1, b - 1) + lens[b - 1] + 1);
    } else {
        assert(span(lens, a, a) == 0);
        assert(span(lens, a + 1, b) == 0);
    }
}

proof fn lemma_span_bound(v: Seq<usize>, a: int, b: int)
    requires
        0 <= a <= b <= v.len(),
    ensures
        0 <= span(lens_of(v), a, b) <= (b - a) * line_cost_bound(),
    decreases b - a,
{
    if a < b {
        lemma_span_bound(v, a, b - 1);
        assert(lens_of(v)[b - 1] == v[b - 1] as int);
        assert((b - a) * line_cost_bound() == (b - 1 - a) * line_cost_bound() + line_cost_bound())
            by (nonlinear_arith);
    }
}

proof fn lemma_kept_tail(lens: Seq<int>, overlap: int, s: int, e: int, k: int)
    requires
        0 <= k <= e - s,
        span(lens, e - k, e) <= overlap,
    ensures
        k <= kept_tail(lens, overlap, s, e, k) <= e - s,
        span(lens, e - kept_tail(lens, overlap, s, e, k), e) <= overlap,
        kept_tail(lens, overlap, s, e, k) == e - s || span(
            lens,
            e - kept_tail(lens, overlap, s, e, k) - 1,
            e,
        ) > overlap,
    decreases e - s - k,
{
    if k < e - s && span(lens, e - k - 1, e) <= overlap {
        lemma_kept_tail(lens, overlap, s, e, k + 1);
    }
}

/// Number of trailing lines of `[s, e)` kept as overlap, and their cost.
fn overlap_tail(line_lens: &Vec<usize>, s: usize, e: usize, overlap: usize) -> (r: (usize, u128))
    requires
        s <= e <= line_lens@.len(),
    ensures
        r.0 as int == kept_tail(lens_of(line_lens@), overlap as int, s as int, e as int, 0),
        r.1 as int == span(lens_of(line_lens@), e - r.0, e as int),
        r.0 <= e - s,
        r.1 <= overlap,
{
    let ghost lens = lens_of(line_lens@);
    let mut k: usize = 0;
    let mut size: u128 = 0;
    proof {
        lemma_kept_tail(lens, overlap as int, s as int, e as int, 0);
    }
    while k < e - s && size + (line_lens[e - k - 1] as u128 + 1) <= overlap as u128
        invariant
            s <= e <= line_lens@.len(),
            lens == lens_of(line_lens@),
            k <= e - s,
            size as int == span(lens, e - k, e as int),
            size <= overlap,
            kept_tail(lens, overlap as int, s as int, e as int, 0) == kept_tail(
                lens,
                overlap as int,
                s as int,
                e as int,
                k as int,
            ),
        decreases e - s - k,
    {
        proof {
            lemma_span_left(lens, e - k - 1, e as int);
        }
        size = size + (line_lens[e - k - 1] as u128 + 1);
        k = k + 1;
    }
    proof {
        if k < e - s {
            lemma_span_left(lens, e - k - 1, e as int);
        }
    }
    (k, size)
}

/// The windows of a file whose lines have the byte lengths `line_lens`, as
/// 1-based inclusive `(start_line, end_line)` pairs.
pub fn chunk_windows(line_lens: &Vec<usize>, chunk_size: usize, overlap: usize) -> (r: Vec<(
    usize,
    usize,
)>)
    ensures
        zero_based(r@) == line_windows(lens_of(line_lens@), chunk_size as int, overlap as int),
{
    let ghost lens = lens_of(line_lens@);
    let ghost cs = chunk_size as int;
    let ghost ov = overlap as int;
    let n = line_lens.len();
    let mut out: Vec<(usize, usize)> = Vec::new();
    if n == 0 {
        assert(zero_based(out@) =~= seq![]);
        return out;
    }
    let mut s: usize = 0;
    let mut acc: u128 = line_lens[0] as u128 + 1;
    let mut i: usize = 1;
    assert(span(lens, 0, 0) == 0);
    assert(lens[0] == line_lens@[0] as int);
    assert(zero_based(out@) + windows_from(lens, cs, ov, 0, 1) =~= line_windows(lens, cs, ov));
    while i < n
        invariant
            n == line_lens@.len(),
            lens == lens_of(line_lens@),
            cs == chunk_size as int,
            ov == overlap as int,
            s < i <= n,
            acc as int == span(lens, s as int, i as int),
            zero_based(out@) + windows_from(lens, cs, ov, s as int, i as int) == line_windows(
                lens,
                cs,
                ov,
            ),
        decreases n - i,
    {
        let size: u128 = line_lens[i] as u128 + 1;
        proof {
            lemma_span_bound(line_lens@, s as int, i as int);
            assert((i - s) * line_cost_bound() <= (n - 1) * line_cost_bound()) by (nonlinear_arith)
                requires
                    i - s <= n - 1,
                    n <= usize::MAX,
            ;
            assert((n - 1) * line_cost_bound() <= (usize::MAX - 1) * line_cost_bound())
                by (nonlinear_arith)
                requires
                    n <= usize::MAX,
            ;
        }
        let ghost out0 = out@;
        let ghost s0 = s as int;
        if acc + size > chunk_size as u128 {
            out.push((s + 1, i));
            let (k, kept) = overlap_tail(line_lens, s, i, overlap);
            s = i - k;
            acc = kept;
            assert(zero_based(out@) =~= zero_based(out0).push((s0, i as int)));
        }
        proof {
            assert(span(lens, s as int, i + 1) == span(lens, s as int, i as int) + lens[i as int] + 1);
        }
        acc = acc + size;
        i = i + 1;
    }
    let ghost out0 = out@;
    out.push((s + 1, n));
    assert(zero_based(out@) =~= zero_based(out0).push((s as int, n as int)));
    out
}

/// Every window is a non-empty range of lines of a file of `n` lines, and
/// each window after the first starts no later than the previous one ended
/// and ends strictly after it.
pub open spec fn well_shaped(ws: Seq<(int, int)>, n: int) -> bool {
    &&& forall|k: int| 0 <= k < ws.len() ==> 0 <= #[trigger] ws[k].0 < ws[k].1 <= n
    &&& forall|k: int| 1 <= k < ws.len() ==> ws[k - 1].1 < #[trigger] ws[k].1 && ws[k].0 <= ws[k - 1].1
}

/// Each window starts no earlier than the previous one.
pub open spec fn starts_advance(ws: Seq<(int, int)>) -> bool {
    forall|k: int| 1 <= k < ws.len() ==> ws[k - 1].0 <= #[trigger] ws[k].0
}

/// The lines each window repeats from the previous one are the longest tail
/// of it within `overlap`: either the whole previous window, or one line
/// more would exceed the budget.
pub open spec fn tails_longest(lens: Seq<int>, ws: Seq<(int, int)>, overlap: int) -> bool {
    forall|k: int|
        1 <= k < ws.len() ==> #[trigger] ws[k].0 == ws[k - 1].0 || span(
            lens,
            ws[k].0 - 1,
            ws[k - 1].1,
        ) > overlap
}

/// Each window after the first shares with the previous one lines whose
/// total cost is within `overlap`.
pub open spec fn overlaps_within(lens: Seq<int>, ws: Seq<(int, int)>, overlap: int) -> bool {
    forall|k: int| 1 <= k < ws.len() ==> span(lens, #[trigger] ws[k].0, ws[k - 1].1) <= overlap
}

proof fn lemma_windows_from_shape(lens: Seq<int>, chunk_size: int, overlap: int, s: int, j: int)
    requires
        0 <= s < j <= lens.len(),
        0 <= overlap,
    ensures
        windows_from(lens, chunk_size, overlap, s, j).len() >= 1,
        windows_from(lens, chunk_size, overlap, s, j)[0].0 == s,
        windows_from(lens, chunk_size, overlap, s, j)[0].1 >= j,
        windows_from(lens, chunk_size, overlap, s, j).last().1 == lens.len(),
        well_shaped(windows_from(lens, chunk_size, overlap, s, j), lens.len() as int),
        overlaps_within(lens, windows_from(lens, chunk_size, overlap, s, j), overlap),
        starts_advance(windows_from(lens, chunk_size, overlap, s, j)),
        tails_longest(lens, windows_from(lens, chunk_size, overlap, s, j), overlap),
    decreases lens.len() - j,
{
    let ws = windows_from(lens, chunk_size, overlap, s, j);
    if j >= lens.len() {
    } else if s < j && span(lens, s, j + 1) > chunk_size {
        let kt = kept_tail(lens, overlap, s, j, 0);
        lemma_kept_tail(lens, overlap, s, j, 0);
        lemma_windows_from_shape(lens, chunk_size, overlap, j - kt, j + 1);
        let rest = windows_from(lens, chunk_size, overlap, j - kt, j + 1);
        assert(ws == seq![(s, j)] + rest);
        assert forall|k: int| 1 <= k < ws.len() implies ws[k] == rest[k - 1] by {}
        assert(well_shaped(ws, lens.len() as int)) by {
            assert forall|k: int| 1 <= k < ws.len() implies ws[k - 1].1 < #[trigger] ws[k].1
                && ws[k].0 <= ws[k - 1].1 by {
                if k >= 2 {
                    assert(ws[k - 1] == rest[k - 2]);
                }
            }
        }
        assert(starts_advance(ws)) by {
            assert forall|k: int| 1 <= k < ws.len() implies ws[k - 1].0 <= #[trigger] ws[k].0 by {
                if k >= 2 {
                    assert(ws[k - 1] == rest[k - 2]);
                }
            }
        }
        assert(tails_longest(lens, ws, overlap)) by {
            assert forall|k: int| 1 <= k < ws.len() implies #[trigger] ws[k].0 == ws[k - 1].0 || span(
                lens,
                ws[k].0 - 1,
                ws[k - 1].1,
            ) > overlap by {
                if k >= 2 {
                    assert(ws[k - 1] == rest[k - 2]);
                }
            }
        }
        assert(overlaps_within(lens, ws, overlap)) by {
            assert forall|k: int| 1 <= k < ws.len() implies span(lens, #[trigger] ws[k].0, ws[k - 1].1)
                <= overlap by {
                if k >= 2 {
                    assert(ws[k - 1] == rest[k - 2]);
                }
            }
        }
    } else {
        lemma_windows_from_shape(lens, chunk_size, overlap, s, j + 1);
    }
}

/// The windows of a file start at its first line and end at its last; a
/// file without lines has none; every window holds at least one line; and
/// consecutive windows advance, each starting no later than the previous
/// one ended; starts never go back.
pub proof fn lemma_windows_cover(line_lens: Seq<usize>, chunk_size: usize, overlap: usize)
    ensures
        ({
            let ws = line_windows(lens_of(line_lens), chunk_size as int, overlap as int);
            &&& (ws.len() == 0) == (line_lens.len() == 0)
            &&& line_lens.len() > 0 ==> ws[0].0 == 0 && ws.last().1 == line_lens.len()
            &&& well_shaped(ws, line_lens.len() as int)
            &&& starts_advance(ws)
        }),
{
    if line_lens.len() > 0 {
        lemma_windows_from_shape(lens_of(line_lens), chunk_size as int, overlap as int, 0, 1);
    }
}

/// Consecutive windows share lines whose total cost (length plus one each)
/// is at most the overlap budget, and the shared lines are the longest such
/// tail of the earlier window.
pub proof fn lemma_overlap_within_budget(line_lens: Seq<usize>, chunk_size: usize, overlap: usize)
    ensures
        overlaps_within(
            lens_of(line_lens),
            line_windows(lens_of(line_lens), chunk_size as int, overlap as int),
            overlap as int,
        ),
        tails_longest(
            lens_of(line_lens),
            line_windows(lens_of(line_lens), chunk_size as int, overlap as int),
            overlap as int,
        ),
{
    if line_lens.len() > 0 {
        lemma_windows_from_shape(lens_of(line_lens), chunk_size as int, overlap as int, 0, 1);
    }
}

/// Where the lines that window `k` adds to its predecessors begin.
pub open spec fn fresh_start(ws: Seq<(int, int)>, k: int) -> int {
    if k == 0 {
        ws[0].0
    } else {
        ws[k - 1].1
    }
}

/// The lines that the first `m` windows add, each window's new lines in
/// order.
pub open spec fn stitched<A>(items: Seq<A>, ws: Seq<(int, int)>, m: nat) -> Seq<A>
    decreases m,
{
    if m == 0 {
        seq![]
    } else {
        stitched(items, ws, (m - 1) as nat) + items.subrange(fresh_start(ws, m - 1), ws[m - 1].1)
    }
}

proof fn lemma_stitched_prefix<A>(items: Seq<A>, ws: Seq<(int, int)>, m: nat)
    requires
        1 <= m <= ws.len(),
        ws[0].0 == 0,
        well_shaped(ws, items.len() as int),
    ensures
        stitched(items, ws, m) == items.subrange(0, ws[m - 1].1),
    decreases m,
{
    if m > 1 {
        lemma_stitched_prefix(items, ws, (m - 1) as nat);
        let a = ws[m - 2].1;
        assert(ws[m - 2].1 < ws[m - 1].1);
        assert(items.subrange(0, a) + items.subrange(a, ws[m - 1].1) =~= items.subrange(
            0,
            ws[m - 1].1,
        ));
    } else {
        assert(stitched(items, ws, 0) =~= seq![]);
        assert(ws[0].0 < ws[0].1);
        assert(seq![] + items.subrange(0, ws[0].1) =~= items.subrange(0, ws[0].1));
    }
}

/// Taking from each window only the lines it adds to its predecessors, in
/// order, gives back every line of the file exactly once.
pub proof fn lemma_windows_rebuild_lines<A>(
    lines: Seq<A>,
    line_lens: Seq<usize>,
    chunk_size: usize,
    overlap: usize,
)
    requires
        lines.len() == line_lens.len(),
    ensures
        ({
            let ws = line_windows(lens_of(line_lens), chunk_size as int, overlap as int);
            stitched(lines, ws, ws.len()) == lines
        }),
{
    let ws = line_windows(lens_of(line_lens), chunk_size as int, overlap as int);
    lemma_windows_cover(line_lens, chunk_size, overlap);
    if ws.len() == 0 {
        assert(lines =~= seq![]);
    } else {
        lemma_stitched_prefix(lines, ws, ws.len());
        assert(lines.subrange(0, lines.len() as int) =~= lines);
    }
}

} // verus!
