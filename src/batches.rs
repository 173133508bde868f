//! Fixed-size batches over a sequence of items, as index ranges.

use vstd::prelude::*;

verus! {

/// Ranges `[start, end)` of at most `size` items covering `start..len`.
pub open spec fn batches_from(start: int, len: int, size: int) -> Seq<(int, int)>
    decreases len - start,
{
    if start >= len || size <= 0 {
        seq![]
    } else {
        let end = if start + size < len { start + size } else { len };
        seq![(start, end)] + batches_from(end, len, size)
    }
}

/// The batches of `len` items in groups of `size`, the last possibly smaller.
pub open spec fn batches_of(len: int, size: int) -> Seq<(int, int)> {
    batches_from(0, len, size)
}

/// The batches of `len` items in groups of `size`, as ranges `[start, end)`.
pub fn batch_ranges(len: usize, size: usize) -> (r: Vec<(usize, usize)>)
    requires
        size > 0,
    ensures
        r@.map_values(|p: (usize, usize)| (p.0 as int, p.1 as int)) == batches_of(
            len as int,
            size as int,
        ),
{
    let mut out: Vec<(usize, usize)> = Vec::new();
    let mut start: usize = 0;
    while start < len
        invariant
            size > 0,
            start <= len,
            out@.map_values(|p: (usize, usize)| (p.0 as int, p.1 as int)) + batches_from(
                start as int,
                len as int,
                size as int,
            ) == batches_of(len as int, size as int),
        decreases len - start,
    {
        let end = if len - start > size {
            start + size
        } else {
            len
        };
        let ghost before = out@;
        out.push((start, end));
        assert(out@.map_values(|p: (usize, usize)| (p.0 as int, p.1 as int)) =~= before.map_values(
            |p: (usize, usize)| (p.0 as int, p.1 as int),
        ).push((start as int, end as int)));
        start = end;
    }
    assert(out@.map_values(|p: (usize, usize)| (p.0 as int, p.1 as int)) + batches_from(
        start as int,
        len as int,
        size as int,
    ) =~= out@.map_values(|p: (usize, usize)| (p.0 as int, p.1 as int)));
    out
}

proof fn lemma_batches_from(start: int, len: int, size: int)
    requires
        0 <= start < len,
        size > 0,
    ensures
        ({
            let bs = batches_from(start, len, size);
            &&& bs.len() >= 1
            &&& bs[0].0 == start
            &&& bs.last().1 == len
            &&& forall|k: int| 0 <= k < bs.len() ==> #[trigger] bs[k].0 < bs[k].1 <= bs[k].0 + size
            &&& forall|k: int| 1 <= k < bs.len() ==> #[trigger] bs[k].0 == bs[k - 1].1
        }),
    decreases len - start,
{
    let bs = batches_from(start, len, size);
    let end = if start + size < len { start + size } else { len };
    if end < len {
        lemma_batches_from(end, len, size);
        let rest = batches_from(end, len, size);
        assert forall|k: int| 1 <= k < bs.len() implies bs[k] == rest[k - 1] by {}
        assert forall|k: int| 1 <= k < bs.len() implies #[trigger] bs[k].0 == bs[k - 1].1 by {
            if k >= 2 {
                assert(bs[k - 1] == rest[k - 2]);
            }
        }
    } else {
        assert(batches_from(end, len, size) =~= seq![]);
        assert(bs =~= seq![(start, end)]);
    }
}

/// The batches of `len` items cover them all, in order and without gaps or
/// repeats: the first starts at 0, each starts where the previous ended,
/// the last ends at `len`, and each holds between one and `size` items.
pub proof fn lemma_batches_partition(len: usize, size: usize)
    requires
        size > 0,
    ensures
        ({
            let bs = batches_of(len as int, size as int);
            &&& (bs.len() == 0) == (len == 0)
            &&& len > 0 ==> bs[0].0 == 0 && bs.last().1 == len
            &&& forall|k: int| 0 <= k < bs.len() ==> #[trigger] bs[k].0 < bs[k].1 <= bs[k].0 + size
            &&& forall|k: int| 1 <= k < bs.len() ==> #[trigger] bs[k].0 == bs[k - 1].1
        }),
{
    if len > 0 {
        lemma_batches_from(0, len as int, size as int);
    }
}

} // verus!
