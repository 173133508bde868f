//! Paths as `/`-separated text: the final segment and its extension.

use vstd::prelude::*;

verus! {

/// Index of the last `c` among the first `end` characters of `p`, or -1.
pub open spec fn last_index_before(p: Seq<char>, c: char, end: int) -> int
    decreases end,
{
    if end <= 0 {
        -1
    } else if p[end - 1] == c {
        end - 1
    } else {
        last_index_before(p, c, end - 1)
    }
}

proof fn lemma_last_index_bounds(p: Seq<char>, c: char, end: int)
    requires
        0 <= end <= p.len(),
    ensures
        -1 <= last_index_before(p, c, end) < end,
        last_index_before(p, c, end) >= 0 ==> p[last_index_before(p, c, end)] == c,
        forall|j: int| last_index_before(p, c, end) < j < end ==> p[j] != c,
    decreases end,
{
    if end > 0 && p[end - 1] != c {
        lemma_last_index_bounds(p, c, end - 1);
    }
}

/// The final name of a path: the text after its last `/`; empty where that
/// text is empty, `.` or `..`.
pub open spec fn file_name_of(p: Seq<char>) -> Seq<char> {
    let seg = p.subrange(last_index_before(p, '/', p.len() as int) + 1, p.len() as int);
    if seg == seq!['.'] || seg == seq!['.', '.'] {
        seq![]
    } else {
        seg
    }
}

/// The extension of a file name: the text after its last `.`, where that
/// dot is not the name's first character.
pub open spec fn extension_of(name: Seq<char>) -> Option<Seq<char>> {
    let d = last_index_before(name, '.', name.len() as int);
    if d <= 0 {
        None
    } else {
        Some(name.subrange(d + 1, name.len() as int))
    }
}

/// Position just after the last `c` in `s`, or 0 where `s` holds none.
fn after_last(s: &str, c: char) -> (r: usize)
    ensures
        r as int == last_index_before(s@, c, s@.len() as int) + 1,
{
    let n = s.unicode_len();
    let mut i: usize = n;
    while i > 0 && s.get_char(i - 1) != c
        invariant
            i <= n,
            n == s@.len(),
            last_index_before(s@, c, n as int) == last_index_before(s@, c, i as int),
        decreases i,
    {
        i = i - 1;
    }
    i
}

/// The final name of `path` (see `file_name_of`).
pub fn file_name(path: &str) -> (r: &str)
    ensures
        r@ == file_name_of(path@),
{
    let n = path.unicode_len();
    proof {
        lemma_last_index_bounds(path@, '/', n as int);
    }
    let start = after_last(path, '/');
    let seg = path.substring_char(start, n);
    let len = n - start;
    let dot_only = len == 1 && seg.get_char(0) == '.';
    let dot_dot = len == 2 && seg.get_char(0) == '.' && seg.get_char(1) == '.';
    if dot_only || dot_dot {
        assert(seg@ == seq!['.'] || seg@ == seq!['.', '.']);
        path.substring_char(0, 0)
    } else {
        assert(seg@ != seq!['.']) by {
            if seg@ == seq!['.'] {
                assert(seg@[0] == '.');
            }
        }
        assert(seg@ != seq!['.', '.']) by {
            if seg@ == seq!['.', '.'] {
                assert(seg@[0] == '.' && seg@[1] == '.');
            }
        }
        seg
    }
}

/// The extension of a file name (see `extension_of`).
pub fn extension(name: &str) -> (r: Option<&str>)
    ensures
        match (r, extension_of(name@)) {
            (Some(e), Some(x)) => e@ == x,
            (None, None) => true,
            _ => false,
        },
{
    let n = name.unicode_len();
    proof {
        lemma_last_index_bounds(name@, '.', n as int);
    }
    let after = after_last(name, '.');
    if after <= 1 {
        None
    } else {
        Some(name.substring_char(after, n))
    }
}

} // verus!
