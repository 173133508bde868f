//! Chunks: overlapping line windows of one file, with the metadata stored
//! beside each one.

use vstd::prelude::*;
use crate::hashing::{content_hash_of, hash_content};
use vstd::utf8::{decode_utf8, encode_utf8, is_char_boundary};
use vstd::string::StringSliceAdditionalSpecFns;
use crate::paths::{extension, extension_of, file_name, file_name_of};
use crate::text::{
    decimal, decimal_of, join_lines, lines_of, replace_char, replace_char_seq, split_lines,
};
use crate::window::{chunk_windows, lens_of, line_windows, zero_based};

verus! {

/// Byte budget of one chunk's lines.
pub const CHUNK_SIZE: usize = 3000;

/// Byte budget of the lines one chunk repeats from the previous one.
pub const CHUNK_OVERLAP: usize = 500;

/// What is stored beside a chunk's vector.
#[derive(Debug, Clone)]
pub struct ChunkMetadata {
    pub file_path: String,
    pub start_line: usize,
    pub end_line: usize,
    pub file_type: String,
    pub content_hash: String,
    pub file_hash: String,
    pub git_commit: String,
    pub git_branch: String,
    pub indexed_at: u64,
}

/// One window of one file, with its deterministic id.
#[derive(Debug, Clone)]
pub struct Chunk {
    pub id: String,
    pub text: String,
    pub metadata: ChunkMetadata,
}

/// Splits files into chunks for one branch at one revision.
pub struct CodeChunker {
    git_commit: String,
    git_branch: String,
}

/// Most bytes of a revision that go into a chunk id.
pub const REVISION_PREFIX_BYTES: usize = 8;

/// The largest character boundary of `bytes` at or below `b`.
pub open spec fn boundary_at_most(bytes: Seq<u8>, b: int) -> int
    decreases b,
{
    if b <= 0 {
        0
    } else if is_char_boundary(bytes, b) {
        b
    } else {
        boundary_at_most(bytes, b - 1)
    }
}

/// The revision's prefix used in chunk ids: its first eight bytes in UTF-8,
/// or all of it where it is shorter; where byte eight falls inside a
/// character, the longest shorter prefix that ends on a character boundary.
pub open spec fn revision_prefix(commit: Seq<char>) -> Seq<char> {
    let bytes = encode_utf8(commit);
    let limit = if bytes.len() < REVISION_PREFIX_BYTES { bytes.len() as int } else {
        REVISION_PREFIX_BYTES as int
    };
    decode_utf8(bytes.subrange(0, boundary_at_most(bytes, limit)))
}

/// A path with `/` and `.` turned into `_`.
pub open spec fn path_key(path: Seq<char>) -> Seq<char> {
    replace_char_seq(replace_char_seq(path, '/', '_'), '.', '_')
}

/// The id of the chunk of `path` spanning lines `start..=end` at a branch
/// and revision.
pub open spec fn chunk_id_of(
    branch: Seq<char>,
    commit: Seq<char>,
    path: Seq<char>,
    start: nat,
    end: nat,
) -> Seq<char> {
    branch + seq!['_'] + revision_prefix(commit) + seq!['_'] + path_key(path) + seq!['_']
        + decimal_of(start) + seq!['_'] + decimal_of(end)
}

/// The extension of a path's file name with its leading dot, or empty.
pub open spec fn file_type_of(path: Seq<char>) -> Seq<char> {
    match extension_of(file_name_of(path)) {
        Some(e) => seq!['.'] + e,
        None => seq![],
    }
}

/// Byte lengths of lines in UTF-8.
pub open spec fn line_byte_lens(lines: Seq<Seq<char>>) -> Seq<usize> {
    lines.map_values(|l: Seq<char>| vstd::utf8::encode_utf8(l).len() as usize)
}

/// The 0-based windows of a text's lines.
pub open spec fn text_windows(content: Seq<char>, chunk_size: usize, overlap: usize) -> Seq<(int, int)> {
    line_windows(lens_of(line_byte_lens(lines_of(content))), chunk_size as int, overlap as int)
}

/// `c` is the chunk of window `w` (0-based, half-open) of a file with lines
/// `lines`.
pub open spec fn chunk_fits(
    c: Chunk,
    branch: Seq<char>,
    commit: Seq<char>,
    path: Seq<char>,
    file_hash: Seq<char>,
    indexed_at: u64,
    lines: Seq<Seq<char>>,
    w: (int, int),
) -> bool {
    &&& c.metadata.start_line as int == w.0 + 1
    &&& c.metadata.end_line as int == w.1
    &&& c.text@ == join_lines(lines.subrange(w.0, w.1))
    &&& c.id@ == chunk_id_of(branch, commit, path, (w.0 + 1) as nat, w.1 as nat)
    &&& c.metadata.file_path@ == path
    &&& c.metadata.file_type@ == file_type_of(path)
    &&& c.metadata.content_hash@ == content_hash_of(c.text@)
    &&& c.metadata.file_hash@ == file_hash
    &&& c.metadata.git_commit@ == commit
    &&& c.metadata.git_branch@ == branch
    &&& c.metadata.indexed_at == indexed_at
}

/// `cs` are the chunks of `content`, one per window, in order.
pub open spec fn chunks_of_text(
    cs: Seq<Chunk>,
    branch: Seq<char>,
    commit: Seq<char>,
    content: Seq<char>,
    path: Seq<char>,
    file_hash: Seq<char>,
    chunk_size: usize,
    overlap: usize,
    indexed_at: u64,
) -> bool {
    let ws = text_windows(content, chunk_size, overlap);
    &&& cs.len() == ws.len()
    &&& forall|k: int|
        0 <= k < cs.len() ==> chunk_fits(
            #[trigger] cs[k],
            branch,
            commit,
            path,
            file_hash,
            indexed_at,
            lines_of(content),
            ws[k],
        )
}

/// The views of a vector of strings.
pub open spec fn views(v: Seq<String>) -> Seq<Seq<char>> {
    v.map_values(|s: String| s@)
}

/// Lines `a..b` of `lines` joined with `\n`.
fn join_range(lines: &Vec<String>, a: usize, b: usize) -> (r: String)
    requires
        a < b <= lines@.len(),
    ensures
        r@ == join_lines(views(lines@).subrange(a as int, b as int)),
{
    let ghost ls = views(lines@);
    let mut text = lines[a].clone();
    let mut i: usize = a + 1;
    proof {
        reveal_strlit("\n");
        assert(ls.subrange(a as int, a + 1) =~= seq![ls[a as int]]);
    }
    while i < b
        invariant
            a < i <= b <= lines@.len(),
            ls == views(lines@),
            text@ == join_lines(ls.subrange(a as int, i as int)),
        decreases b - i,
    {
        text.append("\n");
        text.append(lines[i].as_str());
        proof {
            reveal_strlit("\n");
            let next = ls.subrange(a as int, i + 1);
            assert(lines@[i as int]@ == ls[i as int]);
            assert(next.drop_last() =~= ls.subrange(a as int, i as int));
            assert(next.last() == ls[i as int]);
            assert(text@ =~= join_lines(next));
        }
        i = i + 1;
    }
    text
}

/// A revision shortened to its prefix of at most eight bytes (see
/// `revision_prefix`).
pub fn short_revision(commit: &str) -> (r: &str)
    ensures
        r@ == revision_prefix(commit@),
{
    broadcast use vstd::utf8::encode_utf8_valid_utf8, vstd::utf8::encode_utf8_decode_utf8;

    let ghost bytes = encode_utf8(commit@);
    let n = commit.as_bytes().len();
    let mut b: usize = if n < REVISION_PREFIX_BYTES {
        n
    } else {
        REVISION_PREFIX_BYTES
    };
    let ghost limit = b as int;
    while b > 0 && !commit.is_char_boundary(b)
        invariant
            bytes == encode_utf8(commit@),
            bytes == commit.spec_bytes(),
            b <= limit <= bytes.len(),
            boundary_at_most(bytes, limit) == boundary_at_most(bytes, b as int),
        decreases b,
    {
        b = b - 1;
    }
    assert(is_char_boundary(bytes, b as int));
    let (head, _) = commit.split_at(b);
    assert(head.spec_bytes() =~= bytes.subrange(0, b as int));
    assert(decode_utf8(encode_utf8(head@)) == head@);
    head
}

impl CodeChunker {
    /// The branch the chunks are for.
    pub closed spec fn branch(&self) -> Seq<char> {
        self.git_branch@
    }

    /// The revision the chunks are for.
    pub closed spec fn commit(&self) -> Seq<char> {
        self.git_commit@
    }

    pub fn new(git_commit: String, git_branch: String) -> (r: Self)
        ensures
            r.commit() == git_commit@,
            r.branch() == git_branch@,
    {
        Self { git_commit, git_branch }
    }

    /// The chunks of a file's text: one per line window, in order, each
    /// carrying its id, text, line range and metadata.
    pub fn chunk_code(
        &self,
        content: &str,
        file_path: &str,
        file_hash: &str,
        chunk_size: usize,
        overlap: usize,
        indexed_at: u64,
    ) -> (r: Vec<Chunk>)
        ensures
            chunks_of_text(
                r@,
                self.branch(),
                self.commit(),
                content@,
                file_path@,
                file_hash@,
                chunk_size,
                overlap,
                indexed_at,
            ),
    {
        let lines = split_lines(content);
        let ghost ls = views(lines@);
        assert(ls == lines_of(content@));
        let mut lens: Vec<usize> = Vec::new();
        let mut i: usize = 0;
        while i < lines.len()
            invariant
                i <= lines@.len(),
                ls == views(lines@),
                lens@ == line_byte_lens(ls.take(i as int)),
            decreases lines@.len() - i,
        {
            lens.push(lines[i].as_str().len());
            proof {
                assert(line_byte_lens(ls.take(i + 1)) =~= line_byte_lens(ls.take(i as int)).push(
                    vstd::utf8::encode_utf8(ls[i as int]).len() as usize,
                ));
            }
            i = i + 1;
        }
        assert(ls.take(ls.len() as int) =~= ls);
        let windows = chunk_windows(&lens, chunk_size, overlap);
        let ghost ws = text_windows(content@, chunk_size, overlap);
        proof {
            crate::window::lemma_windows_cover(lens@, chunk_size, overlap);
        }
        let mut chunks: Vec<Chunk> = Vec::new();
        let mut k: usize = 0;
        while k < windows.len()
            invariant
                k <= windows@.len(),
                ls == views(lines@),
                ls == lines_of(content@),
                ls.len() == lens@.len(),
                ws == text_windows(content@, chunk_size, overlap),
                zero_based(windows@) == ws,
                lines@.len() == ls.len(),
                crate::window::well_shaped(ws, ls.len() as int),
                chunks@.len() == k,
                forall|j: int|
                    0 <= j < k ==> chunk_fits(
                        #[trigger] chunks@[j],
                        self.branch(),
                        self.commit(),
                        file_path@,
                        file_hash@,
                        indexed_at,
                        ls,
                        ws[j],
                    ),
            decreases windows@.len() - k,
        {
            let (start, end) = windows[k];
            assert(ws[k as int] == zero_based(windows@)[k as int]);
            assert(ws[k as int] == (start as int - 1, end as int));
            assert(0 <= ws[k as int].0 < ws[k as int].1 <= ls.len());
            let text = join_range(&lines, start - 1, end);
            let chunk = self.create_chunk(file_path, text, file_hash, start, end, indexed_at);
            chunks.push(chunk);
            k = k + 1;
        }
        chunks
    }

    /// The chunks of one file's text read from `relative_path`, with the
    /// default window sizes and the text's own hash as the file hash. An
    /// empty text has no chunks.
    pub fn chunk_file(&self, content: &str, relative_path: &str, indexed_at: u64) -> (r: Vec<
        Chunk,
    >)
        ensures
            content@.len() == 0 ==> r@.len() == 0,
            chunks_of_text(
                r@,
                self.branch(),
                self.commit(),
                content@,
                relative_path@,
                content_hash_of(content@),
                CHUNK_SIZE,
                CHUNK_OVERLAP,
                indexed_at,
            ),
    {
        let file_hash = hash_content(content);
        let r = self.chunk_code(content, relative_path, file_hash.as_str(), CHUNK_SIZE, CHUNK_OVERLAP, indexed_at);
        proof {
            if content@.len() == 0 {
                assert(lines_of(content@) =~= seq![]);
            }
        }
        r
    }

    /// The chunk of lines `start_line..=end_line`, whose joined text is
    /// `chunk_text`.
    fn create_chunk(
        &self,
        file_path: &str,
        chunk_text: String,
        file_hash: &str,
        start_line: usize,
        end_line: usize,
        indexed_at: u64,
    ) -> (r: Chunk)
        ensures
            r.text@ == chunk_text@,
            r.id@ == chunk_id_of(
                self.branch(),
                self.commit(),
                file_path@,
                start_line as nat,
                end_line as nat,
            ),
            r.metadata.start_line == start_line,
            r.metadata.end_line == end_line,
            r.metadata.file_path@ == file_path@,
            r.metadata.file_type@ == file_type_of(file_path@),
            r.metadata.content_hash@ == content_hash_of(chunk_text@),
            r.metadata.file_hash@ == file_hash@,
            r.metadata.git_commit@ == self.commit(),
            r.metadata.git_branch@ == self.branch(),
            r.metadata.indexed_at == indexed_at,
    {
        proof {
            reveal_strlit(".");
            reveal_strlit("_");
        }
        let file_type = match extension(file_name(file_path)) {
            Some(e) => {
                let mut t = String::from_str(".");
                t.append(e);
                t
            },
            None => String::new(),
        };
        let slashless = replace_char(file_path, '/', '_');
        let key = replace_char(slashless.as_str(), '.', '_');
        let mut id = self.git_branch.clone();
        id.append("_");
        id.append(short_revision(self.git_commit.as_str()));
        id.append("_");
        id.append(key.as_str());
        id.append("_");
        id.append(decimal(start_line).as_str());
        id.append("_");
        id.append(decimal(end_line).as_str());
        let content_hash = hash_content(chunk_text.as_str());
        assert(id@ =~= chunk_id_of(
            self.branch(),
            self.commit(),
            file_path@,
            start_line as nat,
            end_line as nat,
        ));
        Chunk {
            id,
            text: chunk_text,
            metadata: ChunkMetadata {
                file_path: String::from_str(file_path),
                start_line,
                end_line,
                file_type,
                content_hash,
                file_hash: String::from_str(file_hash),
                git_commit: self.git_commit.clone(),
                git_branch: self.git_branch.clone(),
                indexed_at,
            },
        }
    }
}

/// The 0-based, half-open line ranges of chunks.
pub open spec fn chunk_ranges(cs: Seq<Chunk>) -> Seq<(int, int)> {
    cs.map_values(|c: Chunk| (c.metadata.start_line as int - 1, c.metadata.end_line as int))
}

/// Chunking is deterministic: two chunkings of the same text and path at the
/// same branch and revision, even at different times, give the same chunk
/// ids and texts in the same order.
pub proof fn lemma_chunking_deterministic(
    a: Seq<Chunk>,
    b: Seq<Chunk>,
    branch: Seq<char>,
    commit: Seq<char>,
    content: Seq<char>,
    path: Seq<char>,
    file_hash: Seq<char>,
    chunk_size: usize,
    overlap: usize,
    time_a: u64,
    time_b: u64,
)
    requires
        chunks_of_text(a, branch, commit, content, path, file_hash, chunk_size, overlap, time_a),
        chunks_of_text(b, branch, commit, content, path, file_hash, chunk_size, overlap, time_b),
    ensures
        a.len() == b.len(),
        forall|k: int| 0 <= k < a.len() ==> (#[trigger] a[k]).id@ == b[k].id@ && a[k].text@ == b[k].text@,
{
    assert forall|k: int| 0 <= k < a.len() implies (#[trigger] a[k]).id@ == b[k].id@ && a[k].text@
        == b[k].text@ by {
        assert(chunk_fits(a[k], branch, commit, path, file_hash, time_a, lines_of(content), text_windows(content, chunk_size, overlap)[k]));
        assert(chunk_fits(b[k], branch, commit, path, file_hash, time_b, lines_of(content), text_windows(content, chunk_size, overlap)[k]));
    }
}

/// Each chunk's text is its lines joined, and `end_line - start_line + 1`
/// is the number of those lines; taking from each chunk, in order, the lines
/// it adds to its predecessor gives back the text's lines exactly.
pub proof fn lemma_chunks_cover_text(
    cs: Seq<Chunk>,
    branch: Seq<char>,
    commit: Seq<char>,
    content: Seq<char>,
    path: Seq<char>,
    file_hash: Seq<char>,
    chunk_size: usize,
    overlap: usize,
    indexed_at: u64,
)
    requires
        chunks_of_text(cs, branch, commit, content, path, file_hash, chunk_size, overlap, indexed_at),
    ensures
        forall|k: int|
            0 <= k < cs.len() ==> {
                let lines = lines_of(content).subrange(
                    (#[trigger] cs[k]).metadata.start_line as int - 1,
                    cs[k].metadata.end_line as int,
                );
                &&& cs[k].text@ == join_lines(lines)
                &&& lines.len() == cs[k].metadata.end_line - cs[k].metadata.start_line + 1
            },
        crate::window::stitched(lines_of(content), chunk_ranges(cs), cs.len()) == lines_of(content),
{
    let lines = lines_of(content);
    let lens = line_byte_lens(lines);
    let ws = text_windows(content, chunk_size, overlap);
    crate::window::lemma_windows_cover(lens, chunk_size, overlap);
    assert forall|k: int| 0 <= k < cs.len() implies {
        let sub = lines.subrange((#[trigger] cs[k]).metadata.start_line as int - 1, cs[k].metadata.end_line as int);
        &&& cs[k].text@ == join_lines(sub)
        &&& sub.len() == cs[k].metadata.end_line - cs[k].metadata.start_line + 1
    } by {
        assert(chunk_fits(cs[k], branch, commit, path, file_hash, indexed_at, lines, ws[k]));
    }
    assert(chunk_ranges(cs) =~= ws) by {
        assert forall|k: int| 0 <= k < cs.len() implies chunk_ranges(cs)[k] == ws[k] by {
            assert(chunk_fits(cs[k], branch, commit, path, file_hash, indexed_at, lines, ws[k]));
        }
    }
    crate::window::lemma_windows_rebuild_lines(lines, lens, chunk_size, overlap);
}

/// Consecutive chunks of one file share lines whose total cost (byte length
/// plus one each) is at most the overlap budget.
pub proof fn lemma_chunk_overlap_within_budget(
    cs: Seq<Chunk>,
    branch: Seq<char>,
    commit: Seq<char>,
    content: Seq<char>,
    path: Seq<char>,
    file_hash: Seq<char>,
    chunk_size: usize,
    overlap: usize,
    indexed_at: u64,
)
    requires
        chunks_of_text(cs, branch, commit, content, path, file_hash, chunk_size, overlap, indexed_at),
    ensures
        forall|k: int|
            1 <= k < cs.len() ==> crate::window::span(
                lens_of(line_byte_lens(lines_of(content))),
                (#[trigger] cs[k]).metadata.start_line as int - 1,
                cs[k - 1].metadata.end_line as int,
            ) <= overlap,
{
    let lines = lines_of(content);
    let lens = line_byte_lens(lines);
    let ws = text_windows(content, chunk_size, overlap);
    crate::window::lemma_overlap_within_budget(lens, chunk_size, overlap);
    assert forall|k: int| 1 <= k < cs.len() implies crate::window::span(
        lens_of(lens),
        (#[trigger] cs[k]).metadata.start_line as int - 1,
        cs[k - 1].metadata.end_line as int,
    ) <= overlap by {
        assert(chunk_fits(cs[k], branch, commit, path, file_hash, indexed_at, lines, ws[k]));
        assert(chunk_fits(cs[k - 1], branch, commit, path, file_hash, indexed_at, lines, ws[k - 1]));
    }
}

} // verus!
