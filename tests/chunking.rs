use indexer::chunker::{short_revision, Chunk, CodeChunker, CHUNK_OVERLAP, CHUNK_SIZE};
use indexer::hashing::hash_content;
use indexer::window::chunk_windows;

fn chunker() -> CodeChunker {
    CodeChunker::new("abc123def456".to_string(), "main".to_string())
}

fn lines_of(ranges: &[Chunk]) -> Vec<(usize, usize)> {
    ranges.iter().map(|c| (c.metadata.start_line, c.metadata.end_line)).collect()
}

#[test]
fn sha256_hex_of_known_texts() {
    assert_eq!(
        hash_content(""),
        "e3b0c44298fc1c149afbf4c8996fb92427ae41e4649b934ca495991b7852b855"
    );
    assert_eq!(
        hash_content("abc"),
        "ba7816bf8f01cfea414140de5dae2223b00361a396177a9cb410ff61f20015ad"
    );
}

#[test]
fn windows_of_small_file_form_one_chunk() {
    let lens = vec![40usize; 50];
    assert_eq!(chunk_windows(&lens, 3000, 500), vec![(1, 50)]);
}

#[test]
fn windows_of_seven_thousand_bytes() {
    let lens = vec![99usize; 70];
    assert_eq!(chunk_windows(&lens, 3000, 500), vec![(1, 30), (26, 55), (51, 70)]);
}

#[test]
fn windows_of_nothing() {
    assert_eq!(chunk_windows(&Vec::new(), 3000, 500), Vec::<(usize, usize)>::new());
}

#[test]
fn oversized_line_stands_alone() {
    let lens = vec![10usize, 5000, 10];
    assert_eq!(chunk_windows(&lens, 3000, 500), vec![(1, 1), (1, 2), (3, 3)]);
}

#[test]
fn overlap_too_small_for_last_line_keeps_nothing() {
    let lens = vec![600usize, 600, 600, 600, 600, 600];
    assert_eq!(chunk_windows(&lens, 3000, 500), vec![(1, 4), (5, 6)]);
}

#[test]
fn end_to_end_line_ranges() {
    let c = chunker();
    let small: String = (0..50).map(|i| format!("{:039}\n", i)).collect();
    let chunks = c.chunk_file(&small, "src/small.rs", 0);
    assert_eq!(lines_of(&chunks), vec![(1, 50)]);

    let big: String = (0..70).map(|i| format!("{:099}\n", i)).collect();
    assert_eq!(big.len(), 7000);
    let chunks = c.chunk_file(&big, "src/big.rs", 0);
    assert_eq!(lines_of(&chunks), vec![(1, 30), (26, 55), (51, 70)]);
    for pair in chunks.windows(2) {
        let shared = pair[0].metadata.end_line + 1 - pair[1].metadata.start_line;
        assert!(shared * 100 <= CHUNK_OVERLAP);
    }
    assert_eq!(CHUNK_SIZE, 3000);
}

#[test]
fn chunk_fields_and_id() {
    let c = chunker();
    let chunks = c.chunk_code("a\nb\n", "src/lib.rs", "filehash", 3000, 500, 7);
    assert_eq!(chunks.len(), 1);
    let ch = &chunks[0];
    assert_eq!(ch.id, "main_abc123de_src_lib_rs_1_2");
    assert_eq!(ch.text, "a\nb");
    assert_eq!(ch.metadata.file_path, "src/lib.rs");
    assert_eq!(ch.metadata.start_line, 1);
    assert_eq!(ch.metadata.end_line, 2);
    assert_eq!(ch.metadata.file_type, ".rs");
    assert_eq!(ch.metadata.content_hash, hash_content("a\nb"));
    assert_eq!(ch.metadata.file_hash, "filehash");
    assert_eq!(ch.metadata.git_commit, "abc123def456");
    assert_eq!(ch.metadata.git_branch, "main");
    assert_eq!(ch.metadata.indexed_at, 7);
}

#[test]
fn short_revision_and_no_extension() {
    let c = CodeChunker::new("abc".to_string(), "dev".to_string());
    let chunks = c.chunk_code("x", "docker/Dockerfile", "h", 3000, 500, 0);
    assert_eq!(chunks[0].id, "dev_abc_docker_Dockerfile_1_1");
    assert_eq!(chunks[0].metadata.file_type, "");
}

#[test]
fn crlf_line_endings_are_dropped() {
    let c = chunker();
    let chunks = c.chunk_code("a\r\nb\r\n\r\nc", "x.txt", "h", 3000, 500, 0);
    assert_eq!(chunks.len(), 1);
    assert_eq!(chunks[0].text, "a\nb\n\nc");
    assert_eq!(chunks[0].metadata.end_line, 4);
}

#[test]
fn ids_carry_two_digit_line_numbers() {
    let c = chunker();
    let text: String = (0..12).map(|i| format!("{:09}\n", i)).collect();
    let chunks = c.chunk_code(&text, "a/b.c.py", "h", 30, 10, 0);
    assert_eq!(chunks[0].id, "main_abc123de_a_b_c_py_1_3");
    let last = chunks.last().unwrap();
    assert_eq!(last.metadata.end_line, 12);
    assert!(last.id.ends_with("_12"));
}

#[test]
fn chunking_twice_gives_identical_ids_and_texts() {
    let c = chunker();
    let text: String = (0..300).map(|i| format!("line number {}\n", i)).collect();
    let a = c.chunk_code(&text, "src/x.rs", "h", 500, 100, 1);
    let b = c.chunk_code(&text, "src/x.rs", "h", 500, 100, 2);
    assert!(a.len() > 1);
    assert_eq!(a.len(), b.len());
    for (x, y) in a.iter().zip(b.iter()) {
        assert_eq!(x.id, y.id);
        assert_eq!(x.text, y.text);
    }
}

#[test]
fn new_lines_of_each_chunk_rebuild_the_file() {
    let c = chunker();
    let text: String = (0..200).map(|i| format!("{}{}\n", "x".repeat(i % 37), i)).collect();
    let lines: Vec<&str> = text.lines().collect();
    let chunks = c.chunk_code(&text, "f.rs", "h", 400, 120, 0);
    let mut rebuilt: Vec<String> = Vec::new();
    let mut prev_end = 0usize;
    for ch in &chunks {
        let ls: Vec<&str> = ch.text.split('\n').collect();
        assert_eq!(ls.len(), ch.metadata.end_line - ch.metadata.start_line + 1);
        let skip = prev_end + 1 - ch.metadata.start_line;
        for l in &ls[skip..] {
            rebuilt.push(l.to_string());
        }
        let shared: usize = ls[..skip].iter().map(|l| l.len() + 1).sum();
        assert!(shared <= 120);
        prev_end = ch.metadata.end_line;
    }
    assert_eq!(rebuilt, lines);
}

#[test]
fn empty_file_has_no_chunks() {
    let c = chunker();
    assert!(c.chunk_file("", "a.rs", 0).is_empty());
    let one = c.chunk_file("fn main() {}", "a.rs", 0);
    assert_eq!(one.len(), 1);
    assert_eq!(one[0].metadata.file_hash, hash_content("fn main() {}"));
}

#[test]
fn revision_prefix_counts_bytes() {
    assert_eq!(short_revision("abc123def456"), "abc123de");
    assert_eq!(short_revision("abc"), "abc");
    assert_eq!(short_revision(""), "");
    assert_eq!(short_revision("\u{20ac}\u{20ac}abcdefg"), "\u{20ac}\u{20ac}ab");
    assert_eq!(short_revision("\u{20ac}\u{20ac}\u{20ac}x"), "\u{20ac}\u{20ac}");
    let c = CodeChunker::new("\u{20ac}\u{20ac}abcdefg".to_string(), "main".to_string());
    let chunks = c.chunk_code("x", "a.rs", "h", 3000, 500, 0);
    assert_eq!(chunks[0].id, "main_\u{20ac}\u{20ac}ab_a_rs_1_1");
}

#[test]
fn decimal_rendering() {
    assert_eq!(indexer::text::decimal(0), "0");
    assert_eq!(indexer::text::decimal(7), "7");
    assert_eq!(indexer::text::decimal(1050), "1050");
    assert_eq!(indexer::text::decimal(usize::MAX), usize::MAX.to_string());
}
