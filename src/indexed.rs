//! The per-file view of what the store already holds: for each file path,
//! the revision and whole-file hash of its stored chunks.

use vstd::prelude::*;
use crate::text::str_equal;

verus! {

/// Revision and whole-file hash recorded for one file.
#[derive(Debug, Clone)]
pub struct IndexedFileInfo {
    pub git_commit: String,
    pub file_hash: String,
}

/// The per-file view, rebuilt on each run from the stored metadata: one
/// entry per path, a later record for a path replacing an earlier one.
pub struct IndexedFiles {
    paths: Vec<String>,
    infos: Vec<IndexedFileInfo>,
}

/// Revision and file hash of a record, as text.
pub open spec fn info_view(i: IndexedFileInfo) -> (Seq<char>, Seq<char>) {
    (i.git_commit@, i.file_hash@)
}

/// The map that paired keys and values describe, later pairs winning.
pub open spec fn map_of<V>(
    paths: Seq<Seq<char>>,
    infos: Seq<V>,
) -> Map<Seq<char>, V>
    decreases paths.len(),
{
    if paths.len() == 0 || infos.len() == 0 {
        Map::empty()
    } else {
        map_of(paths.drop_last(), infos.drop_last()).insert(paths.last(), infos.last())
    }
}

/// No path occurs twice.
pub open spec fn distinct(paths: Seq<Seq<char>>) -> bool {
    forall|i: int, j: int| 0 <= i < j < paths.len() ==> paths[i] != paths[j]
}

pub(crate) proof fn lemma_map_of_lookup<V>(
    paths: Seq<Seq<char>>,
    infos: Seq<V>,
)
    requires
        paths.len() == infos.len(),
        distinct(paths),
    ensures
        forall|p: Seq<char>| #[trigger]
            map_of(paths, infos).contains_key(p) <==> paths.contains(p),
        forall|i: int| 0 <= i < paths.len() ==> map_of(paths, infos)[#[trigger] paths[i]] == infos[i],
    decreases paths.len(),
{
    if paths.len() > 0 {
        let (ps, is) = (paths.drop_last(), infos.drop_last());
        lemma_map_of_lookup(ps, is);
        assert(map_of(paths, infos) == map_of(ps, is).insert(paths.last(), infos.last()));
        assert forall|p: Seq<char>| #[trigger]
            map_of(paths, infos).contains_key(p) <==> paths.contains(p) by {
            assert(map_of(ps, is).contains_key(p) == ps.contains(p));
            if p == paths.last() {
                assert(paths[paths.len() - 1] == p);
            } else if paths.contains(p) {
                let i = choose|i: int| 0 <= i < paths.len() && paths[i] == p;
                assert(i < paths.len() - 1);
                assert(ps[i] == p);
            }
            if ps.contains(p) {
                let i = choose|i: int| 0 <= i < ps.len() && ps[i] == p;
                assert(paths[i] == p);
            }
        }
        assert forall|i: int| 0 <= i < paths.len() implies map_of(paths, infos)[#[trigger] paths[i]]
            == infos[i] by {
            if i < paths.len() - 1 {
                assert(ps[i] == paths[i]);
            }
        }
    }
}

pub(crate) proof fn lemma_map_of_update<V>(
    paths: Seq<Seq<char>>,
    infos: Seq<V>,
    i: int,
    v: V,
)
    requires
        paths.len() == infos.len(),
        distinct(paths),
        0 <= i < paths.len(),
    ensures
        map_of(paths, infos.update(i, v)) == map_of(paths, infos).insert(paths[i], v),
{
    let updated = infos.update(i, v);
    lemma_map_of_lookup(paths, infos);
    lemma_map_of_lookup(paths, updated);
    assert forall|j: int| 0 <= j < paths.len() implies map_of(paths, updated)[#[trigger] paths[j]]
        == map_of(paths, infos).insert(paths[i], v)[paths[j]] by {
        if j != i {
            assert(paths[j] != paths[i]);
        }
    }
    assert(map_of(paths, updated) =~= map_of(paths, infos).insert(paths[i], v)) by {
        assert forall|p: Seq<char>| #[trigger] map_of(paths, updated).contains_key(p) implies
            map_of(paths, updated)[p] == map_of(paths, infos).insert(paths[i], v)[p] by {
            let j = choose|j: int| 0 <= j < paths.len() && paths[j] == p;
        }
    }
}

impl IndexedFiles {
    /// Paths and records are paired one to one, and no path occurs twice.
    pub closed spec fn wf(&self) -> bool {
        &&& self.paths@.len() == self.infos@.len()
        &&& distinct(self.paths@.map_values(|p: String| p@))
    }

    /// For each recorded path, its revision and file hash.
    pub closed spec fn view(&self) -> Map<Seq<char>, (Seq<char>, Seq<char>)> {
        map_of(self.paths@.map_values(|p: String| p@), self.infos@.map_values(|i: IndexedFileInfo| info_view(i)))
    }

    /// The empty view.
    pub fn new() -> (r: Self)
        ensures
            r.wf(),
            r.view() == Map::<Seq<char>, (Seq<char>, Seq<char>)>::empty(),
    {
        let r = IndexedFiles { paths: Vec::new(), infos: Vec::new() };
        assert(r.paths@.map_values(|p: String| p@) =~= seq![]);
        r
    }

    /// Position of `path` among the recorded paths.
    fn position(&self, path: &str) -> (r: Option<usize>)
        requires
            self.wf(),
        ensures
            match r {
                Some(i) => i < self.paths@.len() && self.paths@[i as int]@ == path@,
                None => !self.view().contains_key(path@),
            },
    {
        let ghost ps = self.paths@.map_values(|p: String| p@);
        proof {
            lemma_map_of_lookup(ps, self.infos@.map_values(|i: IndexedFileInfo| info_view(i)));
        }
        let mut i: usize = 0;
        while i < self.paths.len()
            invariant
                i <= self.paths@.len(),
                ps == self.paths@.map_values(|p: String| p@),
                forall|j: int| 0 <= j < i ==> ps[j] != path@,
            decreases self.paths@.len() - i,
        {
            if str_equal(self.paths[i].as_str(), path) {
                return Some(i);
            }
            i = i + 1;
        }
        assert(!ps.contains(path@));
        None
    }

    /// Records that `path` is stored at revision `git_commit` with file hash
    /// `file_hash`, replacing what was recorded for it before.
    pub fn record(&mut self, path: String, git_commit: String, file_hash: String)
        requires
            old(self).wf(),
        ensures
            final(self).wf(),
            final(self).view() == old(self).view().insert(path@, (git_commit@, file_hash@)),
    {
        let ghost ps = self.paths@.map_values(|p: String| p@);
        let ghost is = self.infos@.map_values(|i: IndexedFileInfo| info_view(i));
        let info = IndexedFileInfo { git_commit, file_hash };
        match self.position(path.as_str()) {
            Some(i) => {
                self.infos.set(i, info);
                proof {
                    lemma_map_of_update(ps, is, i as int, info_view(info));
                    assert(self.paths@.map_values(|p: String| p@) == ps);
                    assert(self.infos@.map_values(|i: IndexedFileInfo| info_view(i)) =~= is.update(
                        i as int,
                        info_view(info),
                    ));
                    assert(ps[i as int] == path@);
                }
            },
            None => {
                proof {
                    lemma_map_of_lookup(ps, is);
                }
                self.paths.push(path);
                self.infos.push(info);
                proof {
                    let ps2 = self.paths@.map_values(|p: String| p@);
                    let is2 = self.infos@.map_values(|i: IndexedFileInfo| info_view(i));
                    assert(ps2.drop_last() =~= ps);
                    assert(is2.drop_last() =~= is);
                    assert(distinct(ps2)) by {
                        assert forall|a: int, b: int| 0 <= a < b < ps2.len() implies ps2[a]
                            != ps2[b] by {
                            assert(ps2[a] == ps[a]);
                            if b == ps2.len() - 1 {
                                assert(ps2[b] == path@);
                                assert(ps.contains(ps[a]));
                            } else {
                                assert(ps2[b] == ps[b]);
                            }
                        }
                    }
                }
            },
        }
    }

    /// Records the fields read from one stored chunk's metadata, where all
    /// three are present; otherwise leaves the view as it was.
    pub fn record_fields(
        &mut self,
        file_path: Option<String>,
        git_commit: Option<String>,
        file_hash: Option<String>,
    )
        requires
            old(self).wf(),
        ensures
            final(self).wf(),
            match (file_path, git_commit, file_hash) {
                (Some(p), Some(c), Some(h)) => final(self).view() == old(self).view().insert(
                    p@,
                    (c@, h@),
                ),
                _ => final(self).view() == old(self).view(),
            },
    {
        match (file_path, git_commit, file_hash) {
            (Some(p), Some(c), Some(h)) => self.record(p, c, h),
            _ => {},
        }
    }

    /// What is recorded for `path`, if anything.
    pub fn get(&self, path: &str) -> (r: Option<&IndexedFileInfo>)
        requires
            self.wf(),
        ensures
            match r {
                Some(info) => self.view().contains_key(path@) && self.view()[path@] == info_view(*info),
                None => !self.view().contains_key(path@),
            },
    {
        proof {
            lemma_map_of_lookup(
                self.paths@.map_values(|p: String| p@),
                self.infos@.map_values(|i: IndexedFileInfo| info_view(i)),
            );
        }
        match self.position(path) {
            Some(i) => {
                let ghost ps = self.paths@.map_values(|p: String| p@);
                assert(ps[i as int] == path@);
                Some(&self.infos[i])
            },
            None => None,
        }
    }

    /// Whether anything is recorded for `path`.
    pub fn contains_key(&self, path: &str) -> (r: bool)
        requires
            self.wf(),
        ensures
            r == self.view().contains_key(path@),
    {
        self.get(path).is_some()
    }
}

} // verus!
