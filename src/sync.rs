//! Keeping the store in step with a branch's current revision: which stored
//! chunks are stale, which files must be chunked again, and how store
//! responses are read.

use vstd::prelude::*;
use crate::batches::{batch_ranges, batches_of};
use crate::indexed::IndexedFiles;
use crate::text::{contains_seq, str_contains};

verus! {

/// Most ids that one delete request carries.
pub const DELETE_BATCH_LIMIT: usize = 1000;

/// Rows that one page of a paginated read asks for.
pub const PAGE_LIMIT: usize = 1000;

/// Files processed between two progress reports.
pub const PROGRESS_INTERVAL: usize = 100;

/// The stale-revision sweep runs only in incremental mode and only where
/// both the revision and the branch are known.
pub open spec fn sweep_applies_spec(incremental: bool, git_hash: Seq<char>, git_branch: Seq<char>) -> bool {
    incremental && git_hash.len() > 0 && git_branch.len() > 0
}

/// Whether this run first asks the store whether the branch is already
/// indexed at this revision, and otherwise sweeps the branch's chunks of
/// other revisions.
pub fn sweep_applies(incremental: bool, git_hash: &str, git_branch: &str) -> (r: bool)
    ensures
        r == sweep_applies_spec(incremental, git_hash@, git_branch@),
{
    incremental && !git_hash.is_empty() && !git_branch.is_empty()
}

/// What the store, the scan or the last action reported to a run.
#[derive(Debug, Clone, Copy, PartialEq, Eq, Structural)]
pub enum RunEvent {
    /// The run begins.
    Started,
    /// Whether the store already holds a chunk of this branch at this revision.
    Indexed(bool),
    /// The branch's chunks of other revisions are deleted.
    Swept,
    /// The per-file view of the store has been read.
    ViewLoaded,
    /// The scan found this many files to chunk.
    Scanned(usize),
}

/// What a run does next.
#[derive(Debug, Clone, Copy, PartialEq, Eq, Structural)]
pub enum RunAction {
    /// Ask whether the branch is already indexed at this revision.
    CheckIndexed,
    /// Delete every chunk of the branch at another revision.
    Sweep,
    /// Read the per-file view of the store.
    LoadView,
    /// Scan the tree and plan each file against the view (an empty view
    /// outside incremental mode).
    Scan,
    /// Report and stop, writing nothing more.
    Finish,
    /// Delete the old chunks of the planned files, then chunk, embed and
    /// upload them, report and stop.
    PurgeThenUpload,
}

/// The next action of a run after `ev`.
pub open spec fn next_action_spec(
    incremental: bool,
    git_hash: Seq<char>,
    git_branch: Seq<char>,
    ev: RunEvent,
) -> RunAction {
    match ev {
        RunEvent::Started => if sweep_applies_spec(incremental, git_hash, git_branch) {
            RunAction::CheckIndexed
        } else if incremental {
            RunAction::LoadView
        } else {
            RunAction::Scan
        },
        RunEvent::Indexed(true) => RunAction::Finish,
        RunEvent::Indexed(false) => RunAction::Sweep,
        RunEvent::Swept => RunAction::LoadView,
        RunEvent::ViewLoaded => RunAction::Scan,
        RunEvent::Scanned(n) => if n == 0 {
            RunAction::Finish
        } else {
            RunAction::PurgeThenUpload
        },
    }
}

/// The next action of a run after `ev`: check for the current revision
/// first where the sweep applies, stop at once where it is already indexed,
/// sweep before reading the view, stop where nothing is planned, and only
/// then delete and upload.
pub fn next_action(incremental: bool, git_hash: &str, git_branch: &str, ev: RunEvent) -> (r:
    RunAction)
    ensures
        r == next_action_spec(incremental, git_hash@, git_branch@, ev),
{
    match ev {
        RunEvent::Started => if sweep_applies(incremental, git_hash, git_branch) {
            RunAction::CheckIndexed
        } else if incremental {
            RunAction::LoadView
        } else {
            RunAction::Scan
        },
        RunEvent::Indexed(present) => if present {
            RunAction::Finish
        } else {
            RunAction::Sweep
        },
        RunEvent::Swept => RunAction::LoadView,
        RunEvent::ViewLoaded => RunAction::Scan,
        RunEvent::Scanned(n) => if n == 0 {
            RunAction::Finish
        } else {
            RunAction::PurgeThenUpload
        },
    }
}

/// `e` is what performing `a` reports; `Finish` and `PurgeThenUpload` end a
/// run, so nothing answers them.
pub open spec fn answers(a: RunAction, e: RunEvent) -> bool {
    match a {
        RunAction::CheckIndexed => e is Indexed,
        RunAction::Sweep => e == RunEvent::Swept,
        RunAction::LoadView => e == RunEvent::ViewLoaded,
        RunAction::Scan => e is Scanned,
        RunAction::Finish => false,
        RunAction::PurgeThenUpload => false,
    }
}

/// `evs` are the events of a run driven by `next_action`: it starts, and
/// each later event answers the action chosen after the one before.
pub open spec fn is_run(
    incremental: bool,
    git_hash: Seq<char>,
    git_branch: Seq<char>,
    evs: Seq<RunEvent>,
) -> bool {
    &&& evs.len() > 0
    &&& evs[0] == RunEvent::Started
    &&& forall|k: int|
        1 <= k < evs.len() ==> answers(
            next_action_spec(incremental, git_hash, git_branch, evs[k - 1]),
            #[trigger] evs[k],
        )
}

/// The step of a run at which an event can arrive, where the sweep applies.
pub open spec fn step_of(e: RunEvent) -> int {
    match e {
        RunEvent::Started => 0,
        RunEvent::Indexed(_) => 1,
        RunEvent::Swept => 2,
        RunEvent::ViewLoaded => 3,
        RunEvent::Scanned(_) => 4,
    }
}

proof fn lemma_run_steps(incremental: bool, git_hash: Seq<char>, git_branch: Seq<char>, evs: Seq<RunEvent>, k: int)
    requires
        is_run(incremental, git_hash, git_branch, evs),
        sweep_applies_spec(incremental, git_hash, git_branch),
        0 <= k < evs.len(),
    ensures
        step_of(evs[k]) == k,
        k >= 2 ==> evs[1] == RunEvent::Indexed(false),
    decreases k,
{
    if k > 0 {
        lemma_run_steps(incremental, git_hash, git_branch, evs, k - 1);
        assert(answers(next_action_spec(incremental, git_hash, git_branch, evs[k - 1]), evs[k]));
    }
}

/// Nothing is ever answered with `Started`, so it opens a run and never
/// recurs.
proof fn lemma_started_only_first(incremental: bool, git_hash: Seq<char>, git_branch: Seq<char>, evs: Seq<RunEvent>, k: int)
    requires
        is_run(incremental, git_hash, git_branch, evs),
        1 <= k < evs.len(),
    ensures
        evs[k] != RunEvent::Started,
{
    assert(answers(next_action_spec(incremental, git_hash, git_branch, evs[k - 1]), evs[k]));
}

/// Where the store already holds the branch at this revision, the run
/// checks, then stops: it never sweeps, deletes or uploads.
pub proof fn lemma_indexed_run_writes_nothing(
    incremental: bool,
    git_hash: Seq<char>,
    git_branch: Seq<char>,
    evs: Seq<RunEvent>,
    k: int,
)
    requires
        is_run(incremental, git_hash, git_branch, evs),
        0 <= k < evs.len(),
        evs[k] == RunEvent::Indexed(true),
    ensures
        forall|j: int|
            0 <= j < evs.len() ==> {
                let a = next_action_spec(incremental, git_hash, git_branch, #[trigger] evs[j]);
                a != RunAction::Sweep && a != RunAction::PurgeThenUpload
            },
        evs.len() == 2,
{
    assert(k >= 1);
    assert(answers(next_action_spec(incremental, git_hash, git_branch, evs[k - 1]), evs[k]));
    if k > 1 {
        lemma_started_only_first(incremental, git_hash, git_branch, evs, k - 1);
    }
    assert(k == 1);
    if evs.len() > 2 {
        assert(answers(next_action_spec(incremental, git_hash, git_branch, evs[1]), evs[2]));
    }
    assert(sweep_applies_spec(incremental, git_hash, git_branch));
}

/// Where the sweep applies, a run that uploads has swept first: the action
/// after its second event is `Sweep`, and uploading comes only after its
/// fifth.
pub proof fn lemma_sweep_before_upload(
    incremental: bool,
    git_hash: Seq<char>,
    git_branch: Seq<char>,
    evs: Seq<RunEvent>,
    j: int,
)
    requires
        is_run(incremental, git_hash, git_branch, evs),
        sweep_applies_spec(incremental, git_hash, git_branch),
        0 <= j < evs.len(),
        next_action_spec(incremental, git_hash, git_branch, evs[j]) == RunAction::PurgeThenUpload,
    ensures
        j == 4,
        next_action_spec(incremental, git_hash, git_branch, evs[1]) == RunAction::Sweep,
{
    lemma_run_steps(incremental, git_hash, git_branch, evs, j);
}

/// The delete requests for `stale_count` stale chunk ids: ranges into the
/// id list, of at most `DELETE_BATCH_LIMIT` ids each.
pub fn stale_delete_batches(stale_count: usize) -> (r: Vec<(usize, usize)>)
    ensures
        r@.map_values(|p: (usize, usize)| (p.0 as int, p.1 as int)) == batches_of(
            stale_count as int,
            DELETE_BATCH_LIMIT as int,
        ),
{
    batch_ranges(stale_count, DELETE_BATCH_LIMIT)
}

/// What a run does with one scanned file.
#[derive(Debug, Clone, Copy, PartialEq, Eq, Structural)]
pub struct FilePlan {
    /// The file is chunked, embedded and uploaded in this run.
    pub reindex: bool,
    /// Its previously stored chunks are deleted before the new ones are added.
    pub purge_first: bool,
}

/// A file needs chunking unless the view records it at the current revision.
pub open spec fn needs_reindex_spec(
    view: Map<Seq<char>, (Seq<char>, Seq<char>)>,
    path: Seq<char>,
    git_hash: Seq<char>,
) -> bool {
    !view.contains_key(path) || view[path].0 != git_hash
}

/// The plan for a file: outside incremental mode every file is chunked and
/// nothing is deleted first; in incremental mode a file is chunked where it
/// needs it, and its old chunks are deleted first where it has any.
pub open spec fn file_plan_spec(
    view: Map<Seq<char>, (Seq<char>, Seq<char>)>,
    path: Seq<char>,
    git_hash: Seq<char>,
    incremental: bool,
) -> FilePlan {
    if !incremental {
        FilePlan { reindex: true, purge_first: false }
    } else {
        FilePlan {
            reindex: needs_reindex_spec(view, path, git_hash),
            purge_first: needs_reindex_spec(view, path, git_hash) && view.contains_key(path),
        }
    }
}

impl IndexedFiles {
    /// Whether the file at `path` must be chunked again for revision
    /// `git_hash`.
    pub fn needs_reindex(&self, path: &str, git_hash: &str) -> (r: bool)
        requires
            self.wf(),
        ensures
            r == needs_reindex_spec(self.view(), path@, git_hash@),
    {
        match self.get(path) {
            Some(info) => !crate::text::str_equal(info.git_commit.as_str(), git_hash),
            None => true,
        }
    }
}

/// The plan for each scanned file (paths relative to the indexed root), in
/// order.
pub fn plan_files(
    view: &IndexedFiles,
    paths: &Vec<String>,
    git_hash: &str,
    incremental: bool,
) -> (r: Vec<FilePlan>)
    requires
        view.wf(),
    ensures
        r@.len() == paths@.len(),
        forall|i: int|
            0 <= i < paths@.len() ==> #[trigger] r@[i] == file_plan_spec(
                view.view(),
                paths@[i]@,
                git_hash@,
                incremental,
            ),
{
    let mut out: Vec<FilePlan> = Vec::new();
    let mut i: usize = 0;
    while i < paths.len()
        invariant
            i <= paths@.len(),
            view.wf(),
            out@.len() == i,
            forall|j: int|
                0 <= j < i ==> #[trigger] out@[j] == file_plan_spec(
                    view.view(),
                    paths@[j]@,
                    git_hash@,
                    incremental,
                ),
        decreases paths@.len() - i,
    {
        let path = paths[i].as_str();
        let plan = if !incremental {
            FilePlan { reindex: true, purge_first: false }
        } else {
            let reindex = view.needs_reindex(path, git_hash);
            FilePlan { reindex, purge_first: reindex && view.contains_key(path) }
        };
        out.push(plan);
        i = i + 1;
    }
    out
}

/// In incremental mode a file recorded at the current revision is neither
/// chunked nor deleted, so a repeated run at one revision writes nothing for
/// it; and a file that is chunked while the view records it has its old
/// chunks deleted first, so no stale windows of it remain beside the new.
pub proof fn lemma_plans_keep_store_consistent(
    view: Map<Seq<char>, (Seq<char>, Seq<char>)>,
    path: Seq<char>,
    git_hash: Seq<char>,
)
    ensures
        view.contains_key(path) && view[path].0 == git_hash ==> file_plan_spec(
            view,
            path,
            git_hash,
            true,
        ) == (FilePlan { reindex: false, purge_first: false }),
        file_plan_spec(view, path, git_hash, true).reindex && view.contains_key(path)
            ==> file_plan_spec(view, path, git_hash, true).purge_first,
        !view.contains_key(path) ==> !file_plan_spec(view, path, git_hash, true).purge_first,
{
}

/// How many of `plans` chunk their file.
pub open spec fn reindex_total(plans: Seq<FilePlan>) -> int
    decreases plans.len(),
{
    if plans.len() == 0 {
        0
    } else {
        reindex_total(plans.drop_last()) + if plans.last().reindex {
            1int
        } else {
            0int
        }
    }
}

/// The number of files a run chunks, as reported by `RunEvent::Scanned`.
pub fn reindex_count(plans: &Vec<FilePlan>) -> (r: usize)
    ensures
        r == reindex_total(plans@),
{
    let mut count: usize = 0;
    let mut i: usize = 0;
    while i < plans.len()
        invariant
            i <= plans@.len(),
            count == reindex_total(plans@.take(i as int)),
            count <= i,
        decreases plans@.len() - i,
    {
        assert(plans@.take(i + 1).drop_last() =~= plans@.take(i as int));
        if plans[i].reindex {
            count = count + 1;
        }
        i = i + 1;
    }
    assert(plans@.take(plans@.len() as int) =~= plans@);
    count
}

/// A failed add is taken as already applied where the store says the ids
/// exist.
pub open spec fn add_failure_tolerated_spec(error_text: Seq<char>) -> bool {
    contains_seq(error_text, "already exists"@) || contains_seq(error_text, "Duplicate"@)
}

/// Whether a failed add request, answered with `error_text`, is tolerated.
pub fn add_failure_tolerated(error_text: &str) -> (r: bool)
    ensures
        r == add_failure_tolerated_spec(error_text@),
{
    str_contains(error_text, "already exists") || str_contains(error_text, "Duplicate")
}

/// Whether a paginated read goes on after a page of `page_len` rows asked
/// for with `limit`: only after a full, non-empty page.
pub fn more_pages(page_len: usize, limit: usize) -> (r: bool)
    ensures
        r == (page_len > 0 && page_len >= limit),
{
    page_len > 0 && page_len >= limit
}

/// Whether a progress report is due once `processed` files are done.
pub fn progress_due(processed: usize) -> (r: bool)
    ensures
        r == (processed % PROGRESS_INTERVAL == 0),
{
    processed % PROGRESS_INTERVAL == 0
}

/// Health probes made before the embedding service is given up on.
pub const HEALTH_ATTEMPTS: usize = 30;

/// Whether the startup probe waits and tries again after failed attempt
/// `attempt` (counted from 0): after every attempt but the last.
pub fn probe_again(attempt: usize) -> (r: bool)
    ensures
        r == (attempt + 1 < HEALTH_ATTEMPTS),
{
    attempt < HEALTH_ATTEMPTS - 1
}

/// Position of the first collection called `name` among the store's
/// collections, if any.
pub fn collection_position(names: &Vec<String>, name: &str) -> (r: Option<usize>)
    ensures
        match r {
            Some(i) => i < names@.len() && names@[i as int]@ == name@ && forall|j: int|
                0 <= j < i ==> names@[j]@ != name@,
            None => forall|j: int| 0 <= j < names@.len() ==> names@[j]@ != name@,
        },
{
    let mut i: usize = 0;
    while i < names.len()
        invariant
            i <= names@.len(),
            forall|j: int| 0 <= j < i ==> names@[j]@ != name@,
        decreases names@.len() - i,
    {
        if crate::text::str_equal(names[i].as_str(), name) {
            return Some(i);
        }
        i = i + 1;
    }
    None
}

} // verus!
