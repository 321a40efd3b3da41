//! Writing files: what is written, and all or nothing of it.
use vstd::prelude::*;

use crate::encoding;
use crate::encoding::{encode, SourceEncoding};
use crate::strings::owned;

verus! {

/// The bytes that stand for a text in a file: UTF-8, without a byte-order mark.
pub fn write_atomic(content: &str) -> (bytes: Vec<u8>)
    ensures
        bytes@ == encoding::encoded(content@, SourceEncoding::Utf8),
{
    encode(content, SourceEncoding::Utf8)
}

/// A file that is to be written as part of a batch.
#[derive(Debug, Clone, PartialEq, Eq)]
pub struct StagedWrite {
    pub path: String,
    pub bytes: Vec<u8>,
}

/// The path and the bytes of a staged write.
pub open spec fn staged_view(v: Seq<StagedWrite>) -> Seq<(Seq<char>, Seq<u8>)> {
    Seq::new(v.len(), |i: int| (v[i].path@, v[i].bytes@))
}

/// A batch of writes of which all happen or none.
pub struct AtomicBatch {
    pending: Vec<StagedWrite>,
}

impl View for AtomicBatch {
    type V = Seq<(Seq<char>, Seq<u8>)>;

    closed spec fn view(&self) -> Seq<(Seq<char>, Seq<u8>)> {
        staged_view(self.pending@)
    }
}

impl Default for AtomicBatch {
    fn default() -> (b: AtomicBatch)
        ensures
            b@ == Seq::<(Seq<char>, Seq<u8>)>::empty(),
    {
        AtomicBatch::new()
    }
}

impl AtomicBatch {
    /// An empty batch.
    pub fn new() -> (b: AtomicBatch)
        ensures
            b@ == Seq::<(Seq<char>, Seq<u8>)>::empty(),
    {
        let pending: Vec<StagedWrite> = Vec::new();
        proof {
            assert(staged_view(pending@) =~= Seq::<(Seq<char>, Seq<u8>)>::empty());
        }
        AtomicBatch { pending }
    }

    /// Stages a text for a file, in UTF-8.
    pub fn stage(&mut self, path: &str, content: &str)
        ensures
            final(self)@ == old(self)@.push(
                (path@, encoding::encoded(content@, SourceEncoding::Utf8)),
            ),
    {
        self.stage_encoded(path, content, SourceEncoding::Utf8);
    }

    /// Stages a text for a file, in an encoding.
    pub fn stage_encoded(&mut self, path: &str, content: &str, encoding: SourceEncoding)
        ensures
            final(self)@ == old(self)@.push((path@, encoding::encoded(content@, encoding))),
    {
        self.stage_bytes(path, encode(content, encoding));
    }

    /// Stages bytes for a file.
    pub fn stage_bytes(&mut self, path: &str, bytes: Vec<u8>)
        ensures
            final(self)@ == old(self)@.push((path@, bytes@)),
    {
        self.pending.push(StagedWrite { path: owned(path), bytes });
        proof {
            assert(staged_view(self.pending@) =~= old(self)@.push((path@, bytes@)));
        }
    }

    /// The writes that are staged.
    pub fn pending(&self) -> (r: &[StagedWrite])
        ensures
            staged_view(r@) == self@,
    {
        self.pending.as_slice()
    }

    /// Begins to commit the batch.
    pub fn commit(self) -> (c: BatchCommit)
        ensures
            c@ == commit_start(self@.len()),
    {
        let total = self.pending.len();
        let originals: Vec<Option<Vec<u8>>> = Vec::new();
        proof {
            assert(originals_view(originals@) =~= Seq::<Option<Seq<u8>>>::empty());
        }
        BatchCommit {
            total,
            originals,
            committed: 0,
            stage: if total == 0 {
                CommitStage::Finished { error: None }
            } else {
                CommitStage::Saving
            },
        }
    }
}

/// A batch of these files, in UTF-8, in this order.
pub fn write_atomic_batch(files: &Vec<(String, String)>) -> (b: AtomicBatch)
    ensures
        b@ == Seq::new(
            files@.len(),
            |i: int|
                (files@[i].0@, encoding::encoded(files@[i].1@, SourceEncoding::Utf8)),
        ),
{
    let mut batch = AtomicBatch::new();
    let total = files.len();
    let mut i: usize = 0;
    while i < total
        invariant
            total == files@.len(),
            i <= total,
            batch@.len() == i,
            forall|k: int| #![trigger batch@[k]]
                0 <= k < i ==> batch@[k] == (
                    files@[k].0@,
                    encoding::encoded(files@[k].1@, SourceEncoding::Utf8),
                ),
        decreases total - i,
    {
        batch.stage(files[i].0.as_str(), files[i].1.as_str());
        i += 1;
    }
    proof {
        assert(batch@ =~= Seq::new(
            files@.len(),
            |i: int| (files@[i].0@, encoding::encoded(files@[i].1@, SourceEncoding::Utf8)),
        ));
    }
    batch
}

// ---------------------------------------------------------------------------
// Committing
// ---------------------------------------------------------------------------

/// What a commit wants done with the write of a number.
#[derive(Debug, Clone, PartialEq, Eq)]
pub enum CommitStep {
    /// Read what the file holds now.
    Save(usize),
    /// Put the staged bytes in place of the file.
    Persist(usize),
    /// Put these bytes back in place of the file.
    Restore(usize, Vec<u8>),
    /// Remove the file, which was not there before.
    Remove(usize),
    /// Nothing more.
    Finish,
}

/// How it went.
#[derive(Debug, Clone, PartialEq, Eq)]
pub enum CommitEvent {
    Done,
    /// The file holds these bytes.
    Found(Vec<u8>),
    /// There is no such file.
    Absent,
    Failed(String),
}

/// What a [`CommitEvent`] says.
#[verifier::ext_equal]
pub enum CommitEventView {
    Done,
    Found(Seq<u8>),
    Absent,
    Failed(Seq<char>),
}

impl View for CommitEvent {
    type V = CommitEventView;

    open spec fn view(&self) -> CommitEventView {
        match self {
            CommitEvent::Done => CommitEventView::Done,
            CommitEvent::Found(b) => CommitEventView::Found(b@),
            CommitEvent::Absent => CommitEventView::Absent,
            CommitEvent::Failed(e) => CommitEventView::Failed(e@),
        }
    }
}

enum CommitStage {
    Saving,
    Persisting,
    RollingBack { next: usize, cause: String },
    Finished { error: Option<String> },
}

/// Where a commit stands.
#[verifier::ext_equal]
pub enum CommitStageView {
    /// Saving what the files hold.
    Saving,
    /// Putting the staged bytes in place.
    Persisting,
    /// Putting back what the files held, from number `next` on.
    RollingBack { next: int, cause: Seq<char> },
    /// Done, with all files written or none.
    Finished { error: Option<Seq<char>> },
}

impl CommitStage {
    spec fn shown(self) -> CommitStageView {
        match self {
            CommitStage::Saving => CommitStageView::Saving,
            CommitStage::Persisting => CommitStageView::Persisting,
            CommitStage::RollingBack { next, cause } => CommitStageView::RollingBack {
                next: next as int,
                cause: cause@,
            },
            CommitStage::Finished { error } => CommitStageView::Finished {
                error: crate::error::opt_view(error),
            },
        }
    }
}

/// What files held, `None` for one that was not there.
pub open spec fn originals_view(v: Seq<Option<Vec<u8>>>) -> Seq<Option<Seq<u8>>> {
    Seq::new(
        v.len(),
        |i: int|
            match v[i] {
                Some(b) => Some(b@),
                None => None,
            },
    )
}

/// A batch on its way to the disk. Before any file is replaced, what they all
/// hold is saved; where a file cannot be replaced, those before it are put
/// back as they were.
pub struct BatchCommit {
    total: usize,
    originals: Vec<Option<Vec<u8>>>,
    committed: usize,
    stage: CommitStage,
}

/// Where a [`BatchCommit`] stands.
#[verifier::ext_equal]
pub struct CommitView {
    /// How many files there are.
    pub total: int,
    /// What the files held that were saved so far.
    pub originals: Seq<Option<Seq<u8>>>,
    /// How many files were replaced.
    pub committed: int,
    pub stage: CommitStageView,
}

/// A commit before its first step.
pub open spec fn commit_start(total: nat) -> CommitView {
    CommitView {
        total: total as int,
        originals: Seq::empty(),
        committed: 0,
        stage: if total == 0 {
            CommitStageView::Finished { error: None }
        } else {
            CommitStageView::Saving
        },
    }
}

/// A commit that has saved another file.
pub open spec fn saved(c: CommitView, original: Option<Seq<u8>>) -> CommitView {
    let originals = c.originals.push(original);
    CommitView {
        originals,
        stage: if originals.len() >= c.total {
            CommitStageView::Persisting
        } else {
            CommitStageView::Saving
        },
        ..c
    }
}

/// A commit that has replaced another file.
pub open spec fn persisted(c: CommitView) -> CommitView {
    CommitView {
        committed: c.committed + 1,
        stage: if c.committed + 1 >= c.total {
            CommitStageView::Finished { error: None }
        } else {
            CommitStageView::Persisting
        },
        ..c
    }
}

/// A commit that goes back, from file number `next` on.
pub open spec fn rolling_back(c: CommitView, next: int, error: Seq<char>) -> CommitView {
    CommitView {
        stage: if next >= c.committed {
            CommitStageView::Finished { error: Some(error) }
        } else {
            CommitStageView::RollingBack { next, cause: error }
        },
        ..c
    }
}

/// What becomes of a commit that is told how its last step went. An answer that
/// does not fit what the commit waits for changes nothing; one that a file
/// could not be put back does not keep the others from being put back.
pub open spec fn answered(c: CommitView, event: CommitEventView) -> CommitView {
    match (c.stage, event) {
        (CommitStageView::Saving, CommitEventView::Found(b)) => saved(c, Some(b)),
        (CommitStageView::Saving, CommitEventView::Absent) => saved(c, None),
        (CommitStageView::Saving, CommitEventView::Failed(e)) => CommitView {
            stage: CommitStageView::Finished { error: Some(e) },
            ..c
        },
        (CommitStageView::Persisting, CommitEventView::Done) => persisted(c),
        (CommitStageView::Persisting, CommitEventView::Failed(e)) => rolling_back(c, 0, e),
        (CommitStageView::RollingBack { next, cause }, CommitEventView::Done) => rolling_back(
            c,
            next + 1,
            cause,
        ),
        (CommitStageView::RollingBack { next, cause }, CommitEventView::Failed(_)) => rolling_back(
            c,
            next + 1,
            cause,
        ),
        _ => c,
    }
}

impl View for BatchCommit {
    type V = CommitView;

    closed spec fn view(&self) -> CommitView {
        CommitView {
            total: self.total as int,
            originals: originals_view(self.originals@),
            committed: self.committed as int,
            stage: self.stage.shown(),
        }
    }
}

impl BatchCommit {
    #[verifier::type_invariant]
    spec fn valid(self) -> bool {
        match self.stage {
            CommitStage::Saving => self.originals@.len() < self.total && self.committed == 0,
            CommitStage::Persisting => self.originals@.len() == self.total && self.committed
                < self.total,
            CommitStage::RollingBack { next, .. } => self.originals@.len() == self.total && next
                < self.committed < self.total,
            CommitStage::Finished { .. } => true,
        }
    }

    /// What the commit wants done.
    pub fn action(&self) -> (a: CommitStep)
        ensures
            match self@.stage {
                CommitStageView::Saving => a == CommitStep::Save(self@.originals.len() as usize)
                    && self@.originals.len() < self@.total,
                CommitStageView::Persisting => a == CommitStep::Persist(self@.committed as usize)
                    && self@.committed < self@.total,
                CommitStageView::RollingBack { next, .. } => {
                    &&& next < self@.committed
                    &&& match self@.originals[next] {
                        Some(bytes) => a matches CommitStep::Restore(k, b) && k == next && b@
                            == bytes,
                        None => a == CommitStep::Remove(next as usize),
                    }
                },
                CommitStageView::Finished { .. } => a is Finish,
            },
    {
        proof {
            use_type_invariant(self);
        }
        match &self.stage {
            CommitStage::Saving => CommitStep::Save(self.originals.len()),
            CommitStage::Persisting => CommitStep::Persist(self.committed),
            CommitStage::RollingBack { next, .. } => match &self.originals[*next] {
                Some(bytes) => CommitStep::Restore(
                    *next,
                    vstd::slice::slice_to_vec(bytes.as_slice()),
                ),
                None => CommitStep::Remove(*next),
            },
            CommitStage::Finished { .. } => CommitStep::Finish,
        }
    }

    /// How the commit ended, `None` where it has not.
    pub fn result(&self) -> (r: Option<Result<(), String>>)
        ensures
            match self@.stage {
                CommitStageView::Finished { error } => match error {
                    Some(e) => r matches Some(Err(text)) && text@ == e,
                    None => r == Some(Ok::<(), String>(())),
                },
                _ => r is None,
            },
    {
        match &self.stage {
            CommitStage::Finished { error } => match error {
                Some(e) => Some(Err(e.clone())),
                None => Some(Ok(())),
            },
            _ => None,
        }
    }

    fn save(self, original: Option<Vec<u8>>) -> (c: BatchCommit)
        requires
            self@.stage is Saving,
        ensures
            c@ == saved(
                self@,
                match original {
                    Some(b) => Some(b@),
                    None => None,
                },
            ),
    {
        proof {
            use_type_invariant(&self);
        }
        let BatchCommit { total, originals, committed, stage } = self;
        let mut originals = originals;
        let ghost before = originals_view(originals@);
        originals.push(original);
        proof {
            assert(originals_view(originals@) =~= before.push(
                match original {
                    Some(b) => Some(b@),
                    None => None,
                },
            ));
        }
        let stage = if originals.len() >= total {
            CommitStage::Persisting
        } else {
            CommitStage::Saving
        };
        BatchCommit { total, originals, committed, stage }
    }

    fn roll_back(self, next: usize, error: String) -> (c: BatchCommit)
        requires
            self@.stage is Persisting || self@.stage is RollingBack,
        ensures
            c@ == rolling_back(self@, next as int, error@),
    {
        proof {
            use_type_invariant(&self);
        }
        let BatchCommit { total, originals, committed, stage } = self;
        let stage = if next >= committed {
            CommitStage::Finished { error: Some(error) }
        } else {
            CommitStage::RollingBack { next, cause: error }
        };
        BatchCommit { total, originals, committed, stage }
    }

    /// Tells the commit how its last step went.
    pub fn answer(self, event: CommitEvent) -> (c: BatchCommit)
        ensures
            c@ == answered(self@, event@),
    {
        proof {
            use_type_invariant(&self);
        }
        match &self.stage {
            CommitStage::Saving => match event {
                CommitEvent::Found(b) => self.save(Some(b)),
                CommitEvent::Absent => self.save(None),
                CommitEvent::Failed(e) => {
                    let BatchCommit { total, originals, committed, stage } = self;
                    BatchCommit {
                        total,
                        originals,
                        committed,
                        stage: CommitStage::Finished { error: Some(e) },
                    }
                },
                CommitEvent::Done => self,
            },
            CommitStage::Persisting => match event {
                CommitEvent::Done => {
                    let BatchCommit { total, originals, committed, stage } = self;
                    let committed: usize = committed + 1;
                    let stage = if committed >= total {
                        CommitStage::Finished { error: None }
                    } else {
                        CommitStage::Persisting
                    };
                    BatchCommit { total, originals, committed, stage }
                },
                CommitEvent::Failed(e) => self.roll_back(0, e),
                _ => self,
            },
            CommitStage::RollingBack { next, cause } => match event {
                CommitEvent::Done | CommitEvent::Failed(_) => {
                    let after: usize = *next + 1;
                    let reason = cause.clone();
                    self.roll_back(after, reason)
                },
                _ => self,
            },
            CommitStage::Finished { .. } => self,
        }
    }
}

// ---------------------------------------------------------------------------
// Laws
// ---------------------------------------------------------------------------

/// What files hold, by their paths.
pub open spec fn files_after(
    files: Map<Seq<char>, Seq<u8>>,
    staged: Seq<(Seq<char>, Seq<u8>)>,
    n: int,
) -> Map<Seq<char>, Seq<u8>>
    decreases n,
{
    if n <= 0 {
        files
    } else {
        files_after(files, staged, n - 1).insert(staged[n - 1].0, staged[n - 1].1)
    }
}

/// What files hold when the first `n` of them have been put back.
pub open spec fn files_restored(
    files: Map<Seq<char>, Seq<u8>>,
    staged: Seq<(Seq<char>, Seq<u8>)>,
    originals: Seq<Option<Seq<u8>>>,
    n: int,
) -> Map<Seq<char>, Seq<u8>>
    decreases n,
{
    if n <= 0 {
        files
    } else {
        let before = files_restored(files, staged, originals, n - 1);
        match originals[n - 1] {
            Some(bytes) => before.insert(staged[n - 1].0, bytes),
            None => before.remove(staged[n - 1].0),
        }
    }
}

/// What a file holds, `None` where it is not there.
pub open spec fn held(files: Map<Seq<char>, Seq<u8>>, path: Seq<char>) -> Option<Seq<u8>> {
    if files.dom().contains(path) {
        Some(files[path])
    } else {
        None
    }
}

/// Files other than those of a batch hold what they held.
proof fn lemma_files_after(
    files: Map<Seq<char>, Seq<u8>>,
    staged: Seq<(Seq<char>, Seq<u8>)>,
    n: int,
    path: Seq<char>,
)
    requires
        0 <= n <= staged.len(),
        forall|i: int| #![trigger staged[i]] 0 <= i < n ==> staged[i].0 != path,
    ensures
        held(files_after(files, staged, n), path) == held(files, path),
    decreases n,
{
    if n > 0 {
        lemma_files_after(files, staged, n - 1, path);
        assert(staged[n - 1].0 != path);
    }
}

proof fn lemma_files_restored(
    before: Map<Seq<char>, Seq<u8>>,
    now: Map<Seq<char>, Seq<u8>>,
    staged: Seq<(Seq<char>, Seq<u8>)>,
    originals: Seq<Option<Seq<u8>>>,
    n: int,
    path: Seq<char>,
)
    requires
        0 <= n <= staged.len(),
        originals.len() >= n,
        forall|i: int| #![trigger originals[i]]
            0 <= i < n ==> originals[i] == held(before, staged[i].0),
    ensures
        held(files_restored(now, staged, originals, n), path) == if exists|i: int|
            #![trigger staged[i]]
            0 <= i < n && staged[i].0 == path {
            held(before, path)
        } else {
            held(now, path)
        },
    decreases n,
{
    if n > 0 {
        lemma_files_restored(before, now, staged, originals, n - 1, path);
        assert(originals[n - 1] == held(before, staged[n - 1].0));
        if staged[n - 1].0 == path {
            assert(exists|i: int| #![trigger staged[i]] 0 <= i < n && staged[i].0 == path);
        }
    }
}

/// Where a file of a batch cannot be replaced, putting back what was saved
/// leaves every file as it was before the commit.
pub proof fn law_rollback_restores_all(
    files: Map<Seq<char>, Seq<u8>>,
    staged: Seq<(Seq<char>, Seq<u8>)>,
    originals: Seq<Option<Seq<u8>>>,
    committed: int,
)
    requires
        0 <= committed <= staged.len(),
        originals.len() == staged.len(),
        forall|i: int| #![trigger originals[i]]
            0 <= i < staged.len() ==> originals[i] == held(files, staged[i].0),
    ensures
        files_restored(files_after(files, staged, committed), staged, originals, committed)
            == files,
{
    let now = files_after(files, staged, committed);
    let end = files_restored(now, staged, originals, committed);
    assert forall|path: Seq<char>| held(end, path) == held(files, path) by {
        lemma_files_restored(files, now, staged, originals, committed, path);
        if !(exists|i: int| #![trigger staged[i]] 0 <= i < committed && staged[i].0 == path) {
            lemma_files_after(files, staged, committed, path);
        }
    }
    assert forall|path: Seq<char>| end.dom().contains(path) == files.dom().contains(path) by {
        assert(held(end, path) == held(files, path));
    }
    assert forall|path: Seq<char>| files.dom().contains(path) implies end[path]
        == files[path] by {
        assert(held(end, path) == held(files, path));
    }
    assert(end =~= files);
}

/// A batch that was committed leaves in each of its files what was staged for
/// it last, and every other file as it was.
pub proof fn law_commit_writes_all(
    files: Map<Seq<char>, Seq<u8>>,
    staged: Seq<(Seq<char>, Seq<u8>)>,
    k: int,
    other: Seq<char>,
)
    requires
        0 <= k < staged.len(),
        forall|i: int| #![trigger staged[i]] k < i < staged.len() ==> staged[i].0 != staged[k].0,
        forall|i: int| #![trigger staged[i]] 0 <= i < staged.len() ==> staged[i].0 != other,
    ensures
        held(files_after(files, staged, staged.len() as int), staged[k].0) == Some(staged[k].1),
        held(files_after(files, staged, staged.len() as int), other) == held(files, other),
{
    lemma_files_after(files, staged, staged.len() as int, other);
    lemma_last_write(files, staged, staged.len() as int, k);
}

proof fn lemma_last_write(
    files: Map<Seq<char>, Seq<u8>>,
    staged: Seq<(Seq<char>, Seq<u8>)>,
    n: int,
    k: int,
)
    requires
        0 <= k < n <= staged.len(),
        forall|i: int| #![trigger staged[i]] k < i < n ==> staged[i].0 != staged[k].0,
    ensures
        held(files_after(files, staged, n), staged[k].0) == Some(staged[k].1),
    decreases n,
{
    if k < n - 1 {
        lemma_last_write(files, staged, n - 1, k);
        assert(staged[n - 1].0 != staged[k].0);
    }
}

/// A commit told, one after the other, how its first `n` steps went.
pub open spec fn commit_after(c: CommitView, events: Seq<CommitEventView>, n: int) -> CommitView
    decreases n,
{
    if n <= 0 {
        c
    } else {
        answered(commit_after(c, events, n - 1), events[n - 1])
    }
}

/// No file is replaced before what all of them hold has been saved.
pub proof fn law_all_saved_before_any_is_replaced(total: nat, events: Seq<CommitEventView>, n: int)
    requires
        0 <= n <= events.len(),
    ensures
        ({
            let c = commit_after(commit_start(total), events, n);
            &&& c.total == total
            &&& c.stage is Saving ==> c.committed == 0 && c.originals.len() < total
            &&& c.stage is Persisting ==> c.originals.len() == total && c.committed < total
            &&& c.stage is RollingBack ==> c.originals.len() == total
        }),
    decreases n,
{
    if n > 0 {
        law_all_saved_before_any_is_replaced(total, events, n - 1);
    }
}

/// Whether `event` tells the truth about the step that a commit wanted done,
/// where the files held `disk` before the step and hold `after` now. A file is
/// replaced whole or stays as it is, and one that is put back is put back.
pub open spec fn went(
    disk: Map<Seq<char>, Seq<u8>>,
    staged: Seq<(Seq<char>, Seq<u8>)>,
    c: CommitView,
    event: CommitEventView,
    after: Map<Seq<char>, Seq<u8>>,
) -> bool {
    match (c.stage, event) {
        (CommitStageView::Saving, CommitEventView::Found(b)) => after == disk && held(
            disk,
            staged[c.originals.len() as int].0,
        ) == Some(b),
        (CommitStageView::Saving, CommitEventView::Absent) => after == disk && held(
            disk,
            staged[c.originals.len() as int].0,
        ) is None,
        (CommitStageView::Saving, CommitEventView::Failed(_)) => after == disk,
        (CommitStageView::Persisting, CommitEventView::Done) => after == disk.insert(
            staged[c.committed].0,
            staged[c.committed].1,
        ),
        (CommitStageView::Persisting, CommitEventView::Failed(_)) => after == disk,
        (CommitStageView::RollingBack { next, .. }, CommitEventView::Done) => after
            == match c.originals[next] {
            Some(bytes) => disk.insert(staged[next].0, bytes),
            None => disk.remove(staged[next].0),
        },
        (CommitStageView::Finished { .. }, _) => after == disk,
        _ => false,
    }
}

/// Whether the first `n` steps of a commit went as `events` tell, with `disks`
/// what the files held before each of them and after the last.
pub open spec fn all_went(
    disks: Seq<Map<Seq<char>, Seq<u8>>>,
    staged: Seq<(Seq<char>, Seq<u8>)>,
    events: Seq<CommitEventView>,
    n: int,
) -> bool {
    &&& 0 <= n <= events.len()
    &&& n < disks.len()
    &&& forall|i: int| #![trigger events[i]]
        0 <= i < n ==> went(
            disks[i],
            staged,
            commit_after(commit_start(staged.len()), events, i),
            events[i],
            disks[i + 1],
        )
}

/// Whether one of the first `n` steps of a commit failed.
pub open spec fn any_failed(total: nat, events: Seq<CommitEventView>, n: int) -> bool {
    exists|i: int| #![trigger events[i]]
        0 <= i < n && events[i] is Failed && !(commit_after(commit_start(total), events, i).stage
            is Finished)
}

/// Whether a commit stands where `n` steps lead it, with `disk` what the files
/// hold and `first` what they held before.
spec fn on_its_way(
    first: Map<Seq<char>, Seq<u8>>,
    disk: Map<Seq<char>, Seq<u8>>,
    staged: Seq<(Seq<char>, Seq<u8>)>,
    c: CommitView,
    n: int,
) -> bool {
    &&& c.total == staged.len()
    &&& forall|i: int| #![trigger c.originals[i]]
        0 <= i < c.originals.len() ==> c.originals[i] == held(first, staged[i].0)
    &&& match c.stage {
        CommitStageView::Saving => {
            &&& c.committed == 0
            &&& c.originals.len() == n < c.total
            &&& disk == first
        },
        CommitStageView::Persisting => {
            &&& c.originals.len() == c.total
            &&& 0 <= c.committed < c.total
            &&& c.total + c.committed == n
            &&& disk == files_after(first, staged, c.committed)
        },
        CommitStageView::RollingBack { next, .. } => {
            &&& c.originals.len() == c.total
            &&& 0 <= next < c.committed < c.total
            &&& c.total + c.committed + 1 + next == n
            &&& disk == files_restored(
                files_after(first, staged, c.committed),
                staged,
                c.originals,
                next,
            )
        },
        CommitStageView::Finished { error } => disk == if error is Some {
            first
        } else {
            files_after(first, staged, c.total)
        },
    }
}

proof fn lemma_saving_step(
    first: Map<Seq<char>, Seq<u8>>,
    disk: Map<Seq<char>, Seq<u8>>,
    staged: Seq<(Seq<char>, Seq<u8>)>,
    c: CommitView,
    n: int,
    event: CommitEventView,
    after: Map<Seq<char>, Seq<u8>>,
)
    requires
        on_its_way(first, disk, staged, c, n),
        c.stage is Saving,
        went(disk, staged, c, event, after),
    ensures
        on_its_way(first, after, staged, answered(c, event), n + 1),
{
    let d = answered(c, event);
    assert forall|i: int| #![trigger d.originals[i]] 0 <= i < d.originals.len() implies
        d.originals[i] == held(first, staged[i].0) by {
        if i < c.originals.len() {
            assert(d.originals[i] == c.originals[i]);
        }
    }
}

proof fn lemma_writing_step(
    first: Map<Seq<char>, Seq<u8>>,
    disk: Map<Seq<char>, Seq<u8>>,
    staged: Seq<(Seq<char>, Seq<u8>)>,
    c: CommitView,
    n: int,
    event: CommitEventView,
    after: Map<Seq<char>, Seq<u8>>,
)
    requires
        on_its_way(first, disk, staged, c, n),
        c.stage is Persisting,
        went(disk, staged, c, event, after),
    ensures
        on_its_way(first, after, staged, answered(c, event), n + 1),
{
}

proof fn lemma_restoring_step(
    first: Map<Seq<char>, Seq<u8>>,
    disk: Map<Seq<char>, Seq<u8>>,
    staged: Seq<(Seq<char>, Seq<u8>)>,
    c: CommitView,
    n: int,
    event: CommitEventView,
    after: Map<Seq<char>, Seq<u8>>,
)
    requires
        on_its_way(first, disk, staged, c, n),
        c.stage is RollingBack,
        went(disk, staged, c, event, after),
    ensures
        on_its_way(first, after, staged, answered(c, event), n + 1),
{
    let next = c.stage->next;
    let written = files_after(first, staged, c.committed);
    assert(after == files_restored(written, staged, c.originals, next + 1));
    if next + 1 >= c.committed {
        law_rollback_restores_all(first, staged, c.originals, c.committed);
    }
}

proof fn lemma_on_its_way(
    disks: Seq<Map<Seq<char>, Seq<u8>>>,
    staged: Seq<(Seq<char>, Seq<u8>)>,
    events: Seq<CommitEventView>,
    n: int,
)
    requires
        all_went(disks, staged, events, n),
    ensures
        on_its_way(
            disks[0],
            disks[n],
            staged,
            commit_after(commit_start(staged.len()), events, n),
            n,
        ),
    decreases n,
{
    if n > 0 {
        lemma_on_its_way(disks, staged, events, n - 1);
        let c = commit_after(commit_start(staged.len()), events, n - 1);
        let disk = disks[n - 1];
        let event = events[n - 1];
        assert(went(disk, staged, c, event, disks[n]));
        match c.stage {
            CommitStageView::Saving => {
                lemma_saving_step(disks[0], disk, staged, c, n - 1, event, disks[n]);
            },
            CommitStageView::Persisting => {
                lemma_writing_step(disks[0], disk, staged, c, n - 1, event, disks[n]);
            },
            CommitStageView::RollingBack { .. } => {
                lemma_restoring_step(disks[0], disk, staged, c, n - 1, event, disks[n]);
            },
            CommitStageView::Finished { .. } => {},
        }
    }
}

proof fn lemma_failure_stays(total: nat, events: Seq<CommitEventView>, n: int)
    requires
        0 <= n <= events.len(),
    ensures
        any_failed(total, events, n) <==> ({
            let c = commit_after(commit_start(total), events, n);
            c.stage is RollingBack || c.stage matches CommitStageView::Finished { error: Some(_) }
        }),
    decreases n,
{
    if n > 0 {
        lemma_failure_stays(total, events, n - 1);
        let c = commit_after(commit_start(total), events, n - 1);
        if any_failed(total, events, n - 1) {
            let i = choose|i: int| #![trigger events[i]]
                0 <= i < n - 1 && events[i] is Failed && !(commit_after(
                    commit_start(total),
                    events,
                    i,
                ).stage is Finished);
            assert(0 <= i < n && events[i] is Failed);
        } else if any_failed(total, events, n) {
            let i = choose|i: int| #![trigger events[i]]
                0 <= i < n && events[i] is Failed && !(commit_after(
                    commit_start(total),
                    events,
                    i,
                ).stage is Finished);
            assert(i == n - 1);
        } else {
            assert(!(events[n - 1] is Failed) || c.stage is Finished);
        }
    }
}

/// All or nothing: whichever file cannot be read or replaced, a commit comes to
/// an end. It ends in an error if and only if a step failed, and every file then
/// holds what it held before; else every file of the batch is written. This is
/// of disks on which a file that was replaced can be put back.
pub proof fn law_commit_is_all_or_nothing(
    disks: Seq<Map<Seq<char>, Seq<u8>>>,
    staged: Seq<(Seq<char>, Seq<u8>)>,
    events: Seq<CommitEventView>,
    n: int,
)
    requires
        all_went(disks, staged, events, n),
    ensures
        ({
            let c = commit_after(commit_start(staged.len()), events, n);
            &&& n >= 3 * staged.len() ==> c.stage is Finished
            &&& c.stage matches CommitStageView::Finished { error } ==> {
                &&& error is Some <==> any_failed(staged.len(), events, n)
                &&& error is Some ==> disks[n] == disks[0]
                &&& error is None ==> disks[n] == files_after(
                    disks[0],
                    staged,
                    staged.len() as int,
                )
            }
        }),
{
    lemma_on_its_way(disks, staged, events, n);
    lemma_failure_stays(staged.len(), events, n);
}

} // verus!
