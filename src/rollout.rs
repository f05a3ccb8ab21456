//! The blue/green switchover: upload to the inactive database, flip the active
//! pointer once, upload to the former active database, and only then persist
//! the checkpoint. Each step takes the outcome of the last action.

use crate::text::text_equals;
use vstd::prelude::*;

verus! {

/// Records per remote import.
pub const UPLOAD_CHUNK_SIZE: usize = 1000;

/// Where the batch goes, in order, and the label that becomes active.
#[derive(Debug)]
pub struct SwitchoverTargets {
    /// The database that is not serving reads; it is loaded first.
    pub inactive_db: String,
    /// The label written to the pointer once the inactive database is loaded.
    pub new_active_label: String,
    /// The database that served reads; it is loaded after the flip.
    pub secondary_db: String,
}

/// The pointer held a label other than `blue` or `green`.
#[derive(Clone, Debug, PartialEq, Eq)]
pub struct UnexpectedActiveLabel {
    pub label: String,
}

/// Derives the targets of a switchover from the active label.
pub fn plan_switchover(active_label: &str, blue_db_id: &str, green_db_id: &str) -> (r: Result<
    SwitchoverTargets,
    UnexpectedActiveLabel,
>)
    ensures
        active_label@ == "blue"@ ==> (r matches Ok(t) && t.inactive_db@ == green_db_id@
            && t.new_active_label@ == "green"@ && t.secondary_db@ == blue_db_id@),
        active_label@ == "green"@ ==> (r matches Ok(t) && t.inactive_db@ == blue_db_id@
            && t.new_active_label@ == "blue"@ && t.secondary_db@ == green_db_id@),
        active_label@ != "blue"@ && active_label@ != "green"@ ==> (r matches Err(e) && e.label@
            == active_label@),
{
    proof {
        reveal_strlit("blue");
        reveal_strlit("green");
    }
    if text_equals(active_label, "blue") {
        Ok(SwitchoverTargets {
            inactive_db: green_db_id.to_string(),
            new_active_label: String::from_str("green"),
            secondary_db: blue_db_id.to_string(),
        })
    } else if text_equals(active_label, "green") {
        Ok(SwitchoverTargets {
            inactive_db: blue_db_id.to_string(),
            new_active_label: String::from_str("blue"),
            secondary_db: green_db_id.to_string(),
        })
    } else {
        Err(UnexpectedActiveLabel { label: active_label.to_string() })
    }
}

/// The number of chunks of `n` records.
pub open spec fn chunks_for(n: nat) -> nat {
    if n % (UPLOAD_CHUNK_SIZE as nat) == 0 {
        n / (UPLOAD_CHUNK_SIZE as nat)
    } else {
        n / (UPLOAD_CHUNK_SIZE as nat) + 1
    }
}

/// The number of chunks of `n` records.
pub fn chunk_count(n: usize) -> (r: usize)
    ensures
        r == chunks_for(n as nat),
{
    n / UPLOAD_CHUNK_SIZE + if n % UPLOAD_CHUNK_SIZE != 0 {
        1
    } else {
        0
    }
}

/// Chunk `k` of `total` records is `[k * UPLOAD_CHUNK_SIZE, k * UPLOAD_CHUNK_SIZE + UPLOAD_CHUNK_SIZE)`
/// cut at `total`.
pub fn chunk_range(total: usize, k: usize) -> (r: (usize, usize))
    requires
        k < chunks_for(total as nat),
    ensures
        r.0 == k * UPLOAD_CHUNK_SIZE,
        r.1 == if k * UPLOAD_CHUNK_SIZE + UPLOAD_CHUNK_SIZE <= total {
            k * UPLOAD_CHUNK_SIZE + UPLOAD_CHUNK_SIZE
        } else {
            total as int
        },
        r.0 < r.1 <= total,
        k + 1 == chunks_for(total as nat) <==> r.1 == total,
{
    assert(k <= total / 1000);
    assert(k * 1000 <= (total / 1000) * 1000) by (nonlinear_arith)
        requires
            k <= total / 1000,
    ;
    assert(k * 1000 < total) by (nonlinear_arith)
        requires
            k < total / 1000 || (k == total / 1000 && total % 1000 != 0),
    ;
    assert((k + 1) * 1000 < total <==> k + 1 < total / 1000 || (k + 1 == total / 1000 && total % 1000 != 0)) by (nonlinear_arith)
        requires
            k * 1000 < total,
    ;
    let start = k * UPLOAD_CHUNK_SIZE;
    let end = if total - start >= UPLOAD_CHUNK_SIZE {
        start + UPLOAD_CHUNK_SIZE
    } else {
        total
    };
    (start, end)
}

/// Where a switchover stands.
#[derive(Clone, Copy, Debug, PartialEq, Eq, Structural)]
pub enum Stage {
    /// Uploading chunks to the inactive database.
    Inactive,
    /// Flipping the active pointer.
    Flip,
    /// Uploading chunks to the secondary database.
    Secondary,
    /// Persisting the checkpoint.
    Persist,
    /// Everything succeeded.
    Done,
    /// An action failed; nothing further is done.
    Failed,
}

/// Which database a chunk goes to.
#[derive(Clone, Copy, Debug, PartialEq, Eq, Structural)]
pub enum Target {
    Inactive,
    Secondary,
}

/// What the driver must do next.
#[derive(Clone, Copy, Debug, PartialEq, Eq, Structural)]
pub enum RolloutAction {
    /// Import records `[start, end)` of the batch into a database.
    Upload { target: Target, chunk: usize, start: usize, end: usize },
    /// Write the new active label to the pointer.
    FlipPointer,
    /// Extend the checkpoint with the batch and replace it on disk.
    PersistCheckpoint,
    /// Nothing more: every action succeeded.
    Complete,
    /// Nothing more: the action of this stage failed.
    Abort(Stage),
}

/// The outcome of the last action.
#[derive(Clone, Copy, Debug, PartialEq, Eq, Structural)]
pub enum RolloutEvent {
    Succeeded,
    Failed,
}

/// A switchover of a batch of `total` records.
#[derive(Clone, Copy, Debug, PartialEq, Eq, Structural)]
pub struct Rollout {
    pub total: usize,
    pub chunks: usize,
    pub stage: Stage,
    /// Chunks the inactive database has confirmed.
    pub inactive_done: usize,
    /// Whether the pointer flip was confirmed.
    pub flipped: bool,
    /// Chunks the secondary database has confirmed.
    pub secondary_done: usize,
    /// No databases are configured: only the checkpoint is persisted.
    pub dry_run: bool,
}

/// The upload of chunk `k` of `s`'s batch to `target`.
pub open spec fn upload_action(s: Rollout, target: Target, k: int) -> RolloutAction {
    let start = k * UPLOAD_CHUNK_SIZE;
    let end = if start + UPLOAD_CHUNK_SIZE <= s.total {
        start + UPLOAD_CHUNK_SIZE
    } else {
        s.total as int
    };
    RolloutAction::Upload { target, chunk: k as usize, start: start as usize, end: end as usize }
}

/// The state and first action of a switchover of `total` records.
pub open spec fn rollout_start(total: usize) -> (Rollout, RolloutAction) {
    let chunks = chunks_for(total as nat) as usize;
    let s = Rollout {
        total,
        chunks,
        stage: Stage::Inactive,
        inactive_done: 0,
        flipped: false,
        secondary_done: 0,
        dry_run: false,
    };
    if chunks > 0 {
        (s, upload_action(s, Target::Inactive, 0))
    } else {
        (Rollout { stage: Stage::Flip, ..s }, RolloutAction::FlipPointer)
    }
}

/// The state and first action of a run without databases.
pub open spec fn rollout_dry_start(total: usize) -> (Rollout, RolloutAction) {
    (
        Rollout {
            total,
            chunks: chunks_for(total as nat) as usize,
            stage: Stage::Persist,
            inactive_done: 0,
            flipped: false,
            secondary_done: 0,
            dry_run: true,
        },
        RolloutAction::PersistCheckpoint,
    )
}

/// The next state and action after event `e` in state `s`.
pub open spec fn rollout_next(s: Rollout, e: RolloutEvent) -> (Rollout, RolloutAction) {
    let failed = (Rollout { stage: Stage::Failed, ..s }, RolloutAction::Abort(s.stage));
    match s.stage {
        Stage::Inactive => if e == RolloutEvent::Failed {
            failed
        } else {
            let t = Rollout { inactive_done: (s.inactive_done + 1) as usize, ..s };
            if t.inactive_done < s.chunks {
                (t, upload_action(t, Target::Inactive, t.inactive_done as int))
            } else {
                (Rollout { stage: Stage::Flip, ..t }, RolloutAction::FlipPointer)
            }
        },
        Stage::Flip => if e == RolloutEvent::Failed {
            failed
        } else {
            let t = Rollout { flipped: true, ..s };
            if s.chunks > 0 {
                (Rollout { stage: Stage::Secondary, ..t }, upload_action(t, Target::Secondary, 0))
            } else {
                (Rollout { stage: Stage::Persist, ..t }, RolloutAction::PersistCheckpoint)
            }
        },
        Stage::Secondary => if e == RolloutEvent::Failed {
            failed
        } else {
            let t = Rollout { secondary_done: (s.secondary_done + 1) as usize, ..s };
            if t.secondary_done < s.chunks {
                (t, upload_action(t, Target::Secondary, t.secondary_done as int))
            } else {
                (Rollout { stage: Stage::Persist, ..t }, RolloutAction::PersistCheckpoint)
            }
        },
        Stage::Persist => if e == RolloutEvent::Failed {
            failed
        } else {
            (Rollout { stage: Stage::Done, ..s }, RolloutAction::Complete)
        },
        Stage::Done => (s, RolloutAction::Complete),
        Stage::Failed => (s, RolloutAction::Abort(Stage::Failed)),
    }
}

/// The consistency of a switchover's progress.
pub open spec fn rollout_wf(s: Rollout) -> bool {
    &&& s.chunks == chunks_for(s.total as nat)
    &&& s.inactive_done <= s.chunks
    &&& s.secondary_done <= s.chunks
    &&& s.flipped ==> s.inactive_done == s.chunks
    &&& s.secondary_done > 0 ==> s.flipped
    &&& s.dry_run ==> !s.flipped && s.inactive_done == 0 && s.secondary_done == 0
    &&& s.dry_run ==> (s.stage == Stage::Persist || s.stage == Stage::Done || s.stage == Stage::Failed)
    &&& s.stage == Stage::Inactive ==> !s.flipped && s.inactive_done < s.chunks
    &&& s.stage == Stage::Flip ==> !s.flipped && s.inactive_done == s.chunks
    &&& s.stage == Stage::Secondary ==> s.flipped && s.secondary_done < s.chunks
    &&& (s.stage == Stage::Persist || s.stage == Stage::Done) && !s.dry_run ==> s.flipped
        && s.secondary_done == s.chunks
}

impl Rollout {
    /// Starts a switchover of `total` records.
    pub fn start(total: usize) -> (r: (Rollout, RolloutAction))
        ensures
            r == rollout_start(total),
    {
        let chunks = chunk_count(total);
        let s = Rollout {
            total,
            chunks,
            stage: Stage::Inactive,
            inactive_done: 0,
            flipped: false,
            secondary_done: 0,
            dry_run: false,
        };
        if chunks > 0 {
            let a = s.upload(Target::Inactive, 0);
            (s, a)
        } else {
            (Rollout { stage: Stage::Flip, ..s }, RolloutAction::FlipPointer)
        }
    }

    /// Starts a run that persists the checkpoint without uploading.
    pub fn start_dry_run(total: usize) -> (r: (Rollout, RolloutAction))
        ensures
            r == rollout_dry_start(total),
    {
        let chunks = chunk_count(total);
        (
            Rollout {
                total,
                chunks,
                stage: Stage::Persist,
                inactive_done: 0,
                flipped: false,
                secondary_done: 0,
                dry_run: true,
            },
            RolloutAction::PersistCheckpoint,
        )
    }

    fn upload(&self, target: Target, k: usize) -> (a: RolloutAction)
        requires
            self.chunks == chunks_for(self.total as nat),
            k < self.chunks,
        ensures
            a == upload_action(*self, target, k as int),
    {
        let (start, end) = chunk_range(self.total, k);
        RolloutAction::Upload { target, chunk: k, start, end }
    }

    /// Whether the progress counters agree with each other and with the
    /// stage, as they do in every state that `start`, `start_dry_run` and
    /// `advance` produce.
    pub fn is_consistent(&self) -> (r: bool)
        ensures
            r == rollout_wf(*self),
    {
        let flip_ok = !self.flipped || self.inactive_done == self.chunks;
        let secondary_ok = self.secondary_done == 0 || self.flipped;
        let dry_ok = !self.dry_run || (!self.flipped && self.inactive_done == 0 && self.secondary_done == 0
            && (self.stage == Stage::Persist || self.stage == Stage::Done || self.stage == Stage::Failed));
        let stage_ok = match self.stage {
            Stage::Inactive => !self.flipped && self.inactive_done < self.chunks,
            Stage::Flip => !self.flipped && self.inactive_done == self.chunks,
            Stage::Secondary => self.flipped && self.secondary_done < self.chunks,
            Stage::Persist | Stage::Done => self.dry_run || (self.flipped && self.secondary_done == self.chunks),
            Stage::Failed => true,
        };
        self.chunks == chunk_count(self.total) && self.inactive_done <= self.chunks
            && self.secondary_done <= self.chunks && flip_ok && secondary_ok && dry_ok && stage_ok
    }

    /// Takes the outcome of the last action and returns the next action.
    pub fn advance(&mut self, e: RolloutEvent) -> (a: RolloutAction)
        requires
            rollout_wf(*old(self)),
        ensures
            (*final(self), a) == rollout_next(*old(self), e),
    {
        let failed = e == RolloutEvent::Failed;
        match self.stage {
            Stage::Inactive => {
                if failed {
                    let a = RolloutAction::Abort(self.stage);
                    self.stage = Stage::Failed;
                    return a;
                }
                self.inactive_done = self.inactive_done + 1;
                if self.inactive_done < self.chunks {
                    self.upload(Target::Inactive, self.inactive_done)
                } else {
                    self.stage = Stage::Flip;
                    RolloutAction::FlipPointer
                }
            },
            Stage::Flip => {
                if failed {
                    let a = RolloutAction::Abort(self.stage);
                    self.stage = Stage::Failed;
                    return a;
                }
                self.flipped = true;
                if self.chunks > 0 {
                    let a = self.upload(Target::Secondary, 0);
                    self.stage = Stage::Secondary;
                    a
                } else {
                    self.stage = Stage::Persist;
                    RolloutAction::PersistCheckpoint
                }
            },
            Stage::Secondary => {
                if failed {
                    let a = RolloutAction::Abort(self.stage);
                    self.stage = Stage::Failed;
                    return a;
                }
                self.secondary_done = self.secondary_done + 1;
                if self.secondary_done < self.chunks {
                    self.upload(Target::Secondary, self.secondary_done)
                } else {
                    self.stage = Stage::Persist;
                    RolloutAction::PersistCheckpoint
                }
            },
            Stage::Persist => {
                if failed {
                    let a = RolloutAction::Abort(self.stage);
                    self.stage = Stage::Failed;
                    return a;
                }
                self.stage = Stage::Done;
                RolloutAction::Complete
            },
            Stage::Done => RolloutAction::Complete,
            Stage::Failed => RolloutAction::Abort(Stage::Failed),
        }
    }
}

/// A step keeps a consistent switchover consistent.
pub proof fn lemma_rollout_next_wf(s: Rollout, e: RolloutEvent)
    requires
        rollout_wf(s),
    ensures
        rollout_wf(rollout_next(s, e).0),
{
}

/// The state after a sequence of outcomes.
pub open spec fn rollout_run(s: Rollout, events: Seq<RolloutEvent>) -> Rollout
    decreases events.len(),
{
    if events.len() == 0 {
        s
    } else {
        rollout_next(rollout_run(s, events.drop_last()), events.last()).0
    }
}

proof fn lemma_rollout_run_wf(s: Rollout, events: Seq<RolloutEvent>)
    requires
        rollout_wf(s),
    ensures
        rollout_wf(rollout_run(s, events)),
    decreases events.len(),
{
    if events.len() > 0 {
        lemma_rollout_run_wf(s, events.drop_last());
        lemma_rollout_next_wf(rollout_run(s, events.drop_last()), events.last());
    }
}

/// Whatever the outcomes so far, a switchover asks to flip the pointer only
/// once every chunk reached the inactive database, sends a chunk to the
/// secondary database only after the flip, and asks to persist the checkpoint
/// only once every chunk reached both databases. A process stopped before
/// that leaves the checkpoint on disk as it was.
pub proof fn lemma_checkpoint_persisted_last(total: usize, events: Seq<RolloutEvent>, e: RolloutEvent)
    ensures
        ({
            let (t, a) = rollout_next(rollout_run(rollout_start(total).0, events), e);
            &&& a == RolloutAction::FlipPointer ==> t.inactive_done == t.chunks && !t.flipped
            &&& (a matches RolloutAction::Upload { target: Target::Secondary, .. }) ==> t.flipped
                && t.inactive_done == t.chunks
            &&& a == RolloutAction::PersistCheckpoint ==> t.flipped && t.inactive_done == t.chunks
                && t.secondary_done == t.chunks
        }),
        rollout_start(total).1 != RolloutAction::PersistCheckpoint,
{
    let s0 = rollout_start(total).0;
    assert(rollout_wf(s0));
    lemma_rollout_run_wf(s0, events);
    lemma_rollout_next_wf(rollout_run(s0, events), e);
}

/// The outcomes of `n` actions that all succeeded.
pub open spec fn all_succeeded(n: nat) -> Seq<RolloutEvent> {
    Seq::new(n, |i: int| RolloutEvent::Succeeded)
}

/// The action that a switchover of `total` records asks for once `n` actions
/// in a row succeeded.
pub open spec fn action_after_successes(total: usize, n: nat) -> RolloutAction {
    if n == 0 {
        rollout_start(total).1
    } else {
        rollout_next(
            rollout_run(rollout_start(total).0, all_succeeded((n - 1) as nat)),
            RolloutEvent::Succeeded,
        ).1
    }
}

/// Record `i` of a batch of `total` lies in the range of its chunk,
/// `i / UPLOAD_CHUNK_SIZE`, whose upload to `target` the switchover asks for.
pub open spec fn uploaded_in_chunk(total: usize, target: Target, i: int) -> bool {
    let k = i / UPLOAD_CHUNK_SIZE as int;
    &&& 0 <= k < chunks_for(total as nat)
    &&& upload_action(rollout_start(total).0, target, k) matches RolloutAction::Upload { start, end, .. }
    &&& start <= i < end
}

/// The state of a switchover of `total` records once `n` actions succeeded.
spec fn state_after_successes(total: usize, n: nat) -> Rollout {
    let c = chunks_for(total as nat);
    let s0 = rollout_start(total).0;
    let s = Rollout { stage: Stage::Inactive, ..s0 };
    if n < c {
        Rollout { inactive_done: n as usize, ..s }
    } else if n == c {
        Rollout { stage: Stage::Flip, inactive_done: c as usize, ..s }
    } else if n < 2 * c + 1 {
        Rollout {
            stage: Stage::Secondary,
            inactive_done: c as usize,
            flipped: true,
            secondary_done: (n - c - 1) as usize,
            ..s
        }
    } else if n == 2 * c + 1 {
        Rollout {
            stage: Stage::Persist,
            inactive_done: c as usize,
            flipped: true,
            secondary_done: c as usize,
            ..s
        }
    } else {
        Rollout {
            stage: Stage::Done,
            inactive_done: c as usize,
            flipped: true,
            secondary_done: c as usize,
            ..s
        }
    }
}

proof fn lemma_chunks_fit(total: usize)
    ensures
        chunks_for(total as nat) <= total,
        chunks_for(total as nat) * 1000 >= total,
{
}

proof fn lemma_state_after_successes(total: usize, n: nat)
    requires
        n <= 2 * chunks_for(total as nat) + 2,
    ensures
        rollout_run(rollout_start(total).0, all_succeeded(n)) == state_after_successes(total, n),
    decreases n,
{
    lemma_chunks_fit(total);
    if n > 0 {
        lemma_state_after_successes(total, (n - 1) as nat);
        assert(all_succeeded(n).drop_last() =~= all_succeeded((n - 1) as nat));
        assert(all_succeeded(n).last() == RolloutEvent::Succeeded);
    } else {
        assert(all_succeeded(0) =~= Seq::<RolloutEvent>::empty());
    }
}

/// The action expected once `n` actions succeeded.
spec fn expected_action(total: usize, n: nat) -> RolloutAction {
    let c = chunks_for(total as nat);
    let s0 = rollout_start(total).0;
    if n < c {
        upload_action(s0, Target::Inactive, n as int)
    } else if n == c {
        RolloutAction::FlipPointer
    } else if n < 2 * c + 1 {
        upload_action(s0, Target::Secondary, n - c - 1)
    } else if n == 2 * c + 1 {
        RolloutAction::PersistCheckpoint
    } else {
        RolloutAction::Complete
    }
}

proof fn lemma_action_after_successes(total: usize, n: nat)
    requires
        n <= 2 * chunks_for(total as nat) + 2,
    ensures
        action_after_successes(total, n) == expected_action(total, n),
{
    lemma_chunks_fit(total);
    if n > 0 {
        lemma_state_after_successes(total, (n - 1) as nat);
    }
}

proof fn lemma_chunk_coverage(total: usize, target: Target, i: int)
    requires
        0 <= i < total,
    ensures
        uploaded_in_chunk(total, target, i),
{
    let k = i / 1000;
    assert(k * 1000 <= i < k * 1000 + 1000);
    assert(k <= total / 1000);
}

/// With every action succeeding, a switchover of `total` records asks in turn
/// for each chunk of the batch to be imported into the inactive database,
/// then for the pointer flip, then for each chunk to be imported into the
/// secondary database, then for the checkpoint, and then completes; and every
/// record of the batch lies in one chunk. So both databases receive the whole
/// batch, and the pointer ends on the database that was inactive.
pub proof fn lemma_successful_rollout_covers_batch(total: usize)
    ensures
        ({
            let c = chunks_for(total as nat);
            let s0 = rollout_start(total).0;
            &&& forall|k: nat| k < c ==> #[trigger] action_after_successes(total, k)
                == upload_action(s0, Target::Inactive, k as int)
            &&& action_after_successes(total, c) == RolloutAction::FlipPointer
            &&& forall|k: nat| k < c ==> #[trigger] action_after_successes(total, c + 1 + k)
                == upload_action(s0, Target::Secondary, k as int)
            &&& action_after_successes(total, 2 * c + 1) == RolloutAction::PersistCheckpoint
            &&& action_after_successes(total, 2 * c + 2) == RolloutAction::Complete
            &&& forall|i: int| 0 <= i < total ==> #[trigger] uploaded_in_chunk(total, Target::Inactive, i)
                && uploaded_in_chunk(total, Target::Secondary, i)
        }),
{
    let c = chunks_for(total as nat);
    assert forall|k: nat| k < c implies #[trigger] action_after_successes(total, k) == upload_action(
        rollout_start(total).0,
        Target::Inactive,
        k as int,
    ) by {
        lemma_action_after_successes(total, k);
    }
    lemma_action_after_successes(total, c);
    assert forall|k: nat| k < c implies #[trigger] action_after_successes(total, c + 1 + k)
        == upload_action(rollout_start(total).0, Target::Secondary, k as int) by {
        lemma_action_after_successes(total, c + 1 + k);
    }
    lemma_action_after_successes(total, 2 * c + 1);
    lemma_action_after_successes(total, 2 * c + 2);
    assert forall|i: int| 0 <= i < total implies #[trigger] uploaded_in_chunk(total, Target::Inactive, i)
        && uploaded_in_chunk(total, Target::Secondary, i) by {
        lemma_chunk_coverage(total, Target::Inactive, i);
        lemma_chunk_coverage(total, Target::Secondary, i);
    }
}

} // verus!
