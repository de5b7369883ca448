//! The scheduler: admission of jobs under a concurrency ceiling, promotion of
//! pending jobs, completion, bounded retention of finished records, lookup.
//!
//! The scheduler decides; its caller acts. Each operation changes the queues
//! and hands back what the caller has to do: the jobs to start, the records
//! to append to the overflow log. The caller reports back when a job has
//! ended and when a batch has been written.
//!
//! A job is in exactly one tier at a time and moves one way only:
//! pending, then active, then finished in memory, then finished on disk.

use crate::error::RunTaskError;
use crate::task::{State, Success, TaskControlBlock, TaskView};
use vstd::prelude::*;

verus! {

/// Seconds between the end of a job and the overflow check that follows it,
/// so that clients can poll a fresh result from memory.
pub const GRACE_DELAY_SECS: u64 = 10;

/// Jobs that run at once unless told otherwise.
pub const DEFAULT_MAX_CONCURRENCY: usize = 4;

/// Finished records kept in memory unless told otherwise.
pub const DEFAULT_MAX_MEMORY_SIZE: usize = 468_000;

/// The position of the first record of `tasks` that carries `id`.
pub open spec fn first_with_id(tasks: Seq<TaskView>, id: Seq<char>) -> Option<int>
    decreases tasks.len(),
{
    if tasks.len() == 0 {
        None
    } else if tasks[0].id == id {
        Some(0)
    } else {
        match first_with_id(tasks.drop_first(), id) {
            Some(i) => Some(i + 1),
            None => None,
        }
    }
}

/// The first record of `tasks` that carries `id`.
pub open spec fn find(tasks: Seq<TaskView>, id: Seq<char>) -> Option<TaskView> {
    match first_with_id(tasks, id) {
        Some(i) => Some(tasks[i]),
        None => None,
    }
}

/// Whether no two records of `tasks` carry the same id.
pub open spec fn distinct_ids(tasks: Seq<TaskView>) -> bool {
    forall|i: int, j: int|
        0 <= i < tasks.len() && 0 <= j < tasks.len() && i != j ==> tasks[i].id != tasks[j].id
}

/// Whether some record of `tasks` carries `id`.
pub open spec fn has_id(tasks: Seq<TaskView>, id: Seq<char>) -> bool {
    exists|i: int| 0 <= i < tasks.len() && tasks[i].id == id
}

/// The three in-memory tiers as mathematics. `D` is the job descriptor, which
/// the scheduler carries and never looks into.
pub struct QueuesView<D> {
    /// Jobs that are executing, in the order in which they were started.
    pub active: Seq<TaskView>,
    /// Jobs that wait, oldest first, each with its descriptor.
    pub pending: Seq<(TaskView, D)>,
    /// Jobs that have ended, oldest first.
    pub finished: Seq<TaskView>,
}

impl<D> QueuesView<D> {
    /// The records of the waiting jobs, without their descriptors.
    pub open spec fn pending_tasks(self) -> Seq<TaskView> {
        self.pending.map_values(|p: (TaskView, D)| p.0)
    }

    /// All records in memory in the order in which a lookup visits them:
    /// active, then pending, then finished.
    pub open spec fn all_tasks(self) -> Seq<TaskView> {
        self.active + self.pending_tasks() + self.finished
    }

    /// What a lookup of `id` in memory gives.
    pub open spec fn lookup(self, id: Seq<char>) -> Option<TaskView> {
        find(self.all_tasks(), id)
    }

    /// Whether each tier holds only records in the state of that tier:
    /// active jobs are `Running`, waiting jobs `Pending`, ended jobs `Finished`.
    pub open spec fn tiers_ok(self) -> bool {
        &&& forall|i: int| 0 <= i < self.active.len() ==> self.active[i].state == State::Running
        &&& forall|i: int|
            0 <= i < self.pending.len() ==> (#[trigger] self.pending[i]).0.state == State::Pending
        &&& forall|i: int| 0 <= i < self.finished.len() ==> self.finished[i].state is Finished
    }

    /// The invariant of the queues under the ceiling `max_concurrency`: no
    /// more active jobs than the ceiling, and every record in the tier of
    /// its state.
    pub open spec fn wf(self, max_concurrency: nat) -> bool {
        &&& self.active.len() <= max_concurrency
        &&& self.tiers_ok()
    }

    /// How many waiting jobs a promotion starts: as many as there are free
    /// places, and no more than are waiting.
    pub open spec fn promotions(self, max_concurrency: nat) -> nat {
        let free = if self.active.len() < max_concurrency {
            (max_concurrency - self.active.len()) as nat
        } else {
            0nat
        };
        if free < self.pending.len() {
            free
        } else {
            self.pending.len()
        }
    }

    /// The jobs that a promotion starts, in the order in which it starts
    /// them: the most recently submitted first, each now `Running`.
    pub open spec fn launched(self, max_concurrency: nat) -> Seq<(TaskView, D)> {
        Seq::new(
            self.promotions(max_concurrency),
            |i: int|
                (
                    self.pending[self.pending.len() - 1 - i].0.with_state(State::Running),
                    self.pending[self.pending.len() - 1 - i].1,
                ),
        )
    }

    /// The queues after a promotion.
    pub open spec fn promote(self, max_concurrency: nat) -> QueuesView<D> {
        QueuesView {
            active: self.active + self.launched(max_concurrency).map_values(
                |l: (TaskView, D)| l.0,
            ),
            pending: self.pending.take(self.pending.len() - self.promotions(max_concurrency)),
            finished: self.finished,
        }
    }

    /// The queues after `task` has been queued, before any promotion.
    pub open spec fn enqueue(self, task: TaskView, descriptor: D) -> QueuesView<D> {
        QueuesView {
            active: self.active,
            pending: self.pending.push((task, descriptor)),
            finished: self.finished,
        }
    }

    /// The queues after the submission of `task`: it is queued, and a
    /// promotion follows at once.
    pub open spec fn submit(self, task: TaskView, descriptor: D, max_concurrency: nat) -> QueuesView<
        D,
    > {
        self.enqueue(task, descriptor).promote(max_concurrency)
    }

    /// The record handed back for a new job under `id`: already `Running` if
    /// a place was free, else `Pending`.
    pub open spec fn submitted(self, id: Seq<char>, max_concurrency: nat) -> TaskView {
        if self.active.len() < max_concurrency {
            TaskView { id, state: State::Running }
        } else {
            TaskView { id, state: State::Pending }
        }
    }

    /// The queues after the active job `id` has been moved to the finished
    /// tier with `result`, before any promotion. Without an active job of
    /// that id nothing changes.
    pub open spec fn retire(self, id: Seq<char>, result: Result<Success, RunTaskError>) -> QueuesView<
        D,
    > {
        match first_with_id(self.active, id) {
            Some(i) => QueuesView {
                active: self.active.remove(i),
                pending: self.pending,
                finished: self.finished.push(self.active[i].with_state(State::Finished(result))),
            },
            None => self,
        }
    }

    /// The queues after the active job `id` has ended with `result`: it is
    /// retired, and a promotion follows at once.
    pub open spec fn finish(
        self,
        id: Seq<char>,
        result: Result<Success, RunTaskError>,
        max_concurrency: nat,
    ) -> QueuesView<D> {
        self.retire(id, result).promote(max_concurrency)
    }

    /// How many finished records are over the ceiling `max_memory_size`.
    pub open spec fn overflow(self, max_memory_size: nat) -> nat {
        if self.finished.len() > max_memory_size {
            (self.finished.len() - max_memory_size) as nat
        } else {
            0
        }
    }

    /// The records that the next overflow check moves out: the oldest ones,
    /// as many as are over the ceiling.
    pub open spec fn swap_batch(self, max_memory_size: nat) -> Seq<TaskView> {
        self.finished.take(self.overflow(max_memory_size) as int)
    }

    /// The queues after the `count` oldest finished records have left
    /// memory, or all of them if there are fewer.
    pub open spec fn drop_oldest(self, count: nat) -> QueuesView<D> {
        QueuesView {
            active: self.active,
            pending: self.pending,
            finished: self.finished.skip(
                if count < self.finished.len() {
                    count as int
                } else {
                    self.finished.len() as int
                },
            ),
        }
    }

    /// The queues after the batch of the overflow check has left memory.
    pub open spec fn after_swap(self, max_memory_size: nat) -> QueuesView<D> {
        self.drop_oldest(self.overflow(max_memory_size))
    }
}

/// `first_with_id` names a record with that id and none before it has it;
/// it names none only if no record has the id.
pub proof fn lemma_first_with_id(tasks: Seq<TaskView>, id: Seq<char>)
    ensures
        match first_with_id(tasks, id) {
            Some(i) => {
                &&& 0 <= i < tasks.len()
                &&& tasks[i].id == id
                &&& forall|j: int| 0 <= j < i ==> tasks[j].id != id
            },
            None => forall|j: int| 0 <= j < tasks.len() ==> tasks[j].id != id,
        },
    decreases tasks.len(),
{
    if tasks.len() != 0 && tasks[0].id != id {
        let rest = tasks.drop_first();
        lemma_first_with_id(rest, id);
        match first_with_id(rest, id) {
            Some(i) => {
                assert forall|j: int| 0 <= j < i + 1 implies tasks[j].id != id by {
                    if j > 0 {
                        assert(tasks[j] == rest[j - 1]);
                    }
                }
            },
            None => {
                assert forall|j: int| 0 <= j < tasks.len() implies tasks[j].id != id by {
                    if j > 0 {
                        assert(tasks[j] == rest[j - 1]);
                    }
                }
            },
        }
    }
}

/// A position that holds `id` and has no record with `id` before it is the
/// one that `first_with_id` names.
pub proof fn lemma_first_with_id_is(tasks: Seq<TaskView>, id: Seq<char>, i: int)
    requires
        0 <= i < tasks.len(),
        tasks[i].id == id,
        forall|j: int| 0 <= j < i ==> tasks[j].id != id,
    ensures
        first_with_id(tasks, id) == Some(i),
{
    lemma_first_with_id(tasks, id);
}

/// The in-memory tiers of the scheduler.
pub struct ScheduleQueues<D> {
    active: Vec<TaskControlBlock>,
    pending: Vec<(TaskControlBlock, D)>,
    finished: Vec<TaskControlBlock>,
}

/// The records of a vector as mathematics.
pub open spec fn views(tasks: Seq<TaskControlBlock>) -> Seq<TaskView> {
    tasks.map_values(|t: TaskControlBlock| t@)
}

/// Waiting jobs as mathematics.
pub open spec fn pending_views<D>(pending: Seq<(TaskControlBlock, D)>) -> Seq<(TaskView, D)> {
    pending.map_values(|p: (TaskControlBlock, D)| (p.0@, p.1))
}

impl<D> View for ScheduleQueues<D> {
    type V = QueuesView<D>;

    closed spec fn view(&self) -> QueuesView<D> {
        QueuesView {
            active: views(self.active@),
            pending: pending_views(self.pending@),
            finished: views(self.finished@),
        }
    }
}

impl<D> ScheduleQueues<D> {
    /// Three empty tiers.
    pub fn new() -> (queues: Self)
        ensures
            queues@.active.len() == 0,
            queues@.pending.len() == 0,
            queues@.finished.len() == 0,
    {
        ScheduleQueues { active: Vec::new(), pending: Vec::new(), finished: Vec::new() }
    }

    /// Starts waiting jobs while there is a free place, the most recently
    /// submitted first, and returns them in the order in which they start.
    pub fn promote(&mut self, max_concurrency: usize) -> (launches: Vec<(TaskControlBlock, D)>)
        requires
            old(self)@.wf(max_concurrency as nat),
        ensures
            final(self)@ == old(self)@.promote(max_concurrency as nat),
            pending_views(launches@) == old(self)@.launched(max_concurrency as nat),
            final(self)@.wf(max_concurrency as nat),
    {
        let mut launches: Vec<(TaskControlBlock, D)> = Vec::new();
        let ghost start = self@;
        let ghost max = max_concurrency as nat;
        let ghost all = start.launched(max);
        while self.active.len() < max_concurrency && self.pending.len() > 0
            invariant
                start == old(self)@,
                max == max_concurrency as nat,
                all == start.launched(max),
                start.wf(max),
                launches@.len() <= start.promotions(max),
                views(self.active@) == start.active + all.take(launches@.len() as int).map_values(
                    |l: (TaskView, D)| l.0,
                ),
                pending_views(self.pending@) == start.pending.take(
                    start.pending.len() - launches@.len(),
                ),
                pending_views(launches@) == all.take(launches@.len() as int),
                views(self.finished@) == start.finished,
            decreases self.pending@.len(),
        {
            let ghost j = launches@.len() as int;
            let ghost before_active = views(self.active@);
            let ghost before_pending = pending_views(self.pending@);
            let ghost before_launches = pending_views(launches@);
            assert(before_active.len() == start.active.len() + j);
            assert(before_pending.len() == start.pending.len() - j);
            assert(j < start.promotions(max));
            let (mut task, descriptor) = self.pending.pop().unwrap();
            assert((task@, descriptor) == before_pending[before_pending.len() - 1]);
            assert(before_pending[before_pending.len() - 1] == start.pending[start.pending.len()
                - 1 - j]);
            let advanced = task.set_state(State::Running);
            assert(advanced);
            assert((task@, descriptor) == all[j]);
            self.active.push(task.clone());
            launches.push((task, descriptor));
            assert(pending_views(launches@) =~= before_launches.push(all[j]));
            assert(all.take(j + 1) =~= all.take(j).push(all[j]));
            assert(views(self.active@) =~= before_active.push(all[j].0));
            assert(views(self.active@) =~= start.active + all.take(j + 1).map_values(
                |l: (TaskView, D)| l.0,
            ));
            assert(pending_views(self.pending@) =~= start.pending.take(
                start.pending.len() - (j + 1),
            ));
        }
        assert(launches@.len() == start.promotions(max));
        assert(all.take(launches@.len() as int) =~= all);
        assert(self@.active == start.promote(max).active);
        assert(self@.pending == start.promote(max).pending);
        assert(self@.finished == start.promote(max).finished);
        proof {
            lemma_promote_keeps_wf(start, max);
        }
        launches
    }

    /// Queues a new job under `id` with its descriptor and promotes at
    /// once; returns the record of the job as it stands then, and the jobs
    /// to start.
    pub fn submit(&mut self, id: String, descriptor: D, max_concurrency: usize) -> (out: Submission<D>)
        requires
            old(self)@.wf(max_concurrency as nat),
        ensures
            final(self)@ == old(self)@.submit(
                TaskView { id: id@, state: State::Pending },
                descriptor,
                max_concurrency as nat,
            ),
            out.task@ == old(self)@.submitted(id@, max_concurrency as nat),
            pending_views(out.launches@) == old(self)@.enqueue(
                TaskView { id: id@, state: State::Pending },
                descriptor,
            ).launched(max_concurrency as nat),
            final(self)@.wf(max_concurrency as nat),
    {
        let task = TaskControlBlock::with_id(id);
        let snapshot = task.clone();
        let ghost before = pending_views(self.pending@);
        self.pending.push((task, descriptor));
        assert(pending_views(self.pending@) =~= before.push((snapshot@, descriptor)));
        assert(self@ == old(self)@.enqueue(snapshot@, descriptor));
        assert(self@.tiers_ok()) by {
            assert forall|i: int| 0 <= i < self@.pending.len() implies (
            #[trigger] self@.pending[i]).0.state == State::Pending by {
                if i < before.len() {
                    assert(self@.pending[i] == before[i]);
                }
            }
        }
        let launches = self.promote(max_concurrency);
        proof {
            let queued = old(self)@.enqueue(snapshot@, descriptor);
            let started = queued.launched(max_concurrency as nat);
            assert(pending_views(launches@).len() == launches@.len());
            assert(queued.pending[queued.pending.len() - 1] == (snapshot@, descriptor));
            if launches@.len() > 0 {
                assert(pending_views(launches@)[0] == started[0]);
                assert(launches@[0].0@ == snapshot@.with_state(State::Running));
            }
        }
        let task = if launches.len() > 0 {
            launches[0].0.clone()
        } else {
            snapshot
        };
        Submission { task, launches }
    }

    /// Moves the active job `id` to the finished tier with `result` and says
    /// whether there was such a job. Without one, nothing changes.
    pub fn retire(&mut self, id: &str, result: Result<Success, RunTaskError>) -> (found: bool)
        requires
            old(self)@.tiers_ok(),
        ensures
            found == first_with_id(old(self)@.active, id@).is_some(),
            final(self)@ == old(self)@.retire(id@, result),
            final(self)@.tiers_ok(),
    {
        proof {
            lemma_retire_keeps_tiers(old(self)@, id@, result);
        }
        match position_of(&self.active, id) {
            Some(i) => {
                let ghost before_active = views(self.active@);
                let ghost before_finished = views(self.finished@);
                let mut task = self.active.remove(i);
                assert(task@ == before_active[i as int]);
                let advanced = task.set_state(State::Finished(result));
                assert(advanced);
                self.finished.push(task);
                assert(views(self.active@) =~= before_active.remove(i as int));
                assert(views(self.finished@) =~= before_finished.push(
                    before_active[i as int].with_state(State::Finished(result)),
                ));
                true
            },
            None => false,
        }
    }

    /// Ends the active job `id` with `result` and promotes at once; returns
    /// whether there was such a job, and the jobs to start.
    pub fn finish_task(
        &mut self,
        id: &str,
        result: Result<Success, RunTaskError>,
        max_concurrency: usize,
    ) -> (out: (bool, Vec<(TaskControlBlock, D)>))
        requires
            old(self)@.wf(max_concurrency as nat),
        ensures
            out.0 == first_with_id(old(self)@.active, id@).is_some(),
            final(self)@ == old(self)@.finish(id@, result, max_concurrency as nat),
            pending_views(out.1@) == old(self)@.retire(id@, result).launched(max_concurrency as nat),
            final(self)@.wf(max_concurrency as nat),
    {
        let found = self.retire(id, result);
        proof {
            lemma_first_with_id(old(self)@.active, id@);
        }
        let launches = self.promote(max_concurrency);
        (found, launches)
    }

    /// How many finished records are over the ceiling.
    pub fn overflow(&self, max_memory_size: usize) -> (n: usize)
        ensures
            n == self@.overflow(max_memory_size as nat),
    {
        if self.finished.len() > max_memory_size {
            self.finished.len() - max_memory_size
        } else {
            0
        }
    }

    /// Copies of the records that are due to leave memory, oldest first.
    /// The queues are not changed.
    pub fn swap_batch(&self, max_memory_size: usize) -> (batch: Vec<TaskControlBlock>)
        ensures
            views(batch@) == self@.swap_batch(max_memory_size as nat),
    {
        let n = self.overflow(max_memory_size);
        let mut batch: Vec<TaskControlBlock> = Vec::with_capacity(n);
        let mut i: usize = 0;
        while i < n
            invariant
                n <= self.finished@.len(),
                i <= n,
                views(batch@) == views(self.finished@).take(i as int),
            decreases n - i,
        {
            let ghost before = views(batch@);
            batch.push(self.finished[i].clone());
            assert(views(batch@) =~= before.push(views(self.finished@)[i as int]));
            assert(views(self.finished@).take(i as int + 1) =~= views(self.finished@).take(
                i as int,
            ).push(views(self.finished@)[i as int]));
            i += 1;
        }
        batch
    }

    /// Drops from memory the `written` oldest finished records, or all of
    /// them if there are fewer, and returns how many it dropped. To be
    /// called with the length of a batch once that batch has been appended
    /// to the overflow log, and not before.
    pub fn move_inactive_to_swap(&mut self, written: usize) -> (moved: usize)
        ensures
            moved == if written < old(self)@.finished.len() {
                written as nat
            } else {
                old(self)@.finished.len()
            },
            final(self)@ == old(self)@.drop_oldest(written as nat),
            old(self)@.tiers_ok() ==> final(self)@.tiers_ok(),
    {
        let n = if written < self.finished.len() {
            written
        } else {
            self.finished.len()
        };
        let ghost before = views(self.finished@);
        if n == 0 {
            assert(before.skip(0) =~= before);
            return 0;
        }
        let kept = self.finished.split_off(n);
        self.finished = kept;
        assert(views(self.finished@) =~= before.skip(n as int));
        n
    }

    /// Puts a record that is already finished into the finished tier as its
    /// newest and says whether it did; a record in another state is refused.
    pub fn restore_finished(&mut self, task: TaskControlBlock) -> (accepted: bool)
        ensures
            accepted == (task@.state is Finished),
            accepted ==> final(self)@ == (QueuesView {
                active: old(self)@.active,
                pending: old(self)@.pending,
                finished: old(self)@.finished.push(task@),
            }),
            !accepted ==> final(self)@ == old(self)@,
            old(self)@.tiers_ok() ==> final(self)@.tiers_ok(),
    {
        if task.is_finished() {
            let ghost before = views(self.finished@);
            self.finished.push(task);
            assert(views(self.finished@) =~= before.push(task@));
            true
        } else {
            false
        }
    }

    /// The record of the job `id` in memory: the first that a walk through
    /// the active, the pending and the finished tier meets.
    pub fn get_task(&self, id: &str) -> (found: Option<TaskControlBlock>)
        ensures
            match found {
                Some(t) => self@.lookup(id@) == Some(t@),
                None => self@.lookup(id@) is None,
            },
    {
        proof {
            lemma_find_concat(self@.active, self@.pending_tasks(), id@);
            lemma_find_concat(self@.active + self@.pending_tasks(), self@.finished, id@);
        }
        if let Some(t) = find_task(&self.active, id) {
            return Some(t);
        }
        if let Some(i) = self.pending_position(id) {
            return Some(self.pending[i].0.clone());
        }
        find_task(&self.finished, id)
    }

    /// The position of the first waiting job that carries `id`.
    fn pending_position(&self, id: &str) -> (found: Option<usize>)
        ensures
            match found {
                Some(i) => first_with_id(self@.pending_tasks(), id@) == Some(i as int) && i
                    < self.pending@.len(),
                None => first_with_id(self@.pending_tasks(), id@) is None,
            },
    {
        let n = self.pending.len();
        let ghost tasks = self@.pending_tasks();
        assert(tasks.len() == n);
        let mut i: usize = 0;
        while i < n
            invariant
                n == self.pending@.len(),
                tasks == self@.pending_tasks(),
                tasks.len() == n,
                i <= n,
                forall|j: int| 0 <= j < i ==> tasks[j].id != id@,
            decreases n - i,
        {
            assert(tasks[i as int] == self.pending@[i as int].0@);
            if self.pending[i].0.has_id(id) {
                proof {
                    lemma_first_with_id_is(tasks, id@, i as int);
                }
                return Some(i);
            }
            i += 1;
        }
        proof {
            lemma_first_with_id(tasks, id@);
        }
        None
    }

    /// How many jobs are executing.
    pub fn active_len(&self) -> (n: usize)
        ensures
            n == self@.active.len(),
    {
        self.active.len()
    }

    /// How many jobs are waiting.
    pub fn pending_len(&self) -> (n: usize)
        ensures
            n == self@.pending.len(),
    {
        self.pending.len()
    }

    /// How many finished records are in memory.
    pub fn finished_len(&self) -> (n: usize)
        ensures
            n == self@.finished.len(),
    {
        self.finished.len()
    }
}

/// Retiring a job leaves every record in the tier of its state.
pub proof fn lemma_retire_keeps_tiers<D>(
    queues: QueuesView<D>,
    id: Seq<char>,
    result: Result<Success, RunTaskError>,
)
    requires
        queues.tiers_ok(),
    ensures
        queues.retire(id, result).tiers_ok(),
        queues.retire(id, result).active.len() <= queues.active.len(),
{
    lemma_first_with_id(queues.active, id);
    let after = queues.retire(id, result);
    match first_with_id(queues.active, id) {
        Some(k) => {
            assert forall|i: int| 0 <= i < after.active.len() implies after.active[i].state
                == State::Running by {
                if i < k {
                    assert(after.active[i] == queues.active[i]);
                } else {
                    assert(after.active[i] == queues.active[i + 1]);
                }
            }
            assert forall|i: int| 0 <= i < after.finished.len() implies after.finished[i].state is Finished by {
                if i < queues.finished.len() {
                    assert(after.finished[i] == queues.finished[i]);
                }
            }
        },
        None => {},
    }
}

/// A lookup in two tiers, one after the other, finds what the first tier
/// holds, and only otherwise what the second holds.
pub proof fn lemma_find_concat(first: Seq<TaskView>, second: Seq<TaskView>, id: Seq<char>)
    ensures
        find(first + second, id) == match find(first, id) {
            Some(t) => Some(t),
            None => find(second, id),
        },
        first_with_id(first + second, id) == match first_with_id(first, id) {
            Some(i) => Some(i),
            None => match first_with_id(second, id) {
                Some(i) => Some(first.len() + i),
                None => None,
            },
        },
{
    let both = first + second;
    lemma_first_with_id(first, id);
    lemma_first_with_id(second, id);
    lemma_first_with_id(both, id);
    match first_with_id(first, id) {
        Some(i) => {
            assert(both[i] == first[i]);
            assert forall|j: int| 0 <= j < i implies both[j].id != id by {
                assert(both[j] == first[j]);
            }
            lemma_first_with_id_is(both, id, i);
        },
        None => {
            match first_with_id(second, id) {
                Some(i) => {
                    let k = first.len() + i;
                    assert(both[k] == second[i]);
                    assert forall|j: int| 0 <= j < k implies both[j].id != id by {
                        if j < first.len() {
                            assert(both[j] == first[j]);
                        } else {
                            assert(both[j] == second[j - first.len()]);
                        }
                    }
                    lemma_first_with_id_is(both, id, k);
                },
                None => {
                    assert forall|j: int| 0 <= j < both.len() implies both[j].id != id by {
                        if j < first.len() {
                            assert(both[j] == first[j]);
                        } else {
                            assert(both[j] == second[j - first.len()]);
                        }
                    }
                },
            }
        },
    }
}

/// A promotion keeps the active tier within the ceiling and every record in
/// the tier of its state.
pub proof fn lemma_promote_keeps_wf<D>(queues: QueuesView<D>, max_concurrency: nat)
    requires
        queues.wf(max_concurrency),
    ensures
        queues.promote(max_concurrency).wf(max_concurrency),
{
    let after = queues.promote(max_concurrency);
    let all = queues.launched(max_concurrency);
    assert forall|i: int| 0 <= i < after.active.len() implies after.active[i].state
        == State::Running by {
        if i < queues.active.len() {
            assert(after.active[i] == queues.active[i]);
        } else {
            assert(after.active[i] == all[i - queues.active.len()].0);
        }
    }
    assert forall|i: int| 0 <= i < after.pending.len() implies (#[trigger] after.pending[i]).0.state
        == State::Pending by {
        assert(after.pending[i] == queues.pending[i]);
    }
}

/// The first record of `tasks` that carries `id`, if there is one.
pub fn find_task(tasks: &Vec<TaskControlBlock>, id: &str) -> (found: Option<TaskControlBlock>)
    ensures
        match found {
            Some(t) => find(views(tasks@), id@) == Some(t@),
            None => find(views(tasks@), id@) is None,
        },
{
    match position_of(tasks, id) {
        Some(i) => Some(tasks[i].clone()),
        None => None,
    }
}

/// The position of the first record of `tasks` that carries `id`.
fn position_of(tasks: &Vec<TaskControlBlock>, id: &str) -> (found: Option<usize>)
    ensures
        match found {
            Some(i) => first_with_id(views(tasks@), id@) == Some(i as int) && i < tasks@.len(),
            None => first_with_id(views(tasks@), id@) is None,
        },
{
    let n = tasks.len();
    let mut i: usize = 0;
    while i < n
        invariant
            n == tasks@.len(),
            i <= n,
            forall|j: int| 0 <= j < i ==> views(tasks@)[j].id != id@,
        decreases n - i,
    {
        if tasks[i].has_id(id) {
            proof {
                lemma_first_with_id_is(views(tasks@), id@, i as int);
            }
            return Some(i);
        }
        i += 1;
    }
    proof {
        lemma_first_with_id(views(tasks@), id@);
    }
    None
}

/// The scheduler as mathematics: the tiers and the two ceilings.
pub struct SchedulerView<D> {
    pub queues: QueuesView<D>,
    pub max_concurrency: nat,
    pub max_memory_size: nat,
}

impl<D> SchedulerView<D> {
    /// The invariant of the scheduler: never more active jobs than
    /// `max_concurrency`, and every record in the tier of its state.
    pub open spec fn wf(self) -> bool {
        self.queues.wf(self.max_concurrency)
    }

    /// The same scheduler over other queues.
    pub open spec fn with_queues(self, queues: QueuesView<D>) -> SchedulerView<D> {
        SchedulerView {
            queues,
            max_concurrency: self.max_concurrency,
            max_memory_size: self.max_memory_size,
        }
    }

    /// The scheduler after the submission of a new job under `id`.
    pub open spec fn submit(self, id: Seq<char>, descriptor: D) -> SchedulerView<D> {
        self.with_queues(
            self.queues.submit(
                TaskView { id, state: State::Pending },
                descriptor,
                self.max_concurrency,
            ),
        )
    }

    /// The jobs that the submission of a new job under `id` starts.
    pub open spec fn submit_launches(self, id: Seq<char>, descriptor: D) -> Seq<(TaskView, D)> {
        self.queues.enqueue(TaskView { id, state: State::Pending }, descriptor).launched(
            self.max_concurrency,
        )
    }

    /// The record handed back for a new job under `id`: already `Running` if
    /// a place was free, else `Pending`.
    pub open spec fn submitted(self, id: Seq<char>) -> TaskView {
        self.queues.submitted(id, self.max_concurrency)
    }

    /// The scheduler after a promotion.
    pub open spec fn promote(self) -> SchedulerView<D> {
        self.with_queues(self.queues.promote(self.max_concurrency))
    }

    /// The scheduler after the active job `id` has ended with `result`.
    pub open spec fn finish(self, id: Seq<char>, result: Result<Success, RunTaskError>) -> SchedulerView<
        D,
    > {
        self.with_queues(self.queues.finish(id, result, self.max_concurrency))
    }

    /// The jobs that the end of the active job `id` starts.
    pub open spec fn finish_launches(self, id: Seq<char>, result: Result<Success, RunTaskError>) -> Seq<
        (TaskView, D),
    > {
        self.queues.retire(id, result).launched(self.max_concurrency)
    }

    /// The records that the next overflow check moves out of memory.
    pub open spec fn swap_batch(self) -> Seq<TaskView> {
        self.queues.swap_batch(self.max_memory_size)
    }

    /// The scheduler after the `count` oldest finished records have left
    /// memory, or all of them if there are fewer.
    pub open spec fn drop_oldest(self, count: nat) -> SchedulerView<D> {
        self.with_queues(self.queues.drop_oldest(count))
    }

    /// The scheduler after the batch of the overflow check has left memory.
    pub open spec fn after_swap(self) -> SchedulerView<D> {
        self.with_queues(self.queues.after_swap(self.max_memory_size))
    }

    /// What a lookup of `id` in memory gives.
    pub open spec fn lookup(self, id: Seq<char>) -> Option<TaskView> {
        self.queues.lookup(id)
    }
}

/// What a submission hands back.
pub struct Submission<D> {
    /// The record of the new job as it stands after the promotion.
    pub task: TaskControlBlock,
    /// The jobs to start now, in this order, each with its descriptor.
    pub launches: Vec<(TaskControlBlock, D)>,
}

/// What the end of a job hands back.
pub struct Completion<D> {
    /// Whether the job was active; if not, nothing was changed.
    pub found: bool,
    /// The jobs to start now, in this order, each with its descriptor.
    pub launches: Vec<(TaskControlBlock, D)>,
}

/// Admission control and lifecycle of jobs. `D` is the job descriptor.
pub struct Scheduler<D> {
    queues: ScheduleQueues<D>,
    max_memory_size: usize,
    max_concurrency: usize,
}

impl<D> View for Scheduler<D> {
    type V = SchedulerView<D>;

    closed spec fn view(&self) -> SchedulerView<D> {
        SchedulerView {
            queues: self.queues@,
            max_concurrency: self.max_concurrency as nat,
            max_memory_size: self.max_memory_size as nat,
        }
    }
}

impl<D> Scheduler<D> {
    /// A scheduler with empty tiers that runs at most `max_concurrency` jobs
    /// at once and keeps at most `max_memory_size` finished records in memory.
    pub fn new(max_concurrency: usize, max_memory_size: usize) -> (scheduler: Self)
        ensures
            scheduler@.queues.active.len() == 0,
            scheduler@.queues.pending.len() == 0,
            scheduler@.queues.finished.len() == 0,
            scheduler@.max_concurrency == max_concurrency,
            scheduler@.max_memory_size == max_memory_size,
            scheduler@.wf(),
    {
        Scheduler { queues: ScheduleQueues::new(), max_memory_size, max_concurrency }
    }

    /// Submits a new job under a fresh random id.
    ///
    /// The job is queued as pending and a promotion follows at once, so the
    /// record that comes back may already be `Running`. Never waits for a job.
    pub fn create_task(&mut self, descriptor: D) -> (out: Submission<D>)
        requires
            old(self)@.wf(),
        ensures
            crate::key::is_key(out.task@.id),
            final(self)@ == old(self)@.submit(out.task@.id, descriptor),
            out.task@ == old(self)@.submitted(out.task@.id),
            pending_views(out.launches@) == old(self)@.submit_launches(out.task@.id, descriptor),
            final(self)@.wf(),
    {
        let id = crate::key::generate_random_key();
        self.submit(id, descriptor)
    }

    /// Submits a new job under the id `id`.
    ///
    /// The job is queued as pending and a promotion follows at once, so the
    /// record that comes back may already be `Running`. Never waits for a job.
    pub fn submit(&mut self, id: String, descriptor: D) -> (out: Submission<D>)
        requires
            old(self)@.wf(),
        ensures
            final(self)@ == old(self)@.submit(id@, descriptor),
            out.task@ == old(self)@.submitted(id@),
            pending_views(out.launches@) == old(self)@.submit_launches(id@, descriptor),
            final(self)@.wf(),
    {
        let max = self.max_concurrency;
        self.queues.submit(id, descriptor, max)
    }

    /// Starts waiting jobs while there is a free place, the most recently
    /// submitted first, and returns them in the order in which they start.
    pub fn try_run_topmost(&mut self) -> (launches: Vec<(TaskControlBlock, D)>)
        requires
            old(self)@.wf(),
        ensures
            final(self)@ == old(self)@.promote(),
            pending_views(launches@) == old(self)@.queues.launched(old(self)@.max_concurrency),
            final(self)@.wf(),
    {
        let max = self.max_concurrency;
        self.queues.promote(max)
    }

    /// Records that the active job `id` has ended with `result`.
    ///
    /// The job leaves the active tier and becomes the newest finished
    /// record; a promotion follows at once. Without an active job of that id
    /// nothing is recorded, and `found` says so.
    pub fn finish_task(&mut self, id: &str, result: Result<Success, RunTaskError>) -> (out:
        Completion<D>)
        requires
            old(self)@.wf(),
        ensures
            out.found == first_with_id(old(self)@.queues.active, id@).is_some(),
            final(self)@ == old(self)@.finish(id@, result),
            pending_views(out.launches@) == old(self)@.finish_launches(id@, result),
            final(self)@.wf(),
    {
        let max = self.max_concurrency;
        let (found, launches) = self.queues.finish_task(id, result, max);
        Completion { found, launches }
    }

    /// The record of the job `id` in memory: the first that a walk through
    /// the active, the pending and the finished tier meets. `None` says that
    /// memory holds no such job; the overflow log may.
    pub fn get_task(&self, id: &str) -> (found: Option<TaskControlBlock>)
        ensures
            match found {
                Some(t) => self@.lookup(id@) == Some(t@),
                None => self@.lookup(id@) is None,
            },
    {
        self.queues.get_task(id)
    }

    /// The record of the job `id`, wherever it is: the first that a walk
    /// through the active, the pending and the finished tier and then
    /// through `disk` meets, `disk` being the records of the overflow log in
    /// the order of their writing.
    pub fn get_task_with_overflow(&self, id: &str, disk: &Vec<TaskControlBlock>) -> (found: Option<
        TaskControlBlock,
    >)
        ensures
            match found {
                Some(t) => find(self@.queues.all_tasks() + views(disk@), id@) == Some(t@),
                None => find(self@.queues.all_tasks() + views(disk@), id@) is None,
            },
    {
        proof {
            lemma_find_concat(self@.queues.all_tasks(), views(disk@), id@);
        }
        match self.queues.get_task(id) {
            Some(t) => Some(t),
            None => find_task(disk, id),
        }
    }

    /// Copies of the finished records that are over the ceiling, oldest
    /// first: the batch to append to the overflow log. Empty when the
    /// finished tier is within the ceiling. Nothing is changed.
    pub fn swap_batch(&self) -> (batch: Vec<TaskControlBlock>)
        ensures
            views(batch@) == self@.swap_batch(),
    {
        self.queues.swap_batch(self.max_memory_size)
    }

    /// Drops from memory the `written` oldest finished records, or all of
    /// them if there are fewer, and returns how many it dropped.
    ///
    /// To be called with the length of the batch that `swap_batch` gave,
    /// once that batch has been appended to the overflow log, and not
    /// before: until then the records stay where lookups find them. Records
    /// that finished in the meantime are newer than the batch and stay.
    pub fn move_inactive_to_swap(&mut self, written: usize) -> (moved: usize)
        requires
            old(self)@.wf(),
        ensures
            moved == if written < old(self)@.queues.finished.len() {
                written as nat
            } else {
                old(self)@.queues.finished.len()
            },
            final(self)@ == old(self)@.drop_oldest(written as nat),
            written == old(self)@.swap_batch().len() ==> final(self)@ == old(self)@.after_swap(),
            final(self)@.wf(),
    {
        self.queues.move_inactive_to_swap(written)
    }

    /// Puts a record that is already finished into the finished tier as its
    /// newest and says whether it did; a record in another state is refused.
    pub fn restore_finished(&mut self, task: TaskControlBlock) -> (accepted: bool)
        requires
            old(self)@.wf(),
        ensures
            accepted == (task@.state is Finished),
            accepted ==> final(self)@ == old(self)@.with_queues(
                QueuesView {
                    active: old(self)@.queues.active,
                    pending: old(self)@.queues.pending,
                    finished: old(self)@.queues.finished.push(task@),
                },
            ),
            !accepted ==> final(self)@ == old(self)@,
            final(self)@.wf(),
    {
        self.queues.restore_finished(task)
    }

    /// The most jobs that run at once.
    pub fn max_concurrency(&self) -> (n: usize)
        ensures
            n == self@.max_concurrency,
    {
        self.max_concurrency
    }

    /// The most finished records that stay in memory.
    pub fn max_memory_size(&self) -> (n: usize)
        ensures
            n == self@.max_memory_size,
    {
        self.max_memory_size
    }

    /// How many jobs are executing.
    pub fn active_len(&self) -> (n: usize)
        ensures
            n == self@.queues.active.len(),
    {
        self.queues.active_len()
    }

    /// How many jobs are waiting.
    pub fn pending_len(&self) -> (n: usize)
        ensures
            n == self@.queues.pending.len(),
    {
        self.queues.pending_len()
    }

    /// How many finished records are in memory.
    pub fn finished_len(&self) -> (n: usize)
        ensures
            n == self@.queues.finished.len(),
    {
        self.queues.finished_len()
    }
}

impl<D> Default for Scheduler<D> {
    /// A scheduler with the default ceilings.
    fn default() -> (scheduler: Self)
        ensures
            scheduler@.queues.active.len() == 0,
            scheduler@.queues.pending.len() == 0,
            scheduler@.queues.finished.len() == 0,
            scheduler@.max_concurrency == DEFAULT_MAX_CONCURRENCY,
            scheduler@.max_memory_size == DEFAULT_MAX_MEMORY_SIZE,
            scheduler@.wf(),
    {
        Scheduler::new(DEFAULT_MAX_CONCURRENCY, DEFAULT_MAX_MEMORY_SIZE)
    }
}

} // verus!
