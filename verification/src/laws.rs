//! What holds of the scheduler over every run: the concurrency ceiling, the
//! forward-only life of a job, the fate of finished records.
//!
//! The model is the scheduler together with the records of its overflow log.
//! The statements about a single job speak of a job whose id no other record
//! carries. Ids are random and are not checked against each other, so this
//! is an assumption on the run, not something the scheduler enforces.

use crate::error::RunTaskError;
use crate::schedule::{
    distinct_ids, find, first_with_id, has_id, lemma_first_with_id, lemma_first_with_id_is,
    lemma_promote_keeps_wf, lemma_retire_keeps_tiers, QueuesView, SchedulerView,
};
use crate::task::{State, Success, TaskView};
use vstd::prelude::*;

verus! {

/// One thing that can happen.
pub enum Event<D> {
    /// A new job is submitted under this id with this descriptor.
    Submit(Seq<char>, D),
    /// The job of this id has ended with this result.
    Finish(Seq<char>, Result<Success, RunTaskError>),
    /// The finished records over the memory ceiling are appended to the
    /// overflow log and leave memory.
    Swap,
}

/// The scheduler and the records of its overflow log, oldest first.
pub struct System<D> {
    pub scheduler: SchedulerView<D>,
    pub disk: Seq<TaskView>,
}

impl<D> System<D> {
    /// All records in the order in which a lookup visits them: the active,
    /// the pending and the finished tier, then the overflow log.
    pub open spec fn records(self) -> Seq<TaskView> {
        self.scheduler.queues.all_tasks() + self.disk
    }

    /// What a lookup of `id` gives.
    pub open spec fn get(self, id: Seq<char>) -> Option<TaskView> {
        find(self.records(), id)
    }

    /// The invariant: the scheduler's own, and only finished records on disk.
    pub open spec fn wf(self) -> bool {
        &&& self.scheduler.wf()
        &&& forall|i: int| 0 <= i < self.disk.len() ==> self.disk[i].state is Finished
    }

    /// Whether no two records carry the same id.
    pub open spec fn unique(self) -> bool {
        distinct_ids(self.records())
    }

    /// Whether at most one record carries `id`.
    pub open spec fn sole(self, id: Seq<char>) -> bool {
        sole(self.records(), id)
    }

    /// Whether `event` may happen without two records ending up under one
    /// id: a submission needs an id that no record carries.
    pub open spec fn admits(self, event: Event<D>) -> bool {
        event matches Event::Submit(id, _) ==> !has_id(self.records(), id)
    }

    /// Whether `event` may happen without a second record ending up under
    /// `id`: a submission under `id` needs `id` to be carried by no record.
    pub open spec fn spares(self, event: Event<D>, id: Seq<char>) -> bool {
        event matches Event::Submit(new, _) ==> new != id || !has_id(self.records(), id)
    }

    /// The system after `event`.
    pub open spec fn step(self, event: Event<D>) -> System<D> {
        match event {
            Event::Submit(id, descriptor) => System {
                scheduler: self.scheduler.submit(id, descriptor),
                disk: self.disk,
            },
            Event::Finish(id, result) => System {
                scheduler: self.scheduler.finish(id, result),
                disk: self.disk,
            },
            Event::Swap => System {
                scheduler: self.scheduler.after_swap(),
                disk: self.disk + self.scheduler.swap_batch(),
            },
        }
    }

    /// The system after all of `events`, in their order.
    pub open spec fn run(self, events: Seq<Event<D>>) -> System<D>
        decreases events.len(),
    {
        if events.len() == 0 {
            self
        } else {
            self.step(events[0]).run(events.drop_first())
        }
    }

    /// Whether each of `events` is admitted at the moment at which it happens.
    pub open spec fn admits_all(self, events: Seq<Event<D>>) -> bool
        decreases events.len(),
    {
        events.len() > 0 ==> self.admits(events[0]) && self.step(events[0]).admits_all(
            events.drop_first(),
        )
    }

    /// Whether each of `events` spares `id` at the moment at which it happens.
    pub open spec fn spares_all(self, events: Seq<Event<D>>, id: Seq<char>) -> bool
        decreases events.len(),
    {
        events.len() > 0 ==> self.spares(events[0], id) && self.step(events[0]).spares_all(
            events.drop_first(),
            id,
        )
    }
}

/// Whether at most one record of `tasks` carries `id`.
pub open spec fn sole(tasks: Seq<TaskView>, id: Seq<char>) -> bool {
    forall|i: int, j: int|
        0 <= i < tasks.len() && 0 <= j < tasks.len() && tasks[i].id == id && tasks[j].id == id
            ==> i == j
}

/// No two records carry the same id exactly if every id is carried by at
/// most one record.
pub proof fn lemma_distinct_is_sole_everywhere(tasks: Seq<TaskView>)
    ensures
        distinct_ids(tasks) <==> forall|id: Seq<char>| sole(tasks, id),
{
    if forall|id: Seq<char>| sole(tasks, id) {
        assert forall|i: int, j: int|
            0 <= i < tasks.len() && 0 <= j < tasks.len() && i != j implies tasks[i].id
            != tasks[j].id by {
            assert(sole(tasks, tasks[i].id));
        }
    }
}

/// Whether `after` is a later record of the job of `before`: the same id, a
/// state that is not earlier, and, once the job has finished, the very same
/// record for good.
pub open spec fn follows(before: TaskView, after: TaskView) -> bool {
    &&& after.id == before.id
    &&& before.state.rank() <= after.state.rank()
    &&& before.state is Finished ==> after == before
}

/// No event takes the system out of its invariant: afterwards the active
/// tier is still within `max_concurrency`, every record is in the tier of
/// its state, and the ceilings are what they were.
pub proof fn lemma_step_keeps_wf<D>(sys: System<D>, event: Event<D>)
    requires
        sys.wf(),
    ensures
        sys.step(event).wf(),
        sys.step(event).scheduler.max_concurrency == sys.scheduler.max_concurrency,
        sys.step(event).scheduler.max_memory_size == sys.scheduler.max_memory_size,
        sys.step(event).scheduler.queues.active.len() <= sys.scheduler.max_concurrency,
{
    let s = sys.scheduler;
    match event {
        Event::Submit(id, descriptor) => {
            let queued = s.queues.enqueue(TaskView { id, state: State::Pending }, descriptor);
            assert forall|i: int| 0 <= i < queued.pending.len() implies (
            #[trigger] queued.pending[i]).0.state == State::Pending by {
                if i < s.queues.pending.len() {
                    assert(queued.pending[i] == s.queues.pending[i]);
                }
            }
            lemma_promote_keeps_wf(queued, s.max_concurrency);
        },
        Event::Finish(id, result) => {
            lemma_retire_keeps_tiers(s.queues, id, result);
            lemma_promote_keeps_wf(s.queues.retire(id, result), s.max_concurrency);
        },
        Event::Swap => {
            let n = s.queues.overflow(s.max_memory_size) as int;
            let after = sys.step(event);
            assert forall|i: int| 0 <= i < after.scheduler.queues.finished.len() implies (
            #[trigger] after.scheduler.queues.finished[i]).state is Finished by {
                assert(after.scheduler.queues.finished[i] == s.queues.finished[i + n]);
            }
            assert forall|i: int| 0 <= i < after.disk.len() implies (
            #[trigger] after.disk[i]).state is Finished by {
                if i < sys.disk.len() {
                    assert(after.disk[i] == sys.disk[i]);
                } else {
                    assert(after.disk[i] == s.queues.finished[i - sys.disk.len()]);
                }
            }
        },
    }
}

/// Whatever is submitted, whatever ends and whenever records overflow, in
/// whatever order: the number of active jobs never exceeds `max_concurrency`.
pub proof fn lemma_active_never_exceeds_ceiling<D>(sys: System<D>, events: Seq<Event<D>>)
    requires
        sys.wf(),
    ensures
        sys.run(events).wf(),
        sys.run(events).scheduler.max_concurrency == sys.scheduler.max_concurrency,
        sys.run(events).scheduler.queues.active.len() <= sys.scheduler.max_concurrency,
    decreases events.len(),
{
    if events.len() > 0 {
        lemma_step_keeps_wf(sys, events[0]);
        lemma_active_never_exceeds_ceiling(sys.step(events[0]), events.drop_first());
    }
}

/// A lookup by the id of a record finds that record if no other record
/// carries its id.
pub proof fn lemma_find_member(tasks: Seq<TaskView>, t: TaskView)
    requires
        sole(tasks, t.id),
        tasks.contains(t),
    ensures
        find(tasks, t.id) == Some(t),
{
    let i = choose|i: int| 0 <= i < tasks.len() && tasks[i] == t;
    lemma_first_with_id_is(tasks, t.id, i);
}

/// What a lookup finds is one of the records and carries the id asked for;
/// it finds nothing only if no record carries the id.
pub proof fn lemma_found_is_member(tasks: Seq<TaskView>, id: Seq<char>)
    ensures
        find(tasks, id) matches Some(t) ==> tasks.contains(t) && t.id == id,
        find(tasks, id) is None ==> !has_id(tasks, id),
{
    lemma_first_with_id(tasks, id);
}

/// Records whose ids are taken, one for one and without repetition, from
/// records of which at most one carries `id` have at most one that carries it.
proof fn lemma_sole_by_map(
    before: Seq<TaskView>,
    after: Seq<TaskView>,
    origin: spec_fn(int) -> int,
    id: Seq<char>,
)
    requires
        sole(before, id),
        forall|i: int|
            0 <= i < after.len() ==> 0 <= #[trigger] origin(i) < before.len() && after[i].id
                == before[origin(i)].id,
        forall|i: int, j: int|
            0 <= i < after.len() && 0 <= j < after.len() && i != j ==> #[trigger] origin(i)
                != #[trigger] origin(j),
    ensures
        sole(after, id),
{
    assert forall|i: int, j: int|
        0 <= i < after.len() && 0 <= j < after.len() && after[i].id == id && after[j].id
            == id implies i == j by {
        if i != j {
            assert(origin(i) != origin(j));
            assert(after[i].id == before[origin(i)].id);
            assert(after[j].id == before[origin(j)].id);
        }
    }
}

/// A promotion loses no record and changes none but to start it: every
/// record, in memory or in `tail`, is still there as it was, or was
/// `Pending` and is now `Running`. No id is new, and an id that one record
/// carried is still carried by one record only.
pub proof fn lemma_promote_records<D>(
    q: QueuesView<D>,
    max_concurrency: nat,
    tail: Seq<TaskView>,
    who: Seq<char>,
)
    requires
        q.tiers_ok(),
    ensures
        forall|t: TaskView| #[trigger]
            (q.all_tasks() + tail).contains(t) ==> exists|u: TaskView| #[trigger]
                (q.promote(max_concurrency).all_tasks() + tail).contains(u) && follows(t, u),
        sole(q.all_tasks() + tail, who) ==> sole(
            q.promote(max_concurrency).all_tasks() + tail,
            who,
        ),
        forall|id: Seq<char>|
            has_id(q.promote(max_concurrency).all_tasks() + tail, id) ==> has_id(
                q.all_tasks() + tail,
                id,
            ),
{
    let q2 = q.promote(max_concurrency);
    let all = q.all_tasks() + tail;
    let all2 = q2.all_tasks() + tail;
    let a = q.active.len() as int;
    let n = q.pending.len() as int;
    let f = q.finished.len() as int;
    let k = q.promotions(max_concurrency) as int;
    let started = q.launched(max_concurrency);
    assert(all.len() == a + n + f + tail.len());
    assert(all2.len() == all.len());
    // where each record of the new sequence came from
    let origin = |i: int|
        if i < a {
            i
        } else if i < a + k {
            a + n - 1 - (i - a)
        } else if i < a + n {
            i - k
        } else {
            i
        };
    assert forall|i: int| 0 <= i < all2.len() implies 0 <= #[trigger] origin(i) < all.len()
        && follows(all[origin(i)], all2[i]) by {
        if i < a {
            assert(all2[i] == q.active[i]);
            assert(all[i] == q.active[i]);
        } else if i < a + k {
            let m = i - a;
            assert(all2[i] == started[m].0);
            assert(all[a + n - 1 - m] == q.pending[n - 1 - m].0);
        } else if i < a + n {
            let p = i - a - k;
            assert(all2[i] == q2.pending[p].0);
            assert(q2.pending[p] == q.pending[p]);
            assert(all[a + p] == q.pending[p].0);
        } else if i < a + n + f {
            assert(all2[i] == q.finished[i - a - n]);
            assert(all[i] == q.finished[i - a - n]);
        } else {
            assert(all2[i] == tail[i - a - n - f]);
            assert(all[i] == tail[i - a - n - f]);
        }
    }
    // where each record of the old sequence went
    let target = |i: int|
        if i < a {
            i
        } else if i < a + n - k {
            i + k
        } else if i < a + n {
            a + (a + n - 1 - i)
        } else {
            i
        };
    assert forall|i: int| 0 <= i < all.len() implies 0 <= #[trigger] target(i) < all2.len()
        && origin(target(i)) == i by {}
    assert forall|t: TaskView| #[trigger] all.contains(t) implies exists|u: TaskView| #[trigger]
        all2.contains(u) && follows(t, u) by {
        let i = choose|i: int| 0 <= i < all.len() && all[i] == t;
        let j = target(i);
        assert(origin(j) == i);
        assert(all2.contains(all2[j]));
        assert(follows(t, all2[j]));
    }
    if sole(all, who) {
        lemma_sole_by_map(all, all2, origin, who);
    }
    assert forall|id: Seq<char>| has_id(all2, id) implies has_id(all, id) by {
        let i = choose|i: int| 0 <= i < all2.len() && all2[i].id == id;
        assert(all[origin(i)].id == id);
    }
}

/// Queueing a job loses no record and changes none; the new record is
/// there. An id that one record carried is still carried by one record
/// only, unless it is the id of the new job and was carried already.
pub proof fn lemma_enqueue_records<D>(
    q: QueuesView<D>,
    task: TaskView,
    descriptor: D,
    tail: Seq<TaskView>,
    who: Seq<char>,
)
    ensures
        forall|t: TaskView| #[trigger]
            (q.all_tasks() + tail).contains(t) ==> (q.enqueue(task, descriptor).all_tasks()
                + tail).contains(t),
        (q.enqueue(task, descriptor).all_tasks() + tail).contains(task),
        sole(q.all_tasks() + tail, who) && (task.id != who || !has_id(q.all_tasks() + tail, who))
            ==> sole(q.enqueue(task, descriptor).all_tasks() + tail, who),
{
    let q2 = q.enqueue(task, descriptor);
    let all = q.all_tasks() + tail;
    let all2 = q2.all_tasks() + tail;
    let a = q.active.len() as int;
    let n = q.pending.len() as int;
    let f = q.finished.len() as int;
    assert(all.len() == a + n + f + tail.len());
    assert(all2.len() == all.len() + 1);
    assert(q2.pending[n] == (task, descriptor));
    assert(all2[a + n] == task);
    let origin = |i: int|
        if i < a + n {
            i
        } else {
            i - 1
        };
    assert forall|i: int| 0 <= i < all2.len() && i != a + n implies 0 <= #[trigger] origin(i)
        < all.len() && all2[i] == all[origin(i)] by {
        if i < a {
            assert(all2[i] == q.active[i]);
            assert(all[i] == q.active[i]);
        } else if i < a + n {
            assert(all2[i] == q2.pending[i - a].0);
            assert(q2.pending[i - a] == q.pending[i - a]);
            assert(all[i] == q.pending[i - a].0);
        } else if i < a + n + 1 + f {
            assert(all2[i] == q.finished[i - a - n - 1]);
            assert(all[i - 1] == q.finished[i - a - n - 1]);
        } else {
            assert(all2[i] == tail[i - a - n - 1 - f]);
            assert(all[i - 1] == tail[i - a - n - 1 - f]);
        }
    }
    assert forall|t: TaskView| #[trigger] all.contains(t) implies all2.contains(t) by {
        let i = choose|i: int| 0 <= i < all.len() && all[i] == t;
        let j = if i < a + n {
            i
        } else {
            i + 1
        };
        assert(origin(j) == i);
        assert(all2[j] == t);
    }
    if sole(all, who) && (task.id != who || !has_id(all, who)) {
        assert forall|i: int, j: int|
            0 <= i < all2.len() && 0 <= j < all2.len() && all2[i].id == who && all2[j].id
                == who implies i == j by {
            if i != j {
                if i == a + n {
                    assert(all2[j] == all[origin(j)]);
                } else if j == a + n {
                    assert(all2[i] == all[origin(i)]);
                } else {
                    assert(all2[i] == all[origin(i)]);
                    assert(all2[j] == all[origin(j)]);
                    assert(origin(i) != origin(j));
                }
            }
        }
    }
}

/// Retiring a job loses no record and changes none but that of the job,
/// which is now `Finished` with the result. No id is new, and an id that
/// one record carried is still carried by one record only.
pub proof fn lemma_retire_records<D>(
    q: QueuesView<D>,
    id: Seq<char>,
    result: Result<Success, RunTaskError>,
    tail: Seq<TaskView>,
    who: Seq<char>,
)
    requires
        q.tiers_ok(),
    ensures
        forall|t: TaskView| #[trigger]
            (q.all_tasks() + tail).contains(t) ==> exists|u: TaskView| #[trigger]
                (q.retire(id, result).all_tasks() + tail).contains(u) && follows(t, u),
        first_with_id(q.active, id) matches Some(i) ==> (q.retire(id, result).all_tasks()
            + tail).contains(q.active[i].with_state(State::Finished(result))),
        sole(q.all_tasks() + tail, who) ==> sole(q.retire(id, result).all_tasks() + tail, who),
        forall|other: Seq<char>|
            has_id(q.retire(id, result).all_tasks() + tail, other) ==> has_id(
                q.all_tasks() + tail,
                other,
            ),
{
    let q2 = q.retire(id, result);
    let all = q.all_tasks() + tail;
    let all2 = q2.all_tasks() + tail;
    lemma_first_with_id(q.active, id);
    match first_with_id(q.active, id) {
        None => {
            assert forall|t: TaskView| #[trigger] all.contains(t) implies exists|u: TaskView|
             #[trigger] all2.contains(u) && follows(t, u) by {
                assert(all2.contains(t) && follows(t, t));
            }
        },
        Some(i0) => {
            let a = q.active.len() as int;
            let n = q.pending.len() as int;
            let f = q.finished.len() as int;
            assert(all.len() == a + n + f + tail.len());
            assert(all2.len() == all.len());
            let last = a - 1 + n + f;
            let origin = |i: int|
                if i < i0 {
                    i
                } else if i < last {
                    i + 1
                } else if i == last {
                    i0
                } else {
                    i
                };
            assert forall|i: int| 0 <= i < all2.len() implies 0 <= #[trigger] origin(i)
                < all.len() && follows(all[origin(i)], all2[i]) && (i != last ==> all2[i]
                == all[origin(i)]) by {
                if i < a - 1 {
                    assert(all2[i] == q2.active[i]);
                    if i < i0 {
                        assert(all[i] == q.active[i]);
                    } else {
                        assert(all[i + 1] == q.active[i + 1]);
                    }
                } else if i < a - 1 + n {
                    assert(all2[i] == q.pending[i - (a - 1)].0);
                    assert(all[i + 1] == q.pending[i - (a - 1)].0);
                } else if i < last {
                    assert(all2[i] == q2.finished[i - (a - 1) - n]);
                    assert(q2.finished[i - (a - 1) - n] == q.finished[i - (a - 1) - n]);
                    assert(all[i + 1] == q.finished[i - (a - 1) - n]);
                } else if i == last {
                    assert(all2[i] == q2.finished[f]);
                    assert(all[i0] == q.active[i0]);
                } else {
                    assert(all2[i] == tail[i - a - n - f]);
                    assert(all[i] == tail[i - a - n - f]);
                }
            }
            let target = |i: int|
                if i < i0 {
                    i
                } else if i == i0 {
                    last
                } else if i < a + n + f {
                    i - 1
                } else {
                    i
                };
            assert forall|i: int| 0 <= i < all.len() implies 0 <= #[trigger] target(i)
                < all2.len() && origin(target(i)) == i by {}
            assert forall|t: TaskView| #[trigger] all.contains(t) implies exists|u: TaskView|
             #[trigger] all2.contains(u) && follows(t, u) by {
                let i = choose|i: int| 0 <= i < all.len() && all[i] == t;
                let j = target(i);
                assert(origin(j) == i);
                assert(all2.contains(all2[j]));
                assert(follows(t, all2[j]));
            }
            assert(all2[last] == q.active[i0].with_state(State::Finished(result)));
            if sole(all, who) {
                lemma_sole_by_map(all, all2, origin, who);
            }
            assert forall|other: Seq<char>| has_id(all2, other) implies has_id(all, other) by {
                let i = choose|i: int| 0 <= i < all2.len() && all2[i].id == other;
                assert(all[origin(i)].id == other);
            }
        },
    }
}

/// An overflow loses no record and changes none: what leaves memory is on
/// disk afterwards. No id is new, and an id that one record carried is
/// still carried by one record only.
pub proof fn lemma_swap_records<D>(sys: System<D>, who: Seq<char>)
    ensures
        forall|t: TaskView| #[trigger]
            sys.records().contains(t) <==> sys.step(Event::Swap).records().contains(t),
        sys.sole(who) ==> sys.step(Event::Swap).sole(who),
{
    let q = sys.scheduler.queues;
    let after = sys.step(Event::Swap);
    let all = sys.records();
    let all2 = after.records();
    let a = q.active.len() as int;
    let n = q.pending.len() as int;
    let f = q.finished.len() as int;
    let d = sys.disk.len() as int;
    let k = q.overflow(sys.scheduler.max_memory_size) as int;
    let q2 = after.scheduler.queues;
    assert(all.len() == a + n + f + d);
    assert(all2.len() == all.len());
    let origin = |i: int|
        if i < a + n {
            i
        } else if i < a + n + f - k {
            i + k
        } else if i < a + n + f - k + d {
            i + k
        } else {
            i - (f - k) - d
        };
    assert forall|i: int| 0 <= i < all2.len() implies 0 <= #[trigger] origin(i) < all.len()
        && all2[i] == all[origin(i)] by {
        if i < a {
            assert(all2[i] == q.active[i]);
            assert(all[i] == q.active[i]);
        } else if i < a + n {
            assert(all2[i] == q.pending[i - a].0);
            assert(all[i] == q.pending[i - a].0);
        } else if i < a + n + f - k {
            assert(all2[i] == q2.finished[i - a - n]);
            assert(q2.finished[i - a - n] == q.finished[i - a - n + k]);
            assert(all[i + k] == q.finished[i - a - n + k]);
        } else if i < a + n + f - k + d {
            assert(all2[i] == after.disk[i - a - n - (f - k)]);
            assert(after.disk[i - a - n - (f - k)] == sys.disk[i - a - n - (f - k)]);
            assert(all[i + k] == sys.disk[i - a - n - (f - k)]);
        } else {
            let b = i - a - n - (f - k) - d;
            assert(all2[i] == after.disk[d + b]);
            assert(after.disk[d + b] == q.finished[b]);
            assert(all[a + n + b] == q.finished[b]);
        }
    }
    let target = |i: int|
        if i < a + n {
            i
        } else if i < a + n + k {
            i + (f - k) + d
        } else {
            i - k
        };
    assert forall|i: int| 0 <= i < all.len() implies 0 <= #[trigger] target(i) < all2.len()
        && origin(target(i)) == i by {}
    assert forall|t: TaskView| #[trigger] all.contains(t) <==> all2.contains(t) by {
        if all.contains(t) {
            let i = choose|i: int| 0 <= i < all.len() && all[i] == t;
            let j = target(i);
            assert(origin(j) == i);
            assert(all2[j] == t);
        }
        if all2.contains(t) {
            let i = choose|i: int| 0 <= i < all2.len() && all2[i] == t;
            assert(all[origin(i)] == t);
        }
    }
    if sole(all, who) {
        lemma_sole_by_map(all, all2, origin, who);
    }
}

/// The queues after a submission, before the promotion, still hold every
/// record in the tier of its state.
proof fn lemma_enqueue_keeps_tiers<D>(q: QueuesView<D>, id: Seq<char>, descriptor: D)
    requires
        q.tiers_ok(),
    ensures
        q.enqueue(TaskView { id, state: State::Pending }, descriptor).tiers_ok(),
{
    let queued = q.enqueue(TaskView { id, state: State::Pending }, descriptor);
    assert forall|i: int| 0 <= i < queued.pending.len() implies (#[trigger] queued.pending[i]).0.state
        == State::Pending by {
        if i < q.pending.len() {
            assert(queued.pending[i] == q.pending[i]);
        }
    }
}

/// An id that one record carries is carried by one record only after every
/// event that spares it.
pub proof fn lemma_step_keeps_sole<D>(sys: System<D>, event: Event<D>, id: Seq<char>)
    requires
        sys.wf(),
        sys.sole(id),
        sys.spares(event, id),
    ensures
        sys.step(event).sole(id),
{
    let q = sys.scheduler.queues;
    let max = sys.scheduler.max_concurrency;
    match event {
        Event::Submit(new, descriptor) => {
            let task = TaskView { id: new, state: State::Pending };
            lemma_enqueue_records(q, task, descriptor, sys.disk, id);
            lemma_enqueue_keeps_tiers(q, new, descriptor);
            lemma_promote_records(q.enqueue(task, descriptor), max, sys.disk, id);
        },
        Event::Finish(done, result) => {
            lemma_retire_records(q, done, result, sys.disk, id);
            lemma_retire_keeps_tiers(q, done, result);
            lemma_promote_records(q.retire(done, result), max, sys.disk, id);
        },
        Event::Swap => {
            lemma_swap_records(sys, id);
        },
    }
}

/// An admitted event leaves no two records under one id: as long as every
/// submission comes with an id that no record carries, a job is in one tier
/// only.
pub proof fn lemma_step_keeps_unique<D>(sys: System<D>, event: Event<D>)
    requires
        sys.wf(),
        sys.unique(),
        sys.admits(event),
    ensures
        sys.step(event).unique(),
{
    lemma_distinct_is_sole_everywhere(sys.records());
    assert forall|id: Seq<char>| sole(sys.step(event).records(), id) by {
        assert(sole(sys.records(), id));
        lemma_step_keeps_sole(sys, event, id);
    }
    lemma_distinct_is_sole_everywhere(sys.step(event).records());
}

/// A job never goes back: whatever a lookup of `id` gives before an event,
/// it gives a record of the same job afterwards, in the same or a later
/// state, and the very same record once the job has finished. In
/// particular no event makes a record disappear. This holds of every id
/// that one record only carries and of every event that spares it.
pub proof fn lemma_state_only_advances<D>(sys: System<D>, event: Event<D>, id: Seq<char>)
    requires
        sys.wf(),
        sys.sole(id),
        sys.spares(event, id),
    ensures
        sys.get(id) matches Some(t) ==> {
            &&& sys.step(event).get(id) matches Some(u)
            &&& follows(t, u)
        },
{
    lemma_step_keeps_sole(sys, event, id);
    lemma_found_is_member(sys.records(), id);
    if let Some(t) = sys.get(id) {
        let q = sys.scheduler.queues;
        let max = sys.scheduler.max_concurrency;
        let after = sys.step(event).records();
        match event {
            Event::Submit(new_id, descriptor) => {
                let task = TaskView { id: new_id, state: State::Pending };
                let queued = q.enqueue(task, descriptor);
                lemma_enqueue_records(q, task, descriptor, sys.disk, id);
                lemma_enqueue_keeps_tiers(q, new_id, descriptor);
                lemma_promote_records(queued, max, sys.disk, id);
                assert((queued.all_tasks() + sys.disk).contains(t));
                let u = choose|u: TaskView| #[trigger] after.contains(u) && follows(t, u);
                lemma_find_member(after, u);
            },
            Event::Finish(done, result) => {
                let retired = q.retire(done, result);
                lemma_retire_records(q, done, result, sys.disk, id);
                lemma_retire_keeps_tiers(q, done, result);
                lemma_promote_records(retired, max, sys.disk, id);
                let v = choose|v: TaskView| #[trigger]
                    (retired.all_tasks() + sys.disk).contains(v) && follows(t, v);
                let u = choose|u: TaskView| #[trigger] after.contains(u) && follows(v, u);
                lemma_find_member(after, u);
            },
            Event::Swap => {
                lemma_swap_records(sys, id);
                lemma_find_member(after, t);
            },
        }
    }
}

/// Over any run of events that spare `id`, the job never goes back: what a
/// lookup of `id` gave at the start, it gives in the same or a later state
/// at the end.
pub proof fn lemma_state_only_advances_over_run<D>(
    sys: System<D>,
    events: Seq<Event<D>>,
    id: Seq<char>,
)
    requires
        sys.wf(),
        sys.sole(id),
        sys.spares_all(events, id),
    ensures
        sys.run(events).wf(),
        sys.run(events).sole(id),
        sys.get(id) matches Some(t) ==> {
            &&& sys.run(events).get(id) matches Some(u)
            &&& follows(t, u)
        },
    decreases events.len(),
{
    if events.len() > 0 {
        lemma_step_keeps_wf(sys, events[0]);
        lemma_step_keeps_sole(sys, events[0], id);
        lemma_state_only_advances(sys, events[0], id);
        lemma_state_only_advances_over_run(sys.step(events[0]), events.drop_first(), id);
    }
}

/// Right after its submission under an id that no record carried, a job is
/// found under its id, `Running` if a place was free and `Pending` if not.
pub proof fn lemma_submitted_is_found<D>(sys: System<D>, id: Seq<char>, descriptor: D)
    requires
        sys.wf(),
        !has_id(sys.records(), id),
    ensures
        sys.step(Event::Submit(id, descriptor)).get(id) == Some(sys.scheduler.submitted(id)),
        sys.step(Event::Submit(id, descriptor)).sole(id),
{
    let event = Event::Submit(id, descriptor);
    assert(sys.sole(id));
    lemma_step_keeps_sole(sys, event, id);
    let q = sys.scheduler.queues;
    let max = sys.scheduler.max_concurrency;
    let task = TaskView { id, state: State::Pending };
    let queued = q.enqueue(task, descriptor);
    let q2 = queued.promote(max);
    let after = sys.step(event).records();
    let a = q.active.len() as int;
    let n = queued.pending.len() as int;
    assert(queued.pending[n - 1] == (task, descriptor));
    if a < max {
        assert(queued.promotions(max) >= 1);
        assert(queued.launched(max)[0].0 == task.with_state(State::Running));
        assert(after[a] == q2.active[a]);
        assert(after[a] == sys.scheduler.submitted(id));
    } else {
        assert(queued.promotions(max) == 0);
        assert(q2.pending[n - 1] == queued.pending[n - 1]);
        assert(after[a + n - 1] == q2.pending[n - 1].0);
        assert(after[a + n - 1] == sys.scheduler.submitted(id));
    }
    lemma_find_member(after, sys.scheduler.submitted(id));
}

/// Once an active job has ended, a lookup of its id gives `Finished` with
/// exactly the result that was reported.
pub proof fn lemma_finished_result_is_found<D>(
    sys: System<D>,
    id: Seq<char>,
    result: Result<Success, RunTaskError>,
)
    requires
        sys.wf(),
        sys.sole(id),
        first_with_id(sys.scheduler.queues.active, id) is Some,
    ensures
        sys.step(Event::Finish(id, result)).get(id) == Some(
            TaskView { id, state: State::Finished(result) },
        ),
{
    let event = Event::Finish(id, result);
    lemma_step_keeps_sole(sys, event, id);
    let q = sys.scheduler.queues;
    let max = sys.scheduler.max_concurrency;
    let retired = q.retire(id, result);
    let after = sys.step(event).records();
    lemma_first_with_id(q.active, id);
    lemma_retire_records(q, id, result, sys.disk, id);
    lemma_retire_keeps_tiers(q, id, result);
    lemma_promote_records(retired, max, sys.disk, id);
    let done = TaskView { id, state: State::Finished(result) };
    assert((retired.all_tasks() + sys.disk).contains(done));
    let u = choose|u: TaskView| #[trigger] after.contains(u) && follows(done, u);
    lemma_find_member(after, done);
}

/// The result of a job that has ended stays: whatever events follow that
/// spare its id, overflow to disk among them, a lookup of its id keeps
/// giving `Finished` with exactly the result that was reported.
pub proof fn lemma_result_stays<D>(
    sys: System<D>,
    id: Seq<char>,
    result: Result<Success, RunTaskError>,
    events: Seq<Event<D>>,
)
    requires
        sys.wf(),
        sys.sole(id),
        first_with_id(sys.scheduler.queues.active, id) is Some,
        sys.step(Event::Finish(id, result)).spares_all(events, id),
    ensures
        sys.step(Event::Finish(id, result)).run(events).get(id) == Some(
            TaskView { id, state: State::Finished(result) },
        ),
{
    let event = Event::Finish(id, result);
    lemma_finished_result_is_found(sys, id, result);
    lemma_step_keeps_wf(sys, event);
    lemma_step_keeps_sole(sys, event, id);
    lemma_state_only_advances_over_run(sys.step(event), events, id);
}

/// An overflow moves out exactly the finished records over the ceiling, the
/// oldest ones, in their order; the newer ones stay in memory, in their
/// order, and are no more than the ceiling; no other tier changes.
pub proof fn lemma_overflow_moves_oldest<D>(sys: System<D>)
    ensures
        ({
            let before = sys.scheduler.queues;
            let after = sys.step(Event::Swap);
            let ceiling = sys.scheduler.max_memory_size;
            let over = if before.finished.len() > ceiling {
                before.finished.len() - ceiling
            } else {
                0
            };
            &&& sys.scheduler.swap_batch() == before.finished.take(over)
            &&& sys.scheduler.swap_batch().len() == over
            &&& after.scheduler.queues.finished == before.finished.skip(over)
            &&& after.scheduler.queues.finished.len() <= ceiling
            &&& after.scheduler.queues.finished.len() == before.finished.len() - over
            &&& after.scheduler.queues.active == before.active
            &&& after.scheduler.queues.pending == before.pending
            &&& after.disk == sys.disk + before.finished.take(over)
        }),
{
}

/// An overflow hides nothing: a lookup of an id that one record only
/// carries gives after the overflow what it gave before, be the record
/// still in memory or now on disk.
pub proof fn lemma_overflow_keeps_lookups<D>(sys: System<D>, id: Seq<char>)
    requires
        sys.sole(id),
    ensures
        sys.step(Event::Swap).get(id) == sys.get(id),
{
    let after = sys.step(Event::Swap);
    lemma_swap_records(sys, id);
    lemma_found_is_member(sys.records(), id);
    lemma_found_is_member(after.records(), id);
    match sys.get(id) {
        Some(t) => {
            lemma_find_member(after.records(), t);
        },
        None => {
            if let Some(u) = after.get(id) {
                assert(sys.records().contains(u));
                let i = choose|i: int| 0 <= i < sys.records().len() && sys.records()[i] == u;
                assert(sys.records()[i].id == id);
            }
        },
    }
}

/// Whether none of `events` is an overflow.
pub open spec fn no_swap<D>(events: Seq<Event<D>>) -> bool {
    forall|i: int| 0 <= i < events.len() ==> !(#[trigger] events[i] is Swap)
}

/// Submissions and ends of jobs add to the finished tier at its newest end
/// only: the records that were finished stay where they were, oldest first.
pub proof fn lemma_finished_grows_at_the_tail<D>(sys: System<D>, events: Seq<Event<D>>)
    requires
        no_swap(events),
    ensures
        sys.scheduler.queues.finished.len() <= sys.run(events).scheduler.queues.finished.len(),
        sys.run(events).scheduler.queues.finished.take(
            sys.scheduler.queues.finished.len() as int,
        ) == sys.scheduler.queues.finished,
    decreases events.len(),
{
    let before = sys.scheduler.queues.finished;
    if events.len() == 0 {
        assert(before.take(before.len() as int) =~= before);
    } else {
        let next = sys.step(events[0]);
        let mid = next.scheduler.queues.finished;
        assert(before.len() <= mid.len() && mid.take(before.len() as int) =~= before) by {
            match events[0] {
                Event::Submit(id, descriptor) => {},
                Event::Finish(id, result) => {
                    lemma_first_with_id(sys.scheduler.queues.active, id);
                },
                Event::Swap => {},
            }
        }
        assert(no_swap(events.drop_first())) by {
            assert forall|i: int| 0 <= i < events.drop_first().len() implies !(
            #[trigger] events.drop_first()[i] is Swap) by {
                assert(events.drop_first()[i] == events[i + 1]);
            }
        }
        lemma_finished_grows_at_the_tail(next, events.drop_first());
        let end = sys.run(events).scheduler.queues.finished;
        assert(end.take(before.len() as int) =~= end.take(mid.len() as int).take(
            before.len() as int,
        ));
    }
}

/// A batch can be written while jobs go on: whatever is submitted and
/// whatever ends after the batch was taken, the records of the batch are
/// still the oldest of the finished tier, so dropping as many as the batch
/// holds drops the batch and nothing else.
pub proof fn lemma_batch_stays_the_oldest<D>(sys: System<D>, events: Seq<Event<D>>)
    requires
        no_swap(events),
    ensures
        ({
            let batch = sys.scheduler.swap_batch();
            let later = sys.run(events).scheduler;
            &&& batch.len() <= later.queues.finished.len()
            &&& later.queues.finished.take(batch.len() as int) == batch
            &&& batch + later.drop_oldest(batch.len()).queues.finished == later.queues.finished
        }),
{
    lemma_finished_grows_at_the_tail(sys, events);
    let batch = sys.scheduler.swap_batch();
    let before = sys.scheduler.queues.finished;
    let later = sys.run(events).scheduler.queues.finished;
    assert(later.take(batch.len() as int) =~= later.take(before.len() as int).take(
        batch.len() as int,
    ));
    assert(batch + later.skip(batch.len() as int) =~= later);
}

} // verus!
