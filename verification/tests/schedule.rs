use billkeeper::bill::Bill;
use billkeeper::error::RunTaskError;
use billkeeper::key::{DICT, KEY_LEN};
use billkeeper::schedule::{
    find_task, ScheduleQueues, Scheduler, DEFAULT_MAX_CONCURRENCY, DEFAULT_MAX_MEMORY_SIZE,
    GRACE_DELAY_SECS,
};
use billkeeper::swap::{append_chunk, scan};
use billkeeper::task::{State, Success, TaskControlBlock, TaskData};

fn bill(notes: &str, amount: f32) -> Bill {
    Bill { notes: notes.to_string(), amount_bits: amount.to_bits(), category: None }
}

fn finished(id: &str, notes: &str, amount: f32) -> TaskControlBlock {
    let mut task = TaskControlBlock::with_id(id.to_string());
    assert!(task.set_state(State::Finished(Ok(Success(bill(notes, amount))))));
    task
}

type WireBill = (String, u32, Option<usize>);
type WireTask = (String, String, Option<WireBill>, Option<String>);

fn to_wire(task: &TaskControlBlock) -> WireTask {
    let data = task.to_data();
    let success = data.success.map(|s| (s.0.notes, s.0.amount_bits, None));
    (data.id, data.state, success, data.error)
}

fn from_wire(wire: WireTask) -> TaskControlBlock {
    let (id, state, success, error) = wire;
    let success = success
        .map(|(notes, amount_bits, _)| Success(Bill { notes, amount_bits, category: None }));
    TaskControlBlock::from_data(TaskData { id, state, success, error }).unwrap()
}

#[test]
fn test_swap() {
    let mut queues: ScheduleQueues<()> = ScheduleQueues::new();
    for i in 0..10 {
        assert!(queues.restore_finished(finished(&format!("job-{}", i), "No.", i as f32 / 3f32)));
    }
    let lookup_id = "job-0";
    let mut file: Vec<u8> = Vec::new();

    let batch = queues.swap_batch(1);
    let wire: Vec<WireTask> = batch.iter().map(to_wire).collect();
    let payload = postcard::to_allocvec(&wire).unwrap();
    append_chunk(&mut file, &payload).unwrap();
    assert_eq!(queues.move_inactive_to_swap(batch.len()), 9);

    assert_eq!(queues.finished_len(), 1);
    assert!(queues.get_task(lookup_id).is_none());
    let mut found = None;
    for chunk in scan(&file).unwrap() {
        let wire: Vec<WireTask> = postcard::from_bytes(&chunk).unwrap();
        let records: Vec<TaskControlBlock> = wire.into_iter().map(from_wire).collect();
        if let Some(task) = find_task(&records, lookup_id) {
            found = Some(task);
            break;
        }
    }
    let found = found.unwrap();
    assert_eq!(found.id(), lookup_id);
    assert_eq!(found.state(), State::Finished(Ok(Success(bill("No.", 0f32)))));
}

#[test]
fn single_slot_runs_first_and_queues_second() {
    let mut scheduler: Scheduler<u32> = Scheduler::new(1, 10);
    let a = scheduler.submit("job-a".to_string(), 1);
    let b = scheduler.submit("job-b".to_string(), 2);
    assert_eq!(a.task.state(), State::Running);
    assert_eq!(a.launches.len(), 1);
    assert_eq!(a.launches[0].0.id(), "job-a");
    assert_eq!(a.launches[0].1, 1);
    assert_eq!(b.task.state(), State::Pending);
    assert!(b.launches.is_empty());
    assert_eq!(scheduler.get_task("job-a").unwrap().state(), State::Running);
    assert_eq!(scheduler.get_task("job-b").unwrap().state(), State::Pending);

    let done = scheduler.finish_task("job-a", Ok(Success(bill("tea", 2.5))));
    assert!(done.found);
    assert_eq!(done.launches.len(), 1);
    assert_eq!(done.launches[0].0.id(), "job-b");
    assert_eq!(done.launches[0].1, 2);
    assert_eq!(scheduler.get_task("job-b").unwrap().state(), State::Running);
    assert_eq!(
        scheduler.get_task("job-a").unwrap().state(),
        State::Finished(Ok(Success(bill("tea", 2.5))))
    );
}

#[test]
fn overflow_moves_the_two_oldest_of_three() {
    let mut scheduler: Scheduler<()> = Scheduler::new(4, 1);
    for i in 0..3 {
        let mut task = TaskControlBlock::with_id(format!("synthetic-{}", i));
        assert!(task.set_state(State::Finished(Err(RunTaskError::Generic("no".to_string())))));
        assert!(scheduler.restore_finished(task));
    }
    let batch = scheduler.swap_batch();
    assert_eq!(batch.len(), 2);
    assert_eq!(batch[0].id(), "synthetic-0");
    assert_eq!(batch[1].id(), "synthetic-1");
    // nothing has left memory before the batch is reported as written
    assert_eq!(scheduler.finished_len(), 3);
    assert!(scheduler.get_task("synthetic-0").is_some());

    assert_eq!(scheduler.move_inactive_to_swap(batch.len()), 2);
    assert_eq!(scheduler.finished_len(), 1);
    for i in 0..3 {
        let id = format!("synthetic-{}", i);
        assert_eq!(scheduler.get_task_with_overflow(&id, &batch).unwrap().id(), id);
    }
    assert!(scheduler.get_task_with_overflow("synthetic-3", &batch).is_none());
    assert!(scheduler.get_task("synthetic-2").is_some());
    assert!(scheduler.get_task("synthetic-0").is_none());
    assert!(scheduler.get_task("synthetic-1").is_none());
    for id in ["synthetic-0", "synthetic-1"] {
        let on_disk = find_task(&batch, id).unwrap();
        assert_eq!(on_disk.id(), id);
        assert_eq!(
            on_disk.state(),
            State::Finished(Err(RunTaskError::Generic("no".to_string())))
        );
    }
}

#[test]
fn overflow_within_the_ceiling_moves_nothing() {
    let mut scheduler: Scheduler<()> = Scheduler::new(4, 3);
    for i in 0..3 {
        assert!(scheduler.restore_finished(finished(&format!("f{}", i), "x", 1.0)));
    }
    assert!(scheduler.swap_batch().is_empty());
    assert_eq!(scheduler.move_inactive_to_swap(0), 0);
    assert_eq!(scheduler.finished_len(), 3);
}

#[test]
fn overflow_with_a_ceiling_of_zero_moves_everything() {
    let mut scheduler: Scheduler<()> = Scheduler::new(4, 0);
    assert!(scheduler.restore_finished(finished("only", "x", 1.0)));
    assert_eq!(scheduler.swap_batch().len(), 1);
    assert_eq!(scheduler.move_inactive_to_swap(1), 1);
    assert_eq!(scheduler.finished_len(), 0);
}

#[test]
fn records_that_finish_during_the_write_stay() {
    let mut scheduler: Scheduler<()> = Scheduler::new(4, 1);
    for id in ["a", "b", "c"] {
        assert!(scheduler.restore_finished(finished(id, "x", 1.0)));
    }
    let batch = scheduler.swap_batch();
    assert_eq!(batch.len(), 2);
    // two more jobs end while the batch is being written
    assert!(scheduler.restore_finished(finished("d", "x", 1.0)));
    assert!(scheduler.restore_finished(finished("e", "x", 1.0)));
    assert_eq!(scheduler.move_inactive_to_swap(batch.len()), 2);
    assert_eq!(scheduler.finished_len(), 3);
    for id in ["c", "d", "e"] {
        assert!(scheduler.get_task(id).is_some());
    }
    // more than there is drops what there is
    assert_eq!(scheduler.move_inactive_to_swap(10), 3);
    assert_eq!(scheduler.finished_len(), 0);
}

#[test]
fn promotion_takes_the_newest_first() {
    let mut scheduler: Scheduler<&'static str> = Scheduler::new(2, 10);
    let first = scheduler.submit("1".to_string(), "one");
    let second = scheduler.submit("2".to_string(), "two");
    assert_eq!(first.launches.len(), 1);
    assert_eq!(second.launches.len(), 1);
    for (id, d) in [("3", "three"), ("4", "four"), ("5", "five")] {
        let queued = scheduler.submit(id.to_string(), d);
        assert_eq!(queued.task.state(), State::Pending);
        assert!(queued.launches.is_empty());
    }
    assert_eq!(scheduler.active_len(), 2);
    assert_eq!(scheduler.pending_len(), 3);

    let done = scheduler.finish_task("1", Err(RunTaskError::Generic("boom".to_string())));
    assert!(done.found);
    assert_eq!(done.launches.len(), 1);
    assert_eq!(done.launches[0].0.id(), "5");
    assert_eq!(done.launches[0].0.state(), State::Running);
    assert_eq!(done.launches[0].1, "five");
    assert_eq!(scheduler.active_len(), 2);
    assert_eq!(scheduler.pending_len(), 2);
    assert_eq!(scheduler.finished_len(), 1);

    let done = scheduler.finish_task("2", Ok(Success(bill("ok", 1.0))));
    assert_eq!(done.launches[0].0.id(), "4");
    let done = scheduler.finish_task("5", Ok(Success(bill("ok", 1.0))));
    assert_eq!(done.launches[0].0.id(), "3");
    let done = scheduler.finish_task("4", Ok(Success(bill("ok", 1.0))));
    assert!(done.launches.is_empty());
    assert_eq!(scheduler.active_len(), 1);
    assert_eq!(scheduler.pending_len(), 0);
}

#[test]
fn try_run_topmost_fills_the_free_places() {
    let mut scheduler: Scheduler<u8> = Scheduler::new(0, 10);
    for i in 0..3u8 {
        let queued = scheduler.submit(format!("j{}", i), i);
        assert_eq!(queued.task.state(), State::Pending);
    }
    assert!(scheduler.try_run_topmost().is_empty());
    assert_eq!(scheduler.active_len(), 0);
    assert_eq!(scheduler.pending_len(), 3);

    let mut scheduler: Scheduler<u8> = Scheduler::new(2, 10);
    assert!(scheduler.try_run_topmost().is_empty());
}

#[test]
fn active_jobs_never_exceed_the_ceiling() {
    for ceiling in 0..5usize {
        let mut scheduler: Scheduler<usize> = Scheduler::new(ceiling, 2);
        for i in 0..20usize {
            scheduler.submit(format!("job-{}", i), i);
            assert!(scheduler.active_len() <= ceiling);
            if i % 3 == 2 {
                scheduler.finish_task(&format!("job-{}", i), Ok(Success(bill("n", 1.0))));
                scheduler.finish_task(&format!("job-{}", i - 2), Ok(Success(bill("n", 1.0))));
                assert!(scheduler.active_len() <= ceiling);
            }
        }
        assert_eq!(scheduler.active_len() + scheduler.pending_len() + scheduler.finished_len(), 20);
    }
}

#[test]
fn finishing_a_job_that_is_not_active_changes_nothing() {
    let mut scheduler: Scheduler<u8> = Scheduler::new(1, 10);
    scheduler.submit("a".to_string(), 0);
    scheduler.submit("b".to_string(), 1);
    let done = scheduler.finish_task("b", Ok(Success(bill("n", 1.0))));
    assert!(!done.found);
    assert!(done.launches.is_empty());
    assert_eq!(scheduler.get_task("b").unwrap().state(), State::Pending);
    let done = scheduler.finish_task("nobody", Ok(Success(bill("n", 1.0))));
    assert!(!done.found);
    assert_eq!(scheduler.active_len(), 1);
    assert_eq!(scheduler.pending_len(), 1);
    assert_eq!(scheduler.finished_len(), 0);
}

#[test]
fn a_finished_job_keeps_its_exact_result() {
    let mut scheduler: Scheduler<u8> = Scheduler::new(1, 1);
    scheduler.submit("a".to_string(), 0);
    let failure = RunTaskError::EmptyAmount("Total: none".to_string());
    scheduler.finish_task("a", Err(failure.clone()));
    assert_eq!(scheduler.get_task("a").unwrap().state(), State::Finished(Err(failure.clone())));
    // later events do not touch it
    scheduler.submit("b".to_string(), 1);
    scheduler.finish_task("b", Ok(Success(bill("n", 1.0))));
    let batch = scheduler.swap_batch();
    assert_eq!(batch.len(), 1);
    assert_eq!(batch[0].id(), "a");
    assert_eq!(batch[0].state(), State::Finished(Err(failure)));
}

#[test]
fn lookup_goes_through_active_then_pending_then_finished() {
    let mut scheduler: Scheduler<u8> = Scheduler::new(1, 10);
    assert!(scheduler.restore_finished(finished("same", "old", 1.0)));
    scheduler.submit("other".to_string(), 0);
    scheduler.submit("same".to_string(), 1);
    // the pending record is met before the finished one
    assert_eq!(scheduler.get_task("same").unwrap().state(), State::Pending);
    scheduler.finish_task("other", Ok(Success(bill("n", 1.0))));
    assert_eq!(scheduler.get_task("same").unwrap().state(), State::Running);
    assert!(scheduler.get_task("missing").is_none());
    // memory goes before disk
    let disk = vec![finished("same", "older", 2.0), finished("stored", "s", 3.0)];
    assert_eq!(
        scheduler.get_task_with_overflow("same", &disk).unwrap().state(),
        State::Running
    );
    assert_eq!(
        scheduler.get_task_with_overflow("stored", &disk).unwrap().state(),
        State::Finished(Ok(Success(bill("s", 3.0))))
    );
}

#[test]
fn restore_finished_refuses_unfinished_records() {
    let mut scheduler: Scheduler<u8> = Scheduler::new(1, 10);
    assert!(!scheduler.restore_finished(TaskControlBlock::with_id("p".to_string())));
    let mut running = TaskControlBlock::with_id("r".to_string());
    assert!(running.set_state(State::Running));
    assert!(!scheduler.restore_finished(running));
    assert_eq!(scheduler.finished_len(), 0);
}

#[test]
fn create_task_hands_out_a_fresh_key() {
    let mut scheduler: Scheduler<u8> = Scheduler::new(1, 10);
    let first = scheduler.create_task(0);
    let second = scheduler.create_task(1);
    for task in [&first.task, &second.task] {
        assert_eq!(task.id().chars().count(), KEY_LEN);
        assert!(task.id().chars().all(|c| DICT.contains(c)));
    }
    assert_ne!(first.task.id(), second.task.id());
    assert_eq!(first.task.state(), State::Running);
    assert_eq!(second.task.state(), State::Pending);
    assert_eq!(scheduler.get_task(first.task.id()).unwrap().state(), State::Running);
    assert_eq!(scheduler.get_task(second.task.id()).unwrap().state(), State::Pending);
}

#[test]
fn default_scheduler_has_the_default_ceilings() {
    let scheduler: Scheduler<u8> = Scheduler::default();
    assert_eq!(scheduler.max_concurrency(), 4);
    assert_eq!(scheduler.max_memory_size(), 468_000);
    assert_eq!(DEFAULT_MAX_CONCURRENCY, 4);
    assert_eq!(DEFAULT_MAX_MEMORY_SIZE, 468_000);
    assert_eq!(GRACE_DELAY_SECS, 10);
    assert_eq!(scheduler.active_len(), 0);
    assert_eq!(scheduler.pending_len(), 0);
    assert_eq!(scheduler.finished_len(), 0);
}

#[test]
fn queues_promote_and_retire() {
    let mut queues: ScheduleQueues<u8> = ScheduleQueues::new();
    let submission = queues.submit("x".to_string(), 7, 1);
    assert_eq!(submission.launches.len(), 1);
    assert_eq!(submission.task.state(), State::Running);
    assert_eq!(queues.active_len(), 1);
    assert_eq!(queues.overflow(0), 0);
    assert!(queues.retire("x", Ok(Success(bill("n", 1.0)))));
    assert!(!queues.retire("x", Ok(Success(bill("n", 1.0)))));
    assert_eq!(queues.active_len(), 0);
    assert_eq!(queues.overflow(0), 1);
    assert!(queues.promote(1).is_empty());
    let (found, launches) = queues.finish_task("x", Ok(Success(bill("n", 1.0))), 1);
    assert!(!found);
    assert!(launches.is_empty());
    assert_eq!(queues.pending_len(), 0);
}
