use taskwheel::manager::{TaskError, TaskManager};
use taskwheel::task::{Task, TaskExecutor, TaskRunResult, TaskSchedule, TaskState};

fn task(name: &str, schedule: TaskSchedule) -> Task {
    let mut t = Task::default();
    t.name = name.to_string();
    t.schedule = schedule;
    t
}

#[test]
fn add_assigns_increasing_ids() {
    let mut m = TaskManager::new();
    let a = m
        .add_task(task("a", TaskSchedule::Interval(5)), TaskExecutor::Sync(1), 100)
        .unwrap();
    let b = m
        .add_task(task("b", TaskSchedule::Once(2)), TaskExecutor::Sync(2), 100)
        .unwrap();
    assert_eq!(a, 1);
    assert_eq!(b, 2);
    assert!(b > a);
    assert_eq!(m.list().len(), 2);
}

#[test]
fn validation_rejects_and_consumes_nothing() {
    let mut m = TaskManager::new();
    assert_eq!(
        m.add_task(task("", TaskSchedule::Interval(5)), TaskExecutor::Sync(1), 100),
        Err(TaskError::ValidationError)
    );
    assert_eq!(
        m.add_task(task("z", TaskSchedule::Once(0)), TaskExecutor::Sync(1), 100),
        Err(TaskError::ValidationError)
    );
    assert_eq!(
        m.add_task(task("z", TaskSchedule::Interval(0)), TaskExecutor::Sync(1), 100),
        Err(TaskError::ValidationError)
    );
    assert_eq!(
        m.add_task(
            task("z", TaskSchedule::Cron(String::new())),
            TaskExecutor::Sync(1),
            100
        ),
        Err(TaskError::ValidationError)
    );
    assert_eq!(
        m.add_task(
            task("z", TaskSchedule::Cron("not a cron".to_string())),
            TaskExecutor::Sync(1),
            100
        ),
        Err(TaskError::ValidationError)
    );
    assert_eq!(m.list().len(), 0);
    // no id was consumed by the failed attempts
    let id = m
        .add_task(task("ok", TaskSchedule::Interval(5)), TaskExecutor::Sync(1), 100)
        .unwrap();
    assert_eq!(id, 1);
}

#[test]
fn cancel_unknown_and_cancelled() {
    let mut m = TaskManager::new();
    assert_eq!(m.cancel(99), Err(TaskError::NotFound));
    let id = m
        .add_task(task("a", TaskSchedule::Interval(5)), TaskExecutor::Sync(1), 100)
        .unwrap();
    assert_eq!(m.cancel(id), Ok(()));
    assert_eq!(m.get(id).unwrap().state, TaskState::Cancelled);
    // idempotent: a second cancel succeeds and changes nothing
    assert_eq!(m.cancel(id), Ok(()));
    assert_eq!(m.get(id).unwrap().state, TaskState::Cancelled);
    assert_eq!(m.get(id).unwrap().next_run, None);
}

#[test]
fn get_returns_a_snapshot() {
    let mut m = TaskManager::new();
    let id = m
        .add_task(task("a", TaskSchedule::Interval(5)), TaskExecutor::Sync(1), 100)
        .unwrap();
    let mut snap = m.get(id).unwrap();
    snap.state = TaskState::Cancelled;
    snap.name = "tampered".to_string();
    assert_eq!(m.get(id).unwrap().state, TaskState::Idle);
    assert_eq!(m.get(id).unwrap().name, "a");
}

#[test]
fn interval_task_runs_and_records_failures() {
    // A task on a one-second interval whose job always fails with "boom":
    // after several seconds the failure is recorded and the task is Idle.
    let mut m = TaskManager::new();
    let id = m
        .add_task(task("a", TaskSchedule::Interval(1)), TaskExecutor::Sync(1), 1000)
        .unwrap();
    assert_eq!(m.get(id).unwrap().next_run, Some(1001));
    let mut runs = 0;
    for t in 1001..=1004 {
        let started = m.poll(t);
        assert_eq!(started, vec![id]);
        assert_eq!(m.get(id).unwrap().state, TaskState::Running);
        runs += 1;
        assert_eq!(
            m.finish_run(id, TaskRunResult::Failed("boom".to_string()), t),
            Ok(())
        );
        assert_eq!(m.get(id).unwrap().state, TaskState::Idle);
    }
    assert!(runs >= 3);
    let last = m.get(id).unwrap().last_run.expect("a run was recorded");
    assert_eq!(last.0, 1004);
    assert!(matches!(last.1, TaskRunResult::Failed(ref msg) if msg == "boom"));
}

#[test]
fn once_task_fires_exactly_once() {
    let mut m = TaskManager::new();
    let id = m
        .add_task(task("b", TaskSchedule::Once(1)), TaskExecutor::Sync(1), 500)
        .unwrap();
    assert_eq!(m.get(id).unwrap().next_run, Some(501));
    assert_eq!(m.poll(500).len(), 0);
    assert_eq!(m.poll(501), vec![id]);
    assert_eq!(m.finish_run(id, TaskRunResult::Completed, 501), Ok(()));
    let snap = m.get(id).unwrap();
    assert_eq!(snap.state, TaskState::Idle);
    assert!(snap.last_run.is_some());
    assert_eq!(snap.next_run, None);
    // no further firing, however long we wait
    for t in 502..1200 {
        assert_eq!(m.poll(t).len(), 0);
    }
    assert_eq!(m.get(id).unwrap().state, TaskState::Idle);
}

#[test]
fn cap_limits_concurrency_and_defers_firings() {
    // Ten tasks due at once under a cap of five: only five run at a time,
    // the rest are deferred, none is lost, and ties are broken by id.
    let mut m = TaskManager::with_cap(5);
    let mut ids = Vec::new();
    for i in 0..10 {
        let id = m
            .add_task(
                task(&format!("t{}", i), TaskSchedule::Interval(10)),
                TaskExecutor::Sync(i),
                0,
            )
            .unwrap();
        ids.push(id);
    }
    let first = m.poll(10);
    assert_eq!(first, vec![1, 2, 3, 4, 5]);
    // cap saturated: nothing more starts, nothing is dropped
    assert_eq!(m.poll(10).len(), 0);
    let running = m
        .list()
        .iter()
        .filter(|t| t.state == TaskState::Running)
        .count();
    assert_eq!(running, 5);
    for id in &first {
        assert_eq!(m.finish_run(*id, TaskRunResult::Completed, 11), Ok(()));
    }
    // slots freed: the five deferred firings start now
    let second = m.poll(11);
    assert_eq!(second, vec![6, 7, 8, 9, 10]);
    for id in &second {
        assert_eq!(m.finish_run(*id, TaskRunResult::Completed, 12), Ok(()));
    }
    for id in &ids {
        let snap = m.get(*id).unwrap();
        assert_eq!(snap.state, TaskState::Idle);
        assert!(snap.last_run.is_some());
    }
}

#[test]
fn cancel_mid_execution_stays_cancelled() {
    let mut m = TaskManager::new();
    let id = m
        .add_task(task("c", TaskSchedule::Interval(1)), TaskExecutor::Sync(1), 0)
        .unwrap();
    assert_eq!(m.poll(1), vec![id]);
    assert_eq!(m.get(id).unwrap().state, TaskState::Running);
    // cancellation arrives while the job is mid-execution
    assert_eq!(m.cancel(id), Ok(()));
    assert_eq!(m.get(id).unwrap().state, TaskState::Cancelled);
    // the in-flight execution completes, but its result is discarded and
    // the task is not resurrected to Idle
    assert_eq!(m.finish_run(id, TaskRunResult::Completed, 2), Ok(()));
    let snap = m.get(id).unwrap();
    assert_eq!(snap.state, TaskState::Cancelled);
    assert!(snap.last_run.is_none());
    // and it never fires again
    for t in 3..20 {
        assert_eq!(m.poll(t).len(), 0);
    }
}

#[test]
fn explicit_ids_are_kept_and_duplicates_rejected() {
    let mut m = TaskManager::new();
    let mut t = task("x", TaskSchedule::Interval(5));
    t.id = 40;
    assert_eq!(
        m.add_task(t, TaskExecutor::Sync(1), 0),
        Ok(40)
    );
    let mut t2 = task("y", TaskSchedule::Interval(5));
    t2.id = 40;
    assert_eq!(
        m.add_task(t2, TaskExecutor::Sync(1), 0),
        Err(TaskError::ValidationError)
    );
    // the counter moves past explicit ids, so automatic ids stay fresh
    let auto = m
        .add_task(task("z", TaskSchedule::Interval(5)), TaskExecutor::Sync(1), 0)
        .unwrap();
    assert_eq!(auto, 41);
}

#[test]
fn cron_task_is_armed_from_registration_time() {
    let mut m = TaskManager::new();
    let id = m
        .add_task(
            task("nightly", TaskSchedule::Cron("0 0 * * *".to_string())),
            TaskExecutor::Async(7),
            1000,
        )
        .unwrap();
    assert_eq!(m.get(id).unwrap().next_run, Some(86400));
    assert_eq!(m.poll(86399).len(), 0);
    assert_eq!(m.poll(86400), vec![id]);
    // re-armed for the next midnight while the job runs
    assert_eq!(m.get(id).unwrap().next_run, Some(2 * 86400));
    assert_eq!(m.finish_run(id, TaskRunResult::Completed, 86401), Ok(()));
    assert_eq!(m.get(id).unwrap().state, TaskState::Idle);
}

#[test]
fn created_at_defaults_to_registration_time() {
    let mut m = TaskManager::new();
    let id = m
        .add_task(task("a", TaskSchedule::Interval(5)), TaskExecutor::Sync(1), 777)
        .unwrap();
    assert_eq!(m.get(id).unwrap().created_at, 777);
    let mut t = task("b", TaskSchedule::Interval(5));
    t.created_at = 123;
    let id2 = m.add_task(t, TaskExecutor::Sync(1), 777).unwrap();
    assert_eq!(m.get(id2).unwrap().created_at, 123);
}
