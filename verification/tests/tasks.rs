use rustos::task::{ExecutorState, ReadyAction, TaskId, TaskIdCounter};

#[test]
fn task_ids_count_up() {
    let mut counter = TaskIdCounter::new();
    assert_eq!(TaskId::new(&mut counter), TaskId(0));
    assert_eq!(TaskId::new(&mut counter), TaskId(1));
    assert_eq!(TaskId::new(&mut counter), TaskId(2));
}

#[test]
fn executor_polls_spawned_tasks_until_finished() {
    let mut counter = TaskIdCounter::new();
    let a = TaskId::new(&mut counter);
    let b = TaskId::new(&mut counter);
    let mut state = ExecutorState::new();
    state.spawn(a);
    state.spawn(b);
    assert!(state.contains(a));
    assert_eq!(state.on_ready(a), ReadyAction::Poll { new_waker: true });
    state.on_polled(a, false);
    // woken again: the cached waker is reused
    assert_eq!(state.on_ready(a), ReadyAction::Poll { new_waker: false });
    state.on_polled(a, true);
    assert!(!state.contains(a));
    // a stale wake-up of a finished task is dropped
    assert_eq!(state.on_ready(a), ReadyAction::Skip);
    assert_eq!(state.on_ready(b), ReadyAction::Poll { new_waker: true });
    state.on_polled(b, true);
    assert_eq!(state.on_ready(b), ReadyAction::Skip);
}

#[test]
fn unknown_task_is_skipped() {
    let mut state = ExecutorState::new();
    assert_eq!(state.on_ready(TaskId(7)), ReadyAction::Skip);
}

#[test]
fn task_ids_increase_and_differ() {
    let mut counter = TaskIdCounter::new();
    let mut previous = TaskId::new(&mut counter);
    for _ in 0..1000 {
        let id = TaskId::new(&mut counter);
        assert!(id.0 > previous.0);
        previous = id;
    }
    assert_eq!(previous, TaskId(1000));
}
