use zedis::states::{ServerTask, TaskDispatcher, TaskRecord};

const KINDS: [ServerTask; 6] = [
    ServerTask::ScanKeys,
    ServerTask::ScanPrefix,
    ServerTask::SelectKey,
    ServerTask::LoadMoreValue,
    ServerTask::AddValue,
    ServerTask::RemoveHashValue,
];

#[test]
fn nothing_was_submitted_at_the_start() {
    let tasks = TaskDispatcher::new();
    for kind in KINDS {
        assert_eq!(tasks.current(kind), 0);
        assert!(tasks.has_room(kind));
        assert!(tasks.is_current(TaskRecord { kind, epoch: 0 }));
        assert!(!tasks.is_current(TaskRecord { kind, epoch: 1 }));
    }
}

#[test]
fn a_submission_moves_the_epoch_of_its_kind_only() {
    for kind in KINDS {
        let mut tasks = TaskDispatcher::new();
        let record = tasks.submit(kind).unwrap();
        assert_eq!(record, TaskRecord { kind, epoch: 1 });
        assert!(tasks.is_current(record));
        for other in KINDS {
            assert_eq!(tasks.current(other), if other == kind { 1 } else { 0 });
        }
    }
}

#[test]
fn the_later_submission_supersedes_the_earlier() {
    let mut tasks = TaskDispatcher::new();
    let first = tasks.submit(ServerTask::LoadMoreValue).unwrap();
    let other = tasks.submit(ServerTask::AddValue).unwrap();
    assert!(tasks.is_current(first));
    let second = tasks.submit(ServerTask::LoadMoreValue).unwrap();
    assert!(!tasks.is_current(first));
    assert!(tasks.is_current(second));
    assert!(tasks.is_current(other));
    let third = tasks.submit(ServerTask::LoadMoreValue).unwrap();
    assert!(!tasks.is_current(first));
    assert!(!tasks.is_current(second));
    assert!(tasks.is_current(third));
    assert_eq!(third.epoch, 3);
}

#[test]
fn a_counter_that_is_used_up_takes_no_submission() {
    let mut tasks = TaskDispatcher::new();
    tasks.add_value = u64::MAX - 1;
    assert!(tasks.has_room(ServerTask::AddValue));
    let last = tasks.submit(ServerTask::AddValue).unwrap();
    assert_eq!(last.epoch, u64::MAX);
    assert!(!tasks.has_room(ServerTask::AddValue));
    let before = tasks;
    assert_eq!(tasks.submit(ServerTask::AddValue), None);
    assert_eq!(tasks, before);
    assert!(tasks.is_current(last));
    assert!(tasks.submit(ServerTask::ScanKeys).is_some());
}
