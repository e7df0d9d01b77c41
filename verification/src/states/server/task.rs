//! Which completion of a background task may still be applied.
//!
//! Work on the store runs elsewhere and may finish in any order. Each kind
//! of task has a counter, its epoch. Submitting a task moves the epoch of its
//! kind on by one and stamps the task with the new value; when the task
//! completes, its result counts only while its stamp is still the epoch of
//! its kind. A later submission of the same kind thereby supersedes every
//! earlier one, whenever their answers arrive.

use vstd::prelude::*;

verus! {

/// The kinds of background task.
#[derive(Debug, Clone, Copy, PartialEq, Eq, Structural)]
pub enum ServerTask {
    /// One page of the scan of the keys.
    ScanKeys,
    /// The scan of the keys below one folder.
    ScanPrefix,
    /// The fetch of the selected key's value.
    SelectKey,
    /// One more page of the selected value.
    LoadMoreValue,
    /// The addition of an entry to the selected value.
    AddValue,
    /// The removal of a field from the selected hash.
    RemoveHashValue,
}

/// The stamp of one submitted task.
#[derive(Debug, Clone, Copy, PartialEq, Eq, Structural)]
pub struct TaskRecord {
    pub kind: ServerTask,
    pub epoch: u64,
}

/// The epochs of a session, one for each kind of task.
#[derive(Debug, Clone, Copy, PartialEq, Eq, Structural)]
pub struct TaskDispatcher {
    pub scan_keys: u64,
    pub scan_prefix: u64,
    pub select_key: u64,
    pub load_more_value: u64,
    pub add_value: u64,
    pub remove_hash_value: u64,
}

impl TaskDispatcher {
    /// The epoch of `kind`: how many tasks of that kind were submitted.
    pub open spec fn epoch(self, kind: ServerTask) -> u64 {
        match kind {
            ServerTask::ScanKeys => self.scan_keys,
            ServerTask::ScanPrefix => self.scan_prefix,
            ServerTask::SelectKey => self.select_key,
            ServerTask::LoadMoreValue => self.load_more_value,
            ServerTask::AddValue => self.add_value,
            ServerTask::RemoveHashValue => self.remove_hash_value,
        }
    }

    /// The epochs with that of `kind` set to `epoch`.
    pub open spec fn with_epoch(self, kind: ServerTask, epoch: u64) -> TaskDispatcher {
        match kind {
            ServerTask::ScanKeys => TaskDispatcher { scan_keys: epoch, ..self },
            ServerTask::ScanPrefix => TaskDispatcher { scan_prefix: epoch, ..self },
            ServerTask::SelectKey => TaskDispatcher { select_key: epoch, ..self },
            ServerTask::LoadMoreValue => TaskDispatcher { load_more_value: epoch, ..self },
            ServerTask::AddValue => TaskDispatcher { add_value: epoch, ..self },
            ServerTask::RemoveHashValue => TaskDispatcher { remove_hash_value: epoch, ..self },
        }
    }

    /// Whether one more task of `kind` can be stamped: the counter has a
    /// last value, after which the kind takes no further task.
    pub open spec fn can_submit(self, kind: ServerTask) -> bool {
        self.epoch(kind) < u64::MAX
    }

    /// The stamp that the next task of `kind` gets.
    pub open spec fn next_record(self, kind: ServerTask) -> TaskRecord {
        TaskRecord { kind, epoch: (self.epoch(kind) + 1) as u64 }
    }

    /// The epochs after a submission of `kind`.
    pub open spec fn submitted(self, kind: ServerTask) -> TaskDispatcher {
        if self.can_submit(kind) {
            self.with_epoch(kind, (self.epoch(kind) + 1) as u64)
        } else {
            self
        }
    }

    /// Whether a task with this stamp is the latest of its kind.
    pub open spec fn accepts(self, record: TaskRecord) -> bool {
        self.epoch(record.kind) == record.epoch
    }

    /// The epochs before anything was submitted.
    pub open spec fn unused() -> TaskDispatcher {
        TaskDispatcher {
            scan_keys: 0,
            scan_prefix: 0,
            select_key: 0,
            load_more_value: 0,
            add_value: 0,
            remove_hash_value: 0,
        }
    }

    /// The epochs of a new session: nothing was submitted.
    pub fn new() -> (r: TaskDispatcher)
        ensures
            r == TaskDispatcher::unused(),
    {
        TaskDispatcher {
            scan_keys: 0,
            scan_prefix: 0,
            select_key: 0,
            load_more_value: 0,
            add_value: 0,
            remove_hash_value: 0,
        }
    }

    /// The epoch of `kind`.
    pub fn current(&self, kind: ServerTask) -> (r: u64)
        ensures
            r == self.epoch(kind),
    {
        match kind {
            ServerTask::ScanKeys => self.scan_keys,
            ServerTask::ScanPrefix => self.scan_prefix,
            ServerTask::SelectKey => self.select_key,
            ServerTask::LoadMoreValue => self.load_more_value,
            ServerTask::AddValue => self.add_value,
            ServerTask::RemoveHashValue => self.remove_hash_value,
        }
    }

    /// Whether one more task of `kind` can be stamped.
    pub fn has_room(&self, kind: ServerTask) -> (r: bool)
        ensures
            r == self.can_submit(kind),
    {
        self.current(kind) < u64::MAX
    }

    /// Submits a task of `kind`: moves the epoch of the kind on by one and
    /// returns the stamp of the task, or changes nothing and returns `None`
    /// where the counter of the kind is used up. The other kinds keep
    /// their epochs.
    pub fn submit(&mut self, kind: ServerTask) -> (r: Option<TaskRecord>)
        ensures
            *final(self) == old(self).submitted(kind),
            r == (if old(self).can_submit(kind) {
                Some(old(self).next_record(kind))
            } else {
                None
            }),
    {
        let now = self.current(kind);
        if now == u64::MAX {
            return None;
        }
        let next = now + 1;
        match kind {
            ServerTask::ScanKeys => {
                self.scan_keys = next;
            },
            ServerTask::ScanPrefix => {
                self.scan_prefix = next;
            },
            ServerTask::SelectKey => {
                self.select_key = next;
            },
            ServerTask::LoadMoreValue => {
                self.load_more_value = next;
            },
            ServerTask::AddValue => {
                self.add_value = next;
            },
            ServerTask::RemoveHashValue => {
                self.remove_hash_value = next;
            },
        }
        Some(TaskRecord { kind, epoch: next })
    }

    /// Whether a task with this stamp is the latest of its kind: only then
    /// may its result be applied.
    pub fn is_current(&self, record: TaskRecord) -> (r: bool)
        ensures
            r == self.accepts(record),
    {
        self.current(record.kind) == record.epoch
    }
}

/// A submission touches the epoch of its own kind only, and no epoch ever
/// goes down.
pub proof fn lemma_submit_moves_one_epoch(d: TaskDispatcher, kind: ServerTask, other: ServerTask)
    ensures
        d.submitted(kind).epoch(other) >= d.epoch(other),
        other != kind ==> d.submitted(kind).epoch(other) == d.epoch(other),
        d.can_submit(kind) ==> d.submitted(kind).epoch(kind) == d.epoch(kind) + 1,
        d.can_submit(kind) ==> d.submitted(kind).accepts(d.next_record(kind)),
{
}

/// Of two tasks of one kind submitted one after the other, the second is
/// the latest and the first is not, whichever of them completes first.
pub proof fn lemma_later_submission_supersedes(d: TaskDispatcher, kind: ServerTask)
    requires
        d.can_submit(kind),
        d.submitted(kind).can_submit(kind),
    ensures
        ({
            let first = d.next_record(kind);
            let between = d.submitted(kind);
            let second = between.next_record(kind);
            let after = between.submitted(kind);
            &&& between.accepts(first)
            &&& after.accepts(second)
            &&& !after.accepts(first)
        }),
{
}

/// A stamp that was superseded stays superseded: once the epoch of its
/// kind has passed it, no further submission of any kind makes it the
/// latest again.
pub proof fn lemma_superseded_stays_superseded(
    d: TaskDispatcher,
    record: TaskRecord,
    kind: ServerTask,
)
    requires
        d.epoch(record.kind) > record.epoch,
    ensures
        d.submitted(kind).epoch(record.kind) > record.epoch,
        !d.submitted(kind).accepts(record),
{
}

} // verus!
