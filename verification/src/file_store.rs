//! The append-only log of task records: what it holds, when it is compacted, and to what.

use vstd::prelude::*;

use crate::table::{reversed, TaskTable};
use crate::task::RetryableTask;
use crate::timestamp::{utc_now, Timestamp};

verus! {

use crate::table::{
    has_id, placed, placing_adds_only_the_id, unique_ids, without, without_removes_only_the_id,
};
use crate::task::{views, TaskView};
use crate::timestamp::Instant;

/// Size in bytes beyond which the log is compacted.
pub const MAX_LOG_BYTES: u64 = 20_971_520;

/// Number of appended records from which on the log is compacted.
pub const MAX_APPENDED: usize = 10_000;

/// The tasks that `log` holds: the last record of each id, unless it is a deletion.
///
/// A task has the place at which it entered the log; saving it again does not move it.
pub open spec fn replay(log: Seq<TaskView>) -> Seq<TaskView>
    decreases log.len(),
{
    if log.len() == 0 {
        Seq::empty()
    } else {
        let record = log.last();
        let tasks = replay(log.drop_last());
        if record.is_deleted() {
            without(tasks, record.task_id)
        } else {
            placed(tasks, record)
        }
    }
}

/// The place in `log` at which the task of id `id` entered it: that of its first record since it
/// was last deleted.
pub open spec fn entered(log: Seq<TaskView>, id: Seq<char>) -> Option<int>
    decreases log.len(),
{
    if log.len() == 0 {
        None
    } else {
        let earlier = entered(log.drop_last(), id);
        if log.last().task_id != id {
            earlier
        } else if log.last().is_deleted() {
            None
        } else if earlier is Some {
            earlier
        } else {
            Some(log.len() - 1)
        }
    }
}

/// The task of id `id` among `tasks`.
pub open spec fn find(tasks: Seq<TaskView>, id: Seq<char>) -> Option<TaskView> {
    if has_id(tasks, id) {
        Some(tasks[choose|i: int| 0 <= i < tasks.len() && #[trigger] tasks[i].task_id == id])
    } else {
        None
    }
}

/// The last record of id `id`, be it a deletion or not.
pub open spec fn latest(log: Seq<TaskView>, id: Seq<char>) -> Option<TaskView>
    decreases log.len(),
{
    if log.len() == 0 {
        None
    } else if log.last().task_id == id {
        Some(log.last())
    } else {
        latest(log.drop_last(), id)
    }
}

/// The record that deletes task `id` at `now`: none where the task is unknown or deleted.
pub open spec fn deletion(log: Seq<TaskView>, id: Seq<char>, now: Instant) -> Option<TaskView> {
    match latest(log, id) {
        Some(task) => if task.is_deleted() {
            None
        } else {
            Some(task.deleted(now))
        },
        None => None,
    }
}

/// The log once task `id` is deleted at `now`.
pub open spec fn after_deletion(log: Seq<TaskView>, id: Seq<char>, now: Instant) -> Seq<TaskView> {
    match deletion(log, id, now) {
        Some(record) => log.push(record),
        None => log,
    }
}

/// What compaction writes in place of `log`: the latest state of every task, and nothing else.
pub open spec fn compacted(log: Seq<TaskView>) -> Seq<TaskView> {
    replay(log)
}

/// How many of `log` are deletions.
pub open spec fn deletions(log: Seq<TaskView>) -> nat {
    log.filter(|t: TaskView| t.is_deleted()).len()
}

/// The counters of a store.
pub struct StoreView {
    pub total: int,
    pub deleted: int,
    pub appended: int,
    pub compacting: bool,
}

impl StoreView {
    /// Whether a record can be counted without leaving the range of a counter.
    pub open spec fn can_count(self, deletion: bool) -> bool {
        &&& self.appended < usize::MAX
        &&& if deletion {
            self.deleted < usize::MAX
        } else {
            self.total < usize::MAX
        }
    }

    /// Whether the log is due for compaction, given the size of its file.
    pub open spec fn wants_compaction(self, file_len: Option<u64>) -> bool {
        ||| file_len matches Some(len) && len > MAX_LOG_BYTES
        ||| self.total > 0 && 2 * self.deleted > self.total
        ||| self.appended >= MAX_APPENDED
    }
}

/// What the store knows of its log without reading it.
pub struct FileStore {
    total_tasks: usize,
    deleted_tasks: usize,
    append_count: usize,
    compacting: bool,
}

impl View for FileStore {
    type V = StoreView;

    closed spec fn view(&self) -> StoreView {
        StoreView {
            total: self.total_tasks as int,
            deleted: self.deleted_tasks as int,
            appended: self.append_count as int,
            compacting: self.compacting,
        }
    }
}

impl FileStore {
    /// The store over a log that holds `records`.
    pub fn new(records: &Vec<RetryableTask>) -> (store: FileStore)
        ensures
            store@ == (StoreView {
                total: views(records@).len() - deletions(views(records@)),
                deleted: deletions(views(records@)) as int,
                appended: records@.len() as int,
                compacting: false,
            }),
    {
        let mut store = FileStore {
            total_tasks: 0,
            deleted_tasks: 0,
            append_count: 0,
            compacting: false,
        };
        store.rebuild_metadata(records);
        store
    }

    /// Counts the records of the log afresh.
    pub fn rebuild_metadata(&mut self, records: &Vec<RetryableTask>)
        ensures
            final(self)@ == (StoreView {
                total: views(records@).len() - deletions(views(records@)),
                deleted: deletions(views(records@)) as int,
                appended: records@.len() as int,
                compacting: old(self)@.compacting,
            }),
    {
        let ghost log = views(records@);
        let mut deleted: usize = 0;
        let mut i: usize = 0;
        reveal(Seq::filter);
        while i < records.len()
            invariant
                log == views(records@),
                0 <= i <= records@.len(),
                deleted == deletions(log.take(i as int)),
                deleted <= i,
            decreases records.len() - i,
        {
            reveal(Seq::filter);
            assert(log.take(i + 1).drop_last() =~= log.take(i as int));
            assert(log.take(i + 1).last() == records@[i as int]@);
            if records[i].deleted_at.is_some() {
                deleted = deleted + 1;
            }
            i = i + 1;
        }
        assert(log.take(i as int) =~= log);
        self.total_tasks = records.len() - deleted;
        self.deleted_tasks = deleted;
        self.append_count = records.len();
    }

    /// Counts a record that was appended to the log.
    pub fn save_task(&mut self, task: &RetryableTask)
        requires
            old(self)@.can_count(task@.is_deleted()),
        ensures
            final(self)@ == (StoreView {
                total: old(self)@.total + if task@.is_deleted() {
                    0int
                } else {
                    1
                },
                deleted: old(self)@.deleted + if task@.is_deleted() {
                    1int
                } else {
                    0
                },
                appended: old(self)@.appended + 1,
                compacting: old(self)@.compacting,
            }),
    {
        self.append_count = self.append_count + 1;
        if task.deleted_at.is_some() {
            self.deleted_tasks = self.deleted_tasks + 1;
        } else {
            self.total_tasks = self.total_tasks + 1;
        }
    }

    /// Whether a record can be counted without leaving the range of a counter.
    pub fn can_save(&self, task: &RetryableTask) -> (r: bool)
        ensures
            r == self@.can_count(task@.is_deleted()),
    {
        self.append_count < usize::MAX && if task.deleted_at.is_some() {
            self.deleted_tasks < usize::MAX
        } else {
            self.total_tasks < usize::MAX
        }
    }

    /// The tasks that a log of `records` holds.
    pub fn read_tasks(records: Vec<RetryableTask>) -> (tasks: Vec<RetryableTask>)
        ensures
            views(tasks@) == replay(views(records@)),
            unique_ids(views(tasks@)),
    {
        let ghost log = views(records@);
        let mut pending = reversed(records);
        let mut table = TaskTable::new();
        assert(views(pending@) =~= log.reverse());
        assert(log.take(0) =~= Seq::<TaskView>::empty());
        while pending.len() > 0
            invariant
                pending@.len() <= log.len(),
                views(pending@) == log.skip(log.len() - pending@.len()).reverse(),
                table.wf(),
                table@ == replay(log.take(log.len() - pending@.len())),
            decreases pending.len(),
        {
            let ghost done = log.len() - pending@.len();
            let ghost before = views(pending@);
            match pending.pop() {
                Some(task) => {
                    assert(views(pending@) =~= before.drop_last());
                    assert(task@ == before.last());
                    assert(task@ == log[done]);
                    assert(views(pending@) =~= log.skip(done + 1).reverse());
                    assert(log.take(done + 1).drop_last() =~= log.take(done));
                    if task.deleted_at.is_some() {
                        table.remove(task.task_id.as_str());
                    } else {
                        table.put(task);
                    }
                },
                None => {},
            }
        }
        assert(log.take(log.len() as int) =~= log);
        table.into_tasks()
    }

    /// The last record of id `task_id`, be it a deletion or not.
    pub fn get_latest_task(records: &Vec<RetryableTask>, task_id: &str) -> (task: Option<
        RetryableTask,
    >)
        ensures
            task is Some == latest(views(records@), task_id@) is Some,
            task matches Some(t) ==> latest(views(records@), task_id@) == Some(t@),
    {
        let ghost log = views(records@);
        let wanted = task_id.to_string();
        let mut i: usize = records.len();
        assert(log.take(i as int) =~= log);
        while i > 0
            invariant
                log == views(records@),
                0 <= i <= records@.len(),
                wanted@ == task_id@,
                latest(log, task_id@) == latest(log.take(i as int), task_id@),
            decreases i,
        {
            i = i - 1;
            assert(log.take(i + 1).last() == records@[i as int]@);
            assert(log.take(i + 1).drop_last() =~= log.take(i as int));
            if records[i].task_id == wanted {
                return Some(records[i].clone());
            }
        }
        None
    }

    /// The record that deletes task `task_id` now: none where the task is unknown or deleted.
    pub fn delete_task(records: &Vec<RetryableTask>, task_id: &str) -> (record: Option<
        RetryableTask,
    >)
        ensures
            exists|now: Instant|
                {
                    &&& now.is_clock_reading()
                    &&& record is Some == (#[trigger] deletion(views(records@), task_id@, now)
                        is Some)
                    &&& record matches Some(r) ==> deletion(views(records@), task_id@, now) == Some(
                        r@,
                    )
                },
    {
        let now = utc_now();
        let record = FileStore::delete_task_at(records, task_id, now);
        assert(now@.is_clock_reading());
        record
    }

    /// The record that deletes task `task_id` at `now`: none where the task is unknown or deleted.
    pub fn delete_task_at(records: &Vec<RetryableTask>, task_id: &str, now: Timestamp) -> (record:
        Option<RetryableTask>)
        ensures
            record is Some == deletion(views(records@), task_id@, now@) is Some,
            record matches Some(r) ==> deletion(views(records@), task_id@, now@) == Some(r@),
    {
        match FileStore::get_latest_task(records, task_id) {
            Some(mut task) => {
                if task.deleted_at.is_some() {
                    None
                } else {
                    task.mark_deleted_at(now);
                    Some(task)
                }
            },
            None => None,
        }
    }

    /// Whether the log is due for compaction, given the size of its file where that is known.
    pub fn should_compact(&self, file_len: Option<u64>) -> (r: bool)
        ensures
            r == self@.wants_compaction(file_len),
    {
        match file_len {
            Some(len) => {
                if len > MAX_LOG_BYTES {
                    return true;
                }
            },
            None => {},
        }
        if self.total_tasks > 0 && self.deleted_tasks > self.total_tasks / 2 {
            return true;
        }
        self.append_count >= MAX_APPENDED
    }

    /// Claims the compaction: true unless one is under way.
    pub fn begin_compaction(&mut self) -> (claimed: bool)
        ensures
            claimed == !old(self)@.compacting,
            final(self)@ == (StoreView { compacting: true, ..old(self)@ }),
    {
        let claimed = !self.compacting;
        self.compacting = true;
        claimed
    }

    /// What compaction writes in place of a log of `records`: one record for each task.
    pub fn compact_log(records: Vec<RetryableTask>) -> (kept: Vec<RetryableTask>)
        ensures
            views(kept@) == compacted(views(records@)),
            unique_ids(views(kept@)),
    {
        FileStore::read_tasks(records)
    }

    /// Ends the compaction. Where it replaced the log, `kept` is the number of records written.
    pub fn finish_compaction(&mut self, kept: Option<usize>)
        ensures
            final(self)@ == match kept {
                Some(count) => (StoreView {
                    total: count as int,
                    deleted: 0,
                    appended: 0,
                    compacting: false,
                }),
                None => (StoreView { compacting: false, ..old(self)@ }),
            },
    {
        match kept {
            Some(count) => {
                self.total_tasks = count;
                self.deleted_tasks = 0;
                self.append_count = 0;
            },
            None => {},
        }
        self.compacting = false;
    }
}

/// With unique ids, `find` gives the one task of the id.
pub proof fn find_is_the_task_of_the_id(tasks: Seq<TaskView>, task: TaskView)
    requires
        unique_ids(tasks),
        tasks.contains(task),
    ensures
        find(tasks, task.task_id) == Some(task),
{
    let k = choose|k: int| 0 <= k < tasks.len() && tasks[k] == task;
    assert(tasks[k].task_id == task.task_id);
    let i = choose|i: int| 0 <= i < tasks.len() && #[trigger] tasks[i].task_id == task.task_id;
    if i < k {
        assert(tasks[i].task_id != tasks[k].task_id);
    } else if k < i {
        assert(tasks[k].task_id != tasks[i].task_id);
    }
}

/// The tasks of a log have ids of their own.
pub proof fn replay_has_unique_ids(log: Seq<TaskView>)
    ensures
        unique_ids(replay(log)),
    decreases log.len(),
{
    if log.len() > 0 {
        let record = log.last();
        replay_has_unique_ids(log.drop_last());
        without_removes_only_the_id(replay(log.drop_last()), record.task_id);
        placing_adds_only_the_id(replay(log.drop_last()), record);
    }
}

/// What `find` gives is a task of the id among `tasks`.
proof fn lemma_found(tasks: Seq<TaskView>, id: Seq<char>)
    requires
        find(tasks, id) is Some,
    ensures
        tasks.contains(find(tasks, id).unwrap()),
        find(tasks, id).unwrap().task_id == id,
{
    let i = choose|i: int| 0 <= i < tasks.len() && #[trigger] tasks[i].task_id == id;
    assert(tasks[i] == find(tasks, id).unwrap());
}

proof fn lemma_find_without(tasks: Seq<TaskView>, id: Seq<char>, other: Seq<char>)
    requires
        unique_ids(tasks),
    ensures
        find(without(tasks, id), other) == if other == id {
            None
        } else {
            find(tasks, other)
        },
{
    without_removes_only_the_id(tasks, id);
    if other != id && has_id(tasks, other) {
        lemma_found(tasks, other);
        let task = find(tasks, other).unwrap();
        let i = choose|i: int| 0 <= i < tasks.len() && tasks[i] == task;
        tasks.lemma_filter_contains(|t: TaskView| t.task_id != id, i);
        find_is_the_task_of_the_id(without(tasks, id), task);
    }
}

proof fn lemma_find_placed(tasks: Seq<TaskView>, task: TaskView, other: Seq<char>)
    requires
        unique_ids(tasks),
    ensures
        find(placed(tasks, task), other) == if other == task.task_id {
            Some(task)
        } else {
            find(tasks, other)
        },
{
    let all = placed(tasks, task);
    placing_adds_only_the_id(tasks, task);
    if other == task.task_id {
        let i = choose|i: int| 0 <= i < all.len() && #[trigger] all[i].task_id == other;
        assert(has_id(all, other));
        if i < tasks.len() {
            assert(tasks[i].task_id == other);
        }
        assert(all[i] == task);
        find_is_the_task_of_the_id(all, task);
    } else if has_id(tasks, other) {
        lemma_found(tasks, other);
        let found = find(tasks, other).unwrap();
        let i = choose|i: int| 0 <= i < tasks.len() && tasks[i] == found;
        assert(all[i] == found);
        find_is_the_task_of_the_id(all, found);
    }
}

/// The log after a record is appended.
proof fn lemma_find_after_append(log: Seq<TaskView>, record: TaskView, other: Seq<char>)
    ensures
        find(replay(log.push(record)), other) == if other != record.task_id {
            find(replay(log), other)
        } else if record.is_deleted() {
            None
        } else {
            Some(record)
        },
{
    assert(log.push(record).drop_last() =~= log);
    replay_has_unique_ids(log);
    without_removes_only_the_id(replay(log), record.task_id);
    lemma_find_without(replay(log), record.task_id, other);
    lemma_find_placed(replay(log), record, other);
}

/// A task that was saved is read back as it was saved, and saving it changes no other task.
pub proof fn saved_task_is_read_back(log: Seq<TaskView>, task: TaskView)
    requires
        !task.is_deleted(),
    ensures
        find(replay(log.push(task)), task.task_id) == Some(task),
        forall|other: Seq<char>|
            other != task.task_id ==> #[trigger] find(replay(log.push(task)), other) == find(
                replay(log),
                other,
            ),
{
    assert forall|other: Seq<char>| #[trigger]
        find(replay(log.push(task)), other) == if other != task.task_id {
            find(replay(log), other)
        } else {
            Some(task)
        } by {
        lemma_find_after_append(log, task, other);
    }
}

/// Reading the log gives, for each id, the last record appended for it, and nothing where that
/// record is a deletion.
pub proof fn reading_gives_the_latest_record(log: Seq<TaskView>, id: Seq<char>)
    ensures
        find(replay(log), id) == match latest(log, id) {
            Some(task) => if task.is_deleted() {
                None
            } else {
                Some(task)
            },
            None => None,
        },
    decreases log.len(),
{
    if log.len() > 0 {
        let init = log.drop_last();
        reading_gives_the_latest_record(init, id);
        lemma_find_after_append(init, log.last(), id);
        assert(init.push(log.last()) =~= log);
    }
}

/// Once the record that deletes a task is appended, the task is read no more, and every other
/// task is read as before.
pub proof fn deleted_task_is_gone(log: Seq<TaskView>, id: Seq<char>, now: Instant)
    ensures
        find(replay(after_deletion(log, id, now)), id) is None,
        forall|other: Seq<char>|
            other != id ==> #[trigger] find(replay(after_deletion(log, id, now)), other) == find(
                replay(log),
                other,
            ),
{
    reading_gives_the_latest_record(log, id);
    lemma_latest_has_the_id(log, id);
    match deletion(log, id, now) {
        Some(record) => {
            assert forall|other: Seq<char>| #[trigger]
                find(replay(log.push(record)), other) == if other != id {
                    find(replay(log), other)
                } else {
                    None
                } by {
                lemma_find_after_append(log, record, other);
            }
        },
        None => {},
    }
}

proof fn lemma_latest_has_the_id(log: Seq<TaskView>, id: Seq<char>)
    ensures
        latest(log, id) matches Some(task) ==> task.task_id == id,
    decreases log.len(),
{
    if log.len() > 0 && log.last().task_id != id {
        lemma_latest_has_the_id(log.drop_last(), id);
    }
}

proof fn lemma_without_keeps_live(tasks: Seq<TaskView>, id: Seq<char>)
    requires
        forall|i: int| 0 <= i < tasks.len() ==> !(#[trigger] tasks[i]).is_deleted(),
    ensures
        forall|i: int|
            0 <= i < without(tasks, id).len() ==> !(#[trigger] without(tasks, id)[i]).is_deleted(),
    decreases tasks.len(),
{
    reveal(Seq::filter);
    if tasks.len() > 0 {
        let init = tasks.drop_last();
        assert forall|i: int| 0 <= i < init.len() implies !(#[trigger] init[i]).is_deleted() by {
            assert(tasks[i] == init[i]);
        }
        lemma_without_keeps_live(init, id);
        let rest = without(tasks, id);
        assert forall|i: int| 0 <= i < rest.len() implies !(#[trigger] rest[i]).is_deleted() by {
            if i < without(init, id).len() {
                assert(rest[i] == without(init, id)[i]);
            } else {
                assert(rest[i] == tasks[tasks.len() - 1]);
            }
        }
    }
}

/// What is read from a log is not deleted.
pub proof fn replay_has_no_deletions(log: Seq<TaskView>)
    ensures
        forall|i: int| 0 <= i < replay(log).len() ==> !(#[trigger] replay(log)[i]).is_deleted(),
    decreases log.len(),
{
    if log.len() > 0 {
        let tasks = replay(log.drop_last());
        replay_has_no_deletions(log.drop_last());
        lemma_without_keeps_live(tasks, log.last().task_id);
        if !log.last().is_deleted() {
            let all = placed(tasks, log.last());
            assert forall|i: int| 0 <= i < all.len() implies !(#[trigger] all[i]).is_deleted() by {
                if i < tasks.len() {
                    assert(!tasks[i].is_deleted());
                }
            }
        }
    }
}

/// A log of live tasks with ids of their own reads as it stands.
proof fn lemma_plain_log(log: Seq<TaskView>)
    requires
        unique_ids(log),
        forall|i: int| 0 <= i < log.len() ==> !(#[trigger] log[i]).is_deleted(),
    ensures
        replay(log) == log,
    decreases log.len(),
{
    if log.len() > 0 {
        let init = log.drop_last();
        let record = log.last();
        assert(unique_ids(init));
        assert forall|i: int| 0 <= i < init.len() implies !(#[trigger] init[i]).is_deleted() by {
            assert(log[i] == init[i]);
        }
        lemma_plain_log(init);
        assert(!has_id(init, record.task_id)) by {
            if has_id(init, record.task_id) {
                let i = choose|i: int|
                    0 <= i < init.len() && #[trigger] init[i].task_id == record.task_id;
                assert(log[i].task_id != log[log.len() - 1].task_id);
            }
        }
        assert(log[log.len() - 1] == record);
        assert(init.push(record) =~= log);
    }
}

/// The compacted log reads as the log itself: the same tasks, in the same state and order. It holds
/// one record for each task and no deletions, and compacting it again changes nothing.
pub proof fn compaction_keeps_the_tasks(log: Seq<TaskView>)
    ensures
        replay(compacted(log)) == replay(log),
        compacted(compacted(log)) == compacted(log),
        unique_ids(compacted(log)),
        deletions(compacted(log)) == 0,
{
    replay_has_unique_ids(log);
    replay_has_no_deletions(log);
    lemma_plain_log(replay(log));
    lemma_no_deletions(replay(log));
}

proof fn lemma_no_deletions(tasks: Seq<TaskView>)
    requires
        forall|i: int| 0 <= i < tasks.len() ==> !(#[trigger] tasks[i]).is_deleted(),
    ensures
        deletions(tasks) == 0,
    decreases tasks.len(),
{
    reveal(Seq::filter);
    if tasks.len() > 0 {
        let init = tasks.drop_last();
        assert forall|i: int| 0 <= i < init.len() implies !(#[trigger] init[i]).is_deleted() by {
            assert(tasks[i] == init[i]);
        }
        lemma_no_deletions(init);
        assert(!tasks[tasks.len() - 1].is_deleted());
    }
}

/// Whatever is appended to it, the compacted log reads as the log itself would.
pub proof fn compaction_goes_unnoticed(log: Seq<TaskView>, records: Seq<TaskView>)
    ensures
        replay(compacted(log) + records) == replay(log + records),
    decreases records.len(),
{
    if records.len() > 0 {
        let fewer = records.drop_last();
        compaction_goes_unnoticed(log, fewer);
        assert((log + records).drop_last() =~= log + fewer);
        assert((compacted(log) + records).drop_last() =~= compacted(log) + fewer);
    } else {
        compaction_keeps_the_tasks(log);
        assert(log + records =~= log);
        assert(compacted(log) + records =~= compacted(log));
    }
}

/// Whether the keys of `tasks` go up.
pub open spec fn in_order(tasks: Seq<TaskView>, key: spec_fn(Seq<char>) -> int) -> bool {
    forall|i: int, j: int|
        0 <= i < j < tasks.len() ==> key(#[trigger] tasks[i].task_id) < key(
            #[trigger] tasks[j].task_id,
        )
}

/// Taking tasks out leaves the others in their order.
pub proof fn filtering_keeps_the_order(
    tasks: Seq<TaskView>,
    pred: spec_fn(TaskView) -> bool,
    key: spec_fn(Seq<char>) -> int,
)
    requires
        in_order(tasks, key),
    ensures
        in_order(tasks.filter(pred), key),
    decreases tasks.len(),
{
    reveal(Seq::filter);
    if tasks.len() > 0 {
        let init = tasks.drop_last();
        assert forall|i: int, j: int| 0 <= i < j < init.len() implies key(
            #[trigger] init[i].task_id,
        ) < key(#[trigger] init[j].task_id) by {
            assert(key(tasks[i].task_id) < key(tasks[j].task_id));
        }
        filtering_keeps_the_order(init, pred, key);
        let kept = init.filter(pred);
        let all = tasks.filter(pred);
        assert forall|i: int, j: int| 0 <= i < j < all.len() implies key(#[trigger] all[i].task_id)
            < key(#[trigger] all[j].task_id) by {
            assert(all[i] == kept[i]);
            if j < kept.len() {
                assert(all[j] == kept[j]);
            } else {
                assert(kept.contains(kept[i]));
                init.lemma_filter_contains_rev(pred, kept[i]);
                let k = choose|k: int| 0 <= k < init.len() && init[k] == kept[i];
                assert(key(tasks[k].task_id) < key(tasks[tasks.len() - 1].task_id));
            }
        }
    }
}

/// The place at which a task entered the log, as a number.
pub open spec fn entry(log: Seq<TaskView>) -> spec_fn(Seq<char>) -> int {
    |id: Seq<char>|
        match entered(log, id) {
            Some(place) => place,
            None => -1,
        }
}

/// The tasks of a log are read in the order in which they entered it, however often they were
/// saved since.
pub proof fn reading_keeps_the_order_of_entry(log: Seq<TaskView>)
    ensures
        in_order(replay(log), entry(log)),
        forall|id: Seq<char>| #[trigger] has_id(replay(log), id) == (entered(log, id) is Some),
        forall|id: Seq<char>|
            (#[trigger] entered(log, id)) is Some ==> 0 <= entered(log, id).unwrap() < log.len(),
    decreases log.len(),
{
    if log.len() > 0 {
        let init = log.drop_last();
        let record = log.last();
        let tasks = replay(init);
        reading_keeps_the_order_of_entry(init);
        assert forall|id: Seq<char>| (#[trigger] entered(log, id)) is Some implies 0 <= entered(
            log,
            id,
        ).unwrap() < log.len() by {
            assert(entered(init, id) is Some ==> 0 <= entered(init, id).unwrap() < init.len());
        }
        if record.is_deleted() {
            without_removes_only_the_id(tasks, record.task_id);
            filtering_keeps_the_order(tasks, |t: TaskView| t.task_id != record.task_id, entry(init));
            let rest = without(tasks, record.task_id);
            assert forall|i: int| 0 <= i < rest.len() implies entry(log)(#[trigger] rest[i].task_id)
                == entry(init)(rest[i].task_id) by {
                assert(has_id(rest, rest[i].task_id));
            }
            assert forall|id: Seq<char>| #[trigger] has_id(rest, id) == (entered(log, id)
                is Some) by {
                assert(has_id(tasks, id) == (entered(init, id) is Some));
            }
        } else {
            placing_adds_only_the_id(tasks, record);
            let all = placed(tasks, record);
            assert forall|i: int| 0 <= i < tasks.len() implies entry(log)(#[trigger] tasks[i].task_id)
                == entry(init)(tasks[i].task_id) && all[i].task_id == tasks[i].task_id by {
                assert(has_id(tasks, tasks[i].task_id));
            }
            assert forall|i: int, j: int| 0 <= i < j < all.len() implies entry(log)(
                #[trigger] all[i].task_id,
            ) < entry(log)(#[trigger] all[j].task_id) by {
                assert(all[i].task_id == tasks[i].task_id);
                assert(has_id(tasks, tasks[i].task_id));
                if j < tasks.len() {
                    assert(all[j].task_id == tasks[j].task_id);
                    assert(entry(init)(tasks[i].task_id) < entry(init)(tasks[j].task_id));
                } else {
                    assert(!has_id(tasks, record.task_id));
                    assert(entered(init, record.task_id) is None);
                    assert(entered(init, tasks[i].task_id) is Some);
                }
            }
            assert forall|id: Seq<char>| #[trigger] has_id(all, id) == (entered(log, id)
                is Some) by {
                assert(has_id(tasks, id) == (entered(init, id) is Some));
            }
        }
    }
}

} // verus!
