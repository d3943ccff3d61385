//! What holds of the log, said of the places of its records.

use vstd::prelude::*;

verus! {

use crate::file_store::{
    after_deletion, compacted, deletion, deletions, entered, entry, find,
    find_is_the_task_of_the_id, latest, reading_gives_the_latest_record,
    reading_keeps_the_order_of_entry, replay, replay_has_unique_ids, StoreView,
};
use crate::table::{has_id, placed, unique_ids, without};
use crate::task::TaskView;
use crate::timestamp::Instant;

/// The latest record of an id is the one behind which no other of that id follows; there is none
/// exactly if no record has the id.
pub proof fn latest_record_is_the_last(log: Seq<TaskView>, id: Seq<char>)
    ensures
        latest(log, id) is None <==> forall|j: int|
            0 <= j < log.len() ==> (#[trigger] log[j]).task_id != id,
        latest(log, id) matches Some(record) ==> exists|k: int|
            {
                &&& 0 <= k < log.len()
                &&& #[trigger] log[k] == record
                &&& record.task_id == id
                &&& forall|j: int| k < j < log.len() ==> (#[trigger] log[j]).task_id != id
            },
    decreases log.len(),
{
    if log.len() > 0 {
        let init = log.drop_last();
        latest_record_is_the_last(init, id);
        if log.last().task_id == id {
            assert(log[log.len() - 1] == log.last());
        } else {
            if latest(init, id) is Some {
                let record = latest(init, id).unwrap();
                let k = choose|k: int|
                    {
                        &&& 0 <= k < init.len()
                        &&& #[trigger] init[k] == record
                        &&& record.task_id == id
                        &&& forall|j: int|
                            k < j < init.len() ==> (#[trigger] init[j]).task_id != id
                    };
                assert(log[k] == record);
                assert forall|j: int| k < j < log.len() implies (#[trigger] log[j]).task_id
                    != id by {
                    if j < init.len() {
                        assert(init[j] == log[j]);
                    }
                }
                assert(log[k].task_id == id);
            } else {
                assert forall|j: int| 0 <= j < log.len() implies (#[trigger] log[j]).task_id
                    != id by {
                    if j < init.len() {
                        assert(init[j] == log[j]);
                    }
                }
            }
        }
    }
}

/// What is read from a log is, for each id, its last record, unless that is a deletion: a task is
/// read exactly if it stands in the log, is not deleted, and no record of its id follows it.
pub proof fn last_records_are_read(log: Seq<TaskView>, task: TaskView)
    ensures
        replay(log).contains(task) <==> task.deleted_at is None && exists|k: int|
            {
                &&& 0 <= k < log.len()
                &&& #[trigger] log[k] == task
                &&& forall|j: int| k < j < log.len() ==> (#[trigger] log[j]).task_id != task.task_id
            },
        forall|i: int, j: int|
            0 <= i < j < replay(log).len() ==> (#[trigger] replay(log)[i]).task_id != (
            #[trigger] replay(log)[j]).task_id,
{
    let id = task.task_id;
    latest_record_is_the_last(log, id);
    reading_gives_the_latest_record(log, id);
    replay_has_unique_ids(log);
    if replay(log).contains(task) {
        find_is_the_task_of_the_id(replay(log), task);
    }
    if task.deleted_at is None && exists|k: int|
        {
            &&& 0 <= k < log.len()
            &&& #[trigger] log[k] == task
            &&& forall|j: int| k < j < log.len() ==> (#[trigger] log[j]).task_id != id
        } {
        let k = choose|k: int|
            {
                &&& 0 <= k < log.len()
                &&& #[trigger] log[k] == task
                &&& forall|j: int| k < j < log.len() ==> (#[trigger] log[j]).task_id != id
            };
        assert(log[k].task_id == id);
        let record = latest(log, id).unwrap();
        let last = choose|l: int|
            {
                &&& 0 <= l < log.len()
                &&& #[trigger] log[l] == record
                &&& record.task_id == id
                &&& forall|j: int| l < j < log.len() ==> (#[trigger] log[j]).task_id != id
            };
        if k < last {
            assert(log[last].task_id != id);
        } else if last < k {
            assert(log[k].task_id != id);
        }
        assert(record == task);
        assert(find(replay(log), id) == Some(task));
        assert(has_id(replay(log), id));
        let i = choose|i: int|
            0 <= i < replay(log).len() && #[trigger] replay(log)[i].task_id == id;
        assert(replay(log)[i] == task);
    }
}

/// A task entered the log at its first record since it was last deleted: from there on it is not
/// deleted, and each earlier record of its id is followed by a deletion before that place.
pub proof fn entry_is_the_first_record_since_deletion(log: Seq<TaskView>, id: Seq<char>)
    ensures
        entered(log, id) matches Some(place) ==> {
            &&& 0 <= place < log.len()
            &&& log[place].task_id == id
            &&& forall|j: int|
                place <= j < log.len() && (#[trigger] log[j]).task_id == id ==> log[j].deleted_at
                    is None
            &&& forall|k: int|
                0 <= k < place && (#[trigger] log[k]).task_id == id ==> exists|d: int|
                    k <= d < place && (#[trigger] log[d]).task_id == id && log[d].deleted_at is Some
        },
        entered(log, id) is None ==> forall|k: int|
            0 <= k < log.len() && (#[trigger] log[k]).task_id == id ==> exists|d: int|
                k <= d < log.len() && (#[trigger] log[d]).task_id == id && log[d].deleted_at is Some,
    decreases log.len(),
{
    if log.len() > 0 {
        let init = log.drop_last();
        let n = log.len() - 1;
        entry_is_the_first_record_since_deletion(init, id);
        assert forall|j: int| 0 <= j < n implies #[trigger] log[j] == init[j] by {}
        if entered(init, id) is None {
            assert forall|k: int| 0 <= k < n && (#[trigger] log[k]).task_id == id implies exists|
                d: int,
            |
                k <= d < n && (#[trigger] log[d]).task_id == id && log[d].deleted_at is Some by {
                assert(init[k].task_id == id);
                let d = choose|d: int|
                    k <= d < init.len() && (#[trigger] init[d]).task_id == id && init[d].deleted_at
                        is Some;
                assert(log[d] == init[d]);
            }
            if log[n].task_id == id && log[n].deleted_at is Some {
                assert forall|k: int|
                    0 <= k < log.len() && (#[trigger] log[k]).task_id == id implies exists|d: int|
                    k <= d < log.len() && (#[trigger] log[d]).task_id == id && log[d].deleted_at
                        is Some by {
                    assert(log[n].deleted_at is Some);
                }
            } else if log[n].task_id != id {
                assert forall|k: int|
                    0 <= k < log.len() && (#[trigger] log[k]).task_id == id implies exists|d: int|
                    k <= d < log.len() && (#[trigger] log[d]).task_id == id && log[d].deleted_at
                        is Some by {
                    let d = choose|d: int|
                        k <= d < n && (#[trigger] log[d]).task_id == id && log[d].deleted_at
                            is Some;
                    assert(log[d].deleted_at is Some);
                }
            }
        } else if log[n].task_id == id && log[n].deleted_at is Some {
            assert forall|k: int|
                0 <= k < log.len() && (#[trigger] log[k]).task_id == id implies exists|d: int|
                k <= d < log.len() && (#[trigger] log[d]).task_id == id && log[d].deleted_at
                    is Some by {
                assert(log[n].deleted_at is Some);
            }
        } else {
            let place = entered(init, id).unwrap();
            assert(log[place] == init[place]);
            assert forall|k: int| 0 <= k < place && (#[trigger] log[k]).task_id == id implies exists|
                d: int,
            |
                k <= d < place && (#[trigger] log[d]).task_id == id && log[d].deleted_at is Some by {
                assert(init[k].task_id == id);
                let d = choose|d: int|
                    k <= d < place && (#[trigger] init[d]).task_id == id && init[d].deleted_at
                        is Some;
                assert(log[d] == init[d]);
            }
        }
    }
}

/// Tasks are read in the order in which they entered the log.
pub proof fn tasks_are_read_in_order_of_entry(log: Seq<TaskView>, i: int, j: int)
    requires
        0 <= i < j < replay(log).len(),
    ensures
        entered(log, replay(log)[i].task_id) is Some,
        entered(log, replay(log)[j].task_id) is Some,
        entered(log, replay(log)[i].task_id).unwrap() < entered(
            log,
            replay(log)[j].task_id,
        ).unwrap(),
{
    reading_keeps_the_order_of_entry(log);
    assert(has_id(replay(log), replay(log)[i].task_id));
    assert(has_id(replay(log), replay(log)[j].task_id));
    assert(entry(log)(replay(log)[i].task_id) < entry(log)(replay(log)[j].task_id));
}

/// A task is found by its id exactly if it is there.
pub proof fn task_is_found_by_its_id(tasks: Seq<TaskView>, id: Seq<char>)
    ensures
        find(tasks, id) is None <==> forall|i: int|
            0 <= i < tasks.len() ==> (#[trigger] tasks[i]).task_id != id,
        find(tasks, id) matches Some(task) ==> task.task_id == id && tasks.contains(task),
        has_id(tasks, id) <==> exists|i: int|
            0 <= i < tasks.len() && (#[trigger] tasks[i]).task_id == id,
        unique_ids(tasks) <==> forall|i: int, j: int|
            0 <= i < j < tasks.len() ==> (#[trigger] tasks[i]).task_id != (
            #[trigger] tasks[j]).task_id,
{
    if has_id(tasks, id) {
        let i = choose|i: int| 0 <= i < tasks.len() && #[trigger] tasks[i].task_id == id;
        assert(tasks[i] == find(tasks, id).unwrap());
    }
}

/// Placing a task changes no task but that of its id, and no place; a new task comes last.
pub proof fn placing_moves_nothing(tasks: Seq<TaskView>, task: TaskView, i: int)
    requires
        0 <= i < tasks.len(),
    ensures
        placed(tasks, task)[i] == if tasks[i].task_id == task.task_id {
            task
        } else {
            tasks[i]
        },
        placed(tasks, task).len() == tasks.len() || placed(tasks, task).len() == tasks.len() + 1
            && placed(tasks, task).last() == task,
        without(tasks, task.task_id).len() <= tasks.len(),
{
    if !has_id(tasks, task.task_id) {
        assert(tasks[i].task_id != task.task_id);
    }
    tasks.lemma_filter_len(|t: TaskView| t.task_id != task.task_id);
}

/// A task is deleted by a record that is its latest one with the time of the deletion; one that is
/// unknown or deleted already is not deleted again.
pub proof fn deletion_is_of_the_latest_record(log: Seq<TaskView>, id: Seq<char>, now: Instant)
    ensures
        latest(log, id) is None ==> deletion(log, id, now) is None,
        latest(log, id) matches Some(task) ==> {
            &&& task.deleted_at is Some ==> deletion(log, id, now) is None
            &&& task.deleted_at is None ==> deletion(log, id, now) == Some(
                TaskView { deleted_at: Some(now), updated_at: now, ..task },
            )
        },
        deletion(log, id, now) is None ==> after_deletion(log, id, now) == log,
        deletion(log, id, now) matches Some(record) ==> after_deletion(log, id, now) == log.push(
            record,
        ),
{
}

/// What compaction writes holds every task that the log holds, as the log holds it, and no more.
pub proof fn compaction_writes_what_is_read(log: Seq<TaskView>, task: TaskView)
    ensures
        compacted(log).contains(task) <==> task.deleted_at is None && exists|k: int|
            {
                &&& 0 <= k < log.len()
                &&& #[trigger] log[k] == task
                &&& forall|j: int| k < j < log.len() ==> (#[trigger] log[j]).task_id != task.task_id
            },
        compacted(log) == replay(log),
{
    last_records_are_read(log, task);
}

/// The log is compacted exactly once it is larger than twenty mebibytes, more than half as many
/// deletions as other records are counted, or ten thousand records were appended.
pub proof fn compaction_has_three_reasons(store: StoreView, file_len: Option<u64>)
    ensures
        store.wants_compaction(file_len) <==> {
            ||| file_len is Some && file_len.unwrap() > 20 * 1024 * 1024
            ||| store.total > 0 && 2 * store.deleted > store.total
            ||| store.appended >= 10_000
        },
        store.can_count(true) <==> store.appended < usize::MAX && store.deleted < usize::MAX,
        store.can_count(false) <==> store.appended < usize::MAX && store.total < usize::MAX,
{
}

/// The deletions of a log are counted record by record.
pub proof fn deletions_are_counted_record_by_record(log: Seq<TaskView>, record: TaskView)
    ensures
        deletions(Seq::empty()) == 0,
        record.deleted_at is Some ==> deletions(log.push(record)) == deletions(log) + 1,
        record.deleted_at is None ==> deletions(log.push(record)) == deletions(log),
{
    reveal(Seq::filter);
    assert(log.push(record).drop_last() =~= log);
}

} // verus!
