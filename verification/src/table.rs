//! Tasks by id, in the order in which they came.

use vstd::hash_map::StringHashMap;
use vstd::prelude::*;

use crate::task::RetryableTask;

verus! {

use crate::task::{views, TaskView};

/// `tasks` without those of id `id`.
pub open spec fn without(tasks: Seq<TaskView>, id: Seq<char>) -> Seq<TaskView> {
    tasks.filter(|t: TaskView| t.task_id != id)
}

/// `tasks` with `task`: in the place of the task of its id, or last where there is none.
pub open spec fn placed(tasks: Seq<TaskView>, task: TaskView) -> Seq<TaskView> {
    if has_id(tasks, task.task_id) {
        tasks.map_values(
            |t: TaskView|
                if t.task_id == task.task_id {
                    task
                } else {
                    t
                },
        )
    } else {
        tasks.push(task)
    }
}

/// Whether `tasks` holds a task of id `id`.
pub open spec fn has_id(tasks: Seq<TaskView>, id: Seq<char>) -> bool {
    exists|i: int| 0 <= i < tasks.len() && #[trigger] tasks[i].task_id == id
}

/// Whether no two of `tasks` have one id.
pub open spec fn unique_ids(tasks: Seq<TaskView>) -> bool {
    forall|i: int, j: int|
        0 <= i < j < tasks.len() ==> #[trigger] tasks[i].task_id != #[trigger] tasks[j].task_id
}

/// Taking an id out leaves exactly the tasks of other ids, in their order.
pub proof fn without_removes_only_the_id(tasks: Seq<TaskView>, id: Seq<char>)
    ensures
        !has_id(without(tasks, id), id),
        without(tasks, id).len() <= tasks.len(),
        forall|other: Seq<char>|
            other != id ==> #[trigger] has_id(without(tasks, id), other) == has_id(tasks, other),
        unique_ids(tasks) ==> unique_ids(without(tasks, id)),
        !has_id(tasks, id) ==> without(tasks, id) == tasks,
    decreases tasks.len(),
{
    reveal(Seq::filter);
    if tasks.len() > 0 {
        let init = tasks.drop_last();
        let last = tasks.last();
        without_removes_only_the_id(init, id);
        assert forall|other: Seq<char>| other != id implies #[trigger] has_id(
            without(tasks, id),
            other,
        ) == has_id(tasks, other) by {
            assert(has_id(without(init, id), other) == has_id(init, other));
            if has_id(tasks, other) {
                let i = choose|i: int| 0 <= i < tasks.len() && #[trigger] tasks[i].task_id == other;
                if i < init.len() {
                    assert(init[i].task_id == other);
                    let k = choose|k: int|
                        0 <= k < without(init, id).len() && #[trigger] without(init, id)[k].task_id
                            == other;
                    assert(without(tasks, id)[k].task_id == other);
                } else {
                    assert(without(tasks, id).last().task_id == other);
                }
            }
            if has_id(without(tasks, id), other) {
                let k = choose|k: int|
                    0 <= k < without(tasks, id).len() && #[trigger] without(tasks, id)[k].task_id
                        == other;
                if k < without(init, id).len() {
                    assert(without(init, id)[k].task_id == other);
                    let i = choose|i: int|
                        0 <= i < init.len() && #[trigger] init[i].task_id == other;
                    assert(tasks[i].task_id == other);
                } else {
                    assert(tasks[tasks.len() - 1].task_id == other);
                }
            }
        }
        assert(!has_id(without(tasks, id), id)) by {
            if has_id(without(tasks, id), id) {
                let k = choose|k: int|
                    0 <= k < without(tasks, id).len() && #[trigger] without(tasks, id)[k].task_id
                        == id;
                if k < without(init, id).len() {
                    assert(without(init, id)[k].task_id == id);
                }
            }
        }
        if unique_ids(tasks) {
            assert(unique_ids(init));
            assert(unique_ids(without(tasks, id))) by {
                if last.task_id != id {
                    assert(!has_id(init, last.task_id)) by {
                        if has_id(init, last.task_id) {
                            let i = choose|i: int|
                                0 <= i < init.len() && #[trigger] init[i].task_id == last.task_id;
                            assert(tasks[i].task_id != tasks[tasks.len() - 1].task_id);
                        }
                    }
                    assert(!has_id(without(init, id), last.task_id));
                    let w = without(tasks, id);
                    assert(w =~= without(init, id).push(last));
                    assert forall|i: int, j: int| 0 <= i < j < w.len() implies #[trigger] w[i].task_id
                        != #[trigger] w[j].task_id by {
                        assert(without(init, id)[i].task_id == w[i].task_id);
                        if j < w.len() - 1 {
                            assert(without(init, id)[j].task_id == w[j].task_id);
                        }
                    }
                }
            }
        }
        if !has_id(tasks, id) {
            assert(!has_id(init, id)) by {
                if has_id(init, id) {
                    let i = choose|i: int| 0 <= i < init.len() && #[trigger] init[i].task_id == id;
                    assert(tasks[i].task_id == id);
                }
            }
            assert(tasks[tasks.len() - 1].task_id != id);
            assert(without(tasks, id) =~= tasks);
        }
    }
}

/// Placing a task adds its id, if it is new, and no other.
pub proof fn placing_adds_only_the_id(tasks: Seq<TaskView>, task: TaskView)
    ensures
        forall|other: Seq<char>| #[trigger]
            has_id(placed(tasks, task), other) == (other == task.task_id || has_id(tasks, other)),
        unique_ids(tasks) ==> unique_ids(placed(tasks, task)),
{
    let all = placed(tasks, task);
    assert forall|other: Seq<char>| #[trigger]
        has_id(all, other) == (other == task.task_id || has_id(tasks, other)) by {
        if has_id(all, other) {
            let i = choose|i: int| 0 <= i < all.len() && #[trigger] all[i].task_id == other;
            if i < tasks.len() {
                assert(tasks[i].task_id == all[i].task_id);
            }
        }
        if has_id(tasks, other) {
            let i = choose|i: int| 0 <= i < tasks.len() && #[trigger] tasks[i].task_id == other;
            assert(all[i].task_id == other);
        }
        if other == task.task_id && !has_id(tasks, other) {
            assert(all[tasks.len() as int].task_id == other);
        }
    }
    if unique_ids(tasks) {
        assert forall|i: int, j: int| 0 <= i < j < all.len() implies #[trigger] all[i].task_id
            != #[trigger] all[j].task_id by {
            assert(tasks[i].task_id == all[i].task_id);
            if j < tasks.len() {
                assert(tasks[j].task_id == all[j].task_id);
            }
        }
    }
}

/// The filled slots, in order.
spec fn filled(slots: Seq<Option<RetryableTask>>) -> Seq<TaskView>
    decreases slots.len(),
{
    if slots.len() == 0 {
        Seq::empty()
    } else {
        match slots.last() {
            Some(task) => filled(slots.drop_last()).push(task@),
            None => filled(slots.drop_last()),
        }
    }
}

/// What is filled comes from a slot.
proof fn lemma_filled_from(slots: Seq<Option<RetryableTask>>, k: int) -> (j: int)
    requires
        0 <= k < filled(slots).len(),
    ensures
        0 <= j < slots.len(),
        slots[j] matches Some(t) && t@ == filled(slots)[k],
    decreases slots.len(),
{
    let init = slots.drop_last();
    if k < filled(init).len() {
        let j = lemma_filled_from(init, k);
        assert(init[j] == slots[j]);
        j
    } else {
        slots.len() - 1
    }
}

/// A filled slot is among what is filled.
proof fn lemma_slot_is_filled(slots: Seq<Option<RetryableTask>>, j: int) -> (k: int)
    requires
        0 <= j < slots.len(),
        slots[j] is Some,
    ensures
        0 <= k < filled(slots).len(),
        filled(slots)[k] == slots[j].unwrap()@,
    decreases slots.len(),
{
    let init = slots.drop_last();
    if j < init.len() {
        lemma_slot_is_filled(init, j)
    } else {
        filled(init).len() as int
    }
}

/// Whether each filled slot has an id of its own.
spec fn slots_unique(slots: Seq<Option<RetryableTask>>) -> bool {
    forall|i: int, j: int|
        0 <= i < j < slots.len() && #[trigger] slots[i] is Some && #[trigger] slots[j] is Some
            ==> slots[i].unwrap()@.task_id != slots[j].unwrap()@.task_id
}

proof fn lemma_filled_unique(slots: Seq<Option<RetryableTask>>)
    requires
        slots_unique(slots),
    ensures
        unique_ids(filled(slots)),
    decreases slots.len(),
{
    if slots.len() > 0 {
        let init = slots.drop_last();
        assert(slots_unique(init)) by {
            assert forall|i: int, j: int|
                0 <= i < j < init.len() && #[trigger] init[i] is Some && #[trigger] init[j] is Some
                implies init[i].unwrap()@.task_id != init[j].unwrap()@.task_id by {
                assert(slots[i] is Some && slots[j] is Some);
            }
        }
        lemma_filled_unique(init);
        if slots.last() is Some {
            let all = filled(slots);
            assert forall|i: int, j: int| 0 <= i < j < all.len() implies #[trigger] all[i].task_id
                != #[trigger] all[j].task_id by {
                if j < all.len() - 1 {
                    assert(filled(init)[i].task_id != filled(init)[j].task_id);
                } else {
                    let s = lemma_filled_from(init, i);
                    assert(slots[s] is Some && slots[slots.len() - 1] is Some);
                }
            }
        }
    }
}

/// Emptying the only slot of an id takes that id out.
proof fn lemma_empty_slot(slots: Seq<Option<RetryableTask>>, j: int)
    requires
        slots_unique(slots),
        0 <= j < slots.len(),
        slots[j] is Some,
    ensures
        filled(slots.update(j, None)) == without(filled(slots), slots[j].unwrap()@.task_id),
    decreases slots.len(),
{
    reveal(Seq::filter);
    let id = slots[j].unwrap()@.task_id;
    let init = slots.drop_last();
    let updated = slots.update(j, None);
    assert(slots_unique(init)) by {
        assert forall|a: int, b: int|
            0 <= a < b < init.len() && #[trigger] init[a] is Some && #[trigger] init[b] is Some
            implies init[a].unwrap()@.task_id != init[b].unwrap()@.task_id by {
            assert(slots[a] is Some && slots[b] is Some);
        }
    }
    if j < slots.len() - 1 {
        assert(init[j] == slots[j]);
        lemma_empty_slot(init, j);
        assert(updated.drop_last() =~= init.update(j, None));
        assert(updated.last() == slots.last());
        if slots.last() is Some {
            assert(slots[j] is Some && slots[slots.len() - 1] is Some);
            let last = slots.last().unwrap()@;
            assert(last.task_id != id);
            assert(filled(slots).drop_last() =~= filled(init));
            assert(filled(updated) =~= without(filled(slots), id));
        }
    } else {
        assert(updated.drop_last() =~= init);
        assert(!has_id(filled(init), id)) by {
            if has_id(filled(init), id) {
                let k = choose|k: int|
                    0 <= k < filled(init).len() && #[trigger] filled(init)[k].task_id == id;
                let s = lemma_filled_from(init, k);
                assert(slots[s] is Some && slots[j] is Some);
            }
        }
        without_removes_only_the_id(filled(init), id);
        assert(filled(slots).drop_last() =~= filled(init));
    }
}

/// Filling the slot of an id again places the task.
proof fn lemma_fill_slot(slots: Seq<Option<RetryableTask>>, j: int, task: RetryableTask)
    requires
        slots_unique(slots),
        0 <= j < slots.len(),
        slots[j] matches Some(t) && t@.task_id == task@.task_id,
    ensures
        filled(slots.update(j, Some(task))) == filled(slots).map_values(
            |t: TaskView|
                if t.task_id == task@.task_id {
                    task@
                } else {
                    t
                },
        ),
    decreases slots.len(),
{
    let renew = |t: TaskView|
        if t.task_id == task@.task_id {
            task@
        } else {
            t
        };
    let init = slots.drop_last();
    let updated = slots.update(j, Some(task));
    assert(slots_unique(init)) by {
        assert forall|a: int, b: int|
            0 <= a < b < init.len() && #[trigger] init[a] is Some && #[trigger] init[b] is Some
            implies init[a].unwrap()@.task_id != init[b].unwrap()@.task_id by {
            assert(slots[a] is Some && slots[b] is Some);
        }
    }
    if j < slots.len() - 1 {
        assert(init[j] == slots[j]);
        lemma_fill_slot(init, j, task);
        assert(updated.drop_last() =~= init.update(j, Some(task)));
        assert(updated.last() == slots.last());
        if slots.last() is Some {
            assert(slots[j] is Some && slots[slots.len() - 1] is Some);
        }
        assert(filled(updated) =~= filled(slots).map_values(renew));
    } else {
        assert(updated.drop_last() =~= init);
        assert forall|k: int| 0 <= k < filled(init).len() implies (
        #[trigger] filled(init)[k]).task_id != task@.task_id by {
            let s = lemma_filled_from(init, k);
            assert(slots[s] is Some && slots[j] is Some);
        }
        assert(filled(updated) =~= filled(slots).map_values(renew));
    }
}

/// Reverses a vector.
pub(crate) fn reversed<T>(mut items: Vec<T>) -> (result: Vec<T>)
    ensures
        result@ == items@.reverse(),
{
    let mut result: Vec<T> = Vec::new();
    let ghost all = items@;
    while items.len() > 0
        invariant
            all == items@ + result@.reverse(),
        decreases items.len(),
    {
        let ghost before = items@;
        let ghost done = result@;
        match items.pop() {
            Some(item) => {
                result.push(item);
                assert(result@.reverse() =~= seq![item] + done.reverse());
                assert(before =~= items@ + seq![item]);
                assert(all =~= items@ + result@.reverse());
            },
            None => {},
        }
    }
    assert(result@ =~= all.reverse());
    result
}

/// A map from ids to tasks that remembers the order in which tasks were put.
pub struct TaskTable {
    index: StringHashMap<usize>,
    slots: Vec<Option<RetryableTask>>,
}

impl View for TaskTable {
    type V = Seq<TaskView>;

    closed spec fn view(&self) -> Seq<TaskView> {
        filled(self.slots@)
    }
}

impl TaskTable {
    /// The index names exactly the filled slots, each under the id of its task.
    pub closed spec fn wf(&self) -> bool {
        &&& forall|id: Seq<char>| #[trigger]
            self.index@.contains_key(id) ==> {
                &&& self.index@[id] < self.slots@.len()
                &&& self.slots@[self.index@[id] as int] is Some
                &&& self.slots@[self.index@[id] as int].unwrap()@.task_id == id
            }
        &&& forall|j: int|
            0 <= j < self.slots@.len() && #[trigger] self.slots@[j] is Some ==> {
                &&& self.index@.contains_key(self.slots@[j].unwrap()@.task_id)
                &&& self.index@[self.slots@[j].unwrap()@.task_id] == j
            }
    }

    proof fn lemma_unique(&self)
        requires
            self.wf(),
        ensures
            slots_unique(self.slots@),
            unique_ids(self@),
    {
        lemma_filled_unique(self.slots@);
    }

    proof fn lemma_index(&self, id: Seq<char>)
        requires
            self.wf(),
        ensures
            self.index@.contains_key(id) == has_id(self@, id),
    {
        if self.index@.contains_key(id) {
            let k = lemma_slot_is_filled(self.slots@, self.index@[id] as int);
            assert(self@[k].task_id == id);
        }
        if has_id(self@, id) {
            let k = choose|k: int| 0 <= k < self@.len() && #[trigger] self@[k].task_id == id;
            let j = lemma_filled_from(self.slots@, k);
        }
    }

    /// An empty table.
    pub fn new() -> (table: TaskTable)
        ensures
            table.wf(),
            table@ == Seq::<TaskView>::empty(),
    {
        TaskTable { index: StringHashMap::new(), slots: Vec::new() }
    }

    /// Takes the task of id `id` out.
    pub fn remove(&mut self, id: &str)
        requires
            old(self).wf(),
        ensures
            final(self).wf(),
            final(self)@ == without(old(self)@, id@),
    {
        proof {
            self.lemma_unique();
            self.lemma_index(id@);
            without_removes_only_the_id(self@, id@);
        }
        let slot: Option<usize> = match self.index.get(id) {
            Some(slot) => Some(*slot),
            None => None,
        };
        match slot {
            Some(slot) => {
                proof {
                    lemma_empty_slot(self.slots@, slot as int);
                }
                self.slots.set(slot, None);
                self.index.remove(id);
            },
            None => {},
        }
    }

    /// Puts a task in the place of the task of its id, or last where there is none.
    pub fn put(&mut self, task: RetryableTask)
        requires
            old(self).wf(),
        ensures
            final(self).wf(),
            final(self)@ == placed(old(self)@, task@),
    {
        let id = task.task_id.clone();
        proof {
            self.lemma_unique();
            self.lemma_index(id@);
        }
        let slot: Option<usize> = match self.index.get(id.as_str()) {
            Some(slot) => Some(*slot),
            None => None,
        };
        match slot {
            Some(slot) => {
                proof {
                    lemma_fill_slot(self.slots@, slot as int, task);
                }
                self.slots.set(slot, Some(task));
            },
            None => {
                let ghost rest = self.slots@;
                let slot: usize = self.slots.len();
                self.slots.push(Some(task));
                self.index.insert(id, slot);
                assert(self.slots@.drop_last() =~= rest);
            },
        }
    }

    /// The tasks, in order.
    pub fn into_tasks(self) -> (tasks: Vec<RetryableTask>)
        requires
            self.wf(),
        ensures
            views(tasks@) == self@,
            unique_ids(views(tasks@)),
    {
        proof {
            self.lemma_unique();
        }
        let mut slots = self.slots;
        let mut backwards: Vec<RetryableTask> = Vec::new();
        while slots.len() > 0
            invariant
                self@ == filled(slots@) + views(backwards@).reverse(),
            decreases slots.len(),
        {
            let ghost before = slots@;
            let ghost done = views(backwards@);
            match slots.pop() {
                Some(slot) => {
                    assert(before.drop_last() =~= slots@);
                    match slot {
                        Some(task) => {
                            backwards.push(task);
                            assert(views(backwards@) =~= done.push(task@));
                            assert(views(backwards@).reverse() =~= seq![task@] + done.reverse());
                            assert(self@ =~= filled(slots@) + views(backwards@).reverse());
                        },
                        None => {},
                    }
                },
                None => {},
            }
        }
        let ghost all = views(backwards@);
        assert(self@ =~= all.reverse());
        let tasks = reversed(backwards);
        assert(views(tasks@) =~= all.reverse());
        tasks
    }
}

} // verus!
