//! The task list as a mathematical value: what adding, deleting and
//! completing do to it, and the laws that they obey.

use crate::task::TaskView;
use vstd::prelude::*;

verus! {

/// The highest id among `tasks`; none where there is no task.
pub open spec fn max_id(tasks: Seq<TaskView>) -> Option<u32>
    decreases tasks.len(),
{
    if tasks.len() == 0 {
        None
    } else {
        let before = max_id(tasks.drop_last());
        if before is Some && before->0 >= tasks.last().id {
            before
        } else {
            Some(tasks.last().id)
        }
    }
}

/// Whether the task at `i` is the first of `tasks` with the id `id`.
pub open spec fn is_first_with(tasks: Seq<TaskView>, id: u32, i: int) -> bool {
    &&& 0 <= i < tasks.len()
    &&& tasks[i].id == id
    &&& forall|j: int| 0 <= j < i ==> (#[trigger] tasks[j]).id != id
}

/// The place of the first task with the id `id`, if any task has it.
pub open spec fn index_of(tasks: Seq<TaskView>, id: u32) -> Option<int> {
    if exists|i: int| is_first_with(tasks, id, i) {
        Some(choose|i: int| is_first_with(tasks, id, i))
    } else {
        None
    }
}

/// The test that keeps every task but those with the id `id`.
pub open spec fn other_than(id: u32) -> spec_fn(TaskView) -> bool {
    |task: TaskView| task.id != id
}

/// A task list as a mathematical value: the tasks in order, and the highest
/// id that the list has held so far, which outlives the task that bore it.
pub struct ListModel {
    pub tasks: Seq<TaskView>,
    pub last_id: Option<u32>,
}

impl ListModel {
    /// No id in the list is above the highest id held so far.
    pub open spec fn wf(self) -> bool {
        forall|i: int|
            0 <= i < self.tasks.len() ==> self.last_id is Some && (#[trigger] self.tasks[i]).id
                <= self.last_id->0
    }

    /// Whether no two tasks of the list share an id.
    pub open spec fn ids_unique(self) -> bool {
        forall|i: int, j: int|
            0 <= i < j < self.tasks.len() ==> (#[trigger] self.tasks[i]).id != (
            #[trigger] self.tasks[j]).id
    }

    /// Whether some task of the list has the id `id`.
    pub open spec fn holds(self, id: u32) -> bool {
        exists|i: int| 0 <= i < self.tasks.len() && (#[trigger] self.tasks[i]).id == id
    }

    /// The list without tasks, which has held no id yet.
    pub open spec fn empty() -> ListModel {
        ListModel { tasks: Seq::empty(), last_id: None }
    }

    /// The list as it is taken up from stored tasks: the highest id held so
    /// far is the highest one stored.
    pub open spec fn load(tasks: Seq<TaskView>) -> ListModel {
        ListModel { tasks, last_id: max_id(tasks) }
    }

    /// The id that the next new task gets: one above the highest id held so
    /// far, and 0 where the list has held none.
    pub open spec fn next_id(self) -> nat {
        match self.last_id {
            Some(last) => (last + 1) as nat,
            None => 0,
        }
    }

    /// Whether an id is left for a new task.
    pub open spec fn can_add(self) -> bool {
        self.next_id() <= u32::MAX
    }

    /// The list after a new task with the given texts is added at its end.
    pub open spec fn add(self, motacongviec: Seq<char>, nguoitao: Seq<char>) -> ListModel {
        let id = self.next_id() as u32;
        ListModel {
            tasks: self.tasks.push(TaskView::fresh(id, motacongviec, nguoitao)),
            last_id: Some(id),
        }
    }

    /// The first task with the id `id`, if any task has it.
    pub open spec fn find(self, id: u32) -> Option<TaskView> {
        match index_of(self.tasks, id) {
            Some(i) => Some(self.tasks[i]),
            None => None,
        }
    }

    /// The list after every task with the id `id` is taken out.
    pub open spec fn delete(self, id: u32) -> ListModel {
        ListModel { tasks: self.tasks.filter(other_than(id)), last_id: self.last_id }
    }

    /// The list after the first task with the id `id` is marked done; the
    /// list itself where no task has that id.
    pub open spec fn complete(self, id: u32) -> ListModel {
        match index_of(self.tasks, id) {
            Some(i) => ListModel {
                tasks: self.tasks.update(i, self.tasks[i].completed()),
                last_id: self.last_id,
            },
            None => self,
        }
    }
}

/// The highest id is none exactly for the empty list; otherwise some task
/// bears it and no task has a higher one.
pub proof fn lemma_max_id(tasks: Seq<TaskView>)
    ensures
        max_id(tasks) is None <==> tasks.len() == 0,
        max_id(tasks) matches Some(max) ==> {
            &&& exists|i: int| 0 <= i < tasks.len() && (#[trigger] tasks[i]).id == max
            &&& forall|i: int| 0 <= i < tasks.len() ==> (#[trigger] tasks[i]).id <= max
        },
    decreases tasks.len(),
{
    if tasks.len() > 0 {
        let before = tasks.drop_last();
        lemma_max_id(before);
        let last = tasks.len() - 1;
        if max_id(before) is Some && max_id(before)->0 >= tasks.last().id {
            let max = max_id(before)->0;
            let i = choose|i: int| 0 <= i < before.len() && (#[trigger] before[i]).id == max;
            assert(tasks[i].id == max);
            assert forall|k: int| 0 <= k < tasks.len() implies (#[trigger] tasks[k]).id <= max by {
                if k < last {
                    assert(before[k].id <= max);
                }
            }
        } else {
            let max = tasks.last().id;
            assert(tasks[last].id == max);
            assert forall|k: int| 0 <= k < tasks.len() implies (#[trigger] tasks[k]).id <= max by {
                if k < last {
                    assert(before[k].id <= max_id(before)->0);
                }
            }
        }
    }
}

/// The place that `index_of` gives is the one place that is the first with
/// the id; it gives none exactly where no task has the id.
pub proof fn lemma_index_of(tasks: Seq<TaskView>, id: u32)
    ensures
        index_of(tasks, id) matches Some(i) ==> is_first_with(tasks, id, i),
        forall|i: int| is_first_with(tasks, id, i) ==> index_of(tasks, id) == Some(i),
        index_of(tasks, id) is None <==> forall|i: int|
            0 <= i < tasks.len() ==> (#[trigger] tasks[i]).id != id,
{
    assert forall|i: int| is_first_with(tasks, id, i) implies index_of(tasks, id) == Some(i) by {
        let c = choose|c: int| is_first_with(tasks, id, c);
        if c < i {
            assert(tasks[c].id != id);
        }
        if i < c {
            assert(tasks[i].id != id);
        }
    }
    if index_of(tasks, id) is None {
        assert forall|i: int| 0 <= i < tasks.len() implies (#[trigger] tasks[i]).id != id by {
            if tasks[i].id == id {
                lemma_least_with(tasks, id, i);
            }
        }
    }
}

/// Filtering takes nothing from a sequence whose items all pass the test.
pub proof fn lemma_filter_keeps_all(tasks: Seq<TaskView>, keep: spec_fn(TaskView) -> bool)
    requires
        forall|i: int| 0 <= i < tasks.len() ==> keep(#[trigger] tasks[i]),
    ensures
        tasks.filter(keep) == tasks,
    decreases tasks.len(),
{
    reveal(Seq::filter);
    if tasks.len() > 0 {
        let before = tasks.drop_last();
        assert forall|i: int| 0 <= i < before.len() implies keep(#[trigger] before[i]) by {
            assert(before[i] == tasks[i]);
        }
        lemma_filter_keeps_all(before, keep);
        assert(before.push(tasks.last()) =~= tasks);
    }
}

/// Where some task has the id, one task is the first to have it.
proof fn lemma_least_with(tasks: Seq<TaskView>, id: u32, i: int)
    requires
        0 <= i < tasks.len(),
        tasks[i].id == id,
    ensures
        exists|k: int| is_first_with(tasks, id, k),
    decreases i,
{
    if exists|j: int| 0 <= j < i && (#[trigger] tasks[j]).id == id {
        let j = choose|j: int| 0 <= j < i && (#[trigger] tasks[j]).id == id;
        lemma_least_with(tasks, id, j);
    } else {
        assert(is_first_with(tasks, id, i));
    }
}

/// Where exactly one task has the id, filtering the id out removes that task
/// and nothing else.
proof fn lemma_filter_removes_one(tasks: Seq<TaskView>, id: u32, i: int)
    requires
        0 <= i < tasks.len(),
        forall|j: int| 0 <= j < tasks.len() ==> ((#[trigger] tasks[j]).id == id <==> j == i),
    ensures
        tasks.filter(other_than(id)) == tasks.remove(i),
    decreases tasks.len(),
{
    reveal(Seq::filter);
    let before = tasks.drop_last();
    let last = tasks.len() - 1;
    if i == last {
        assert forall|j: int| 0 <= j < before.len() implies other_than(id)(
            #[trigger] before[j],
        ) by {
            assert(before[j] == tasks[j]);
        }
        lemma_filter_keeps_all(before, other_than(id));
        assert(tasks.remove(i) =~= before);
    } else {
        assert(tasks[last].id != id);
        assert forall|j: int| 0 <= j < before.len() implies ((#[trigger] before[j]).id == id <==> j
            == i) by {
            assert(before[j] == tasks[j]);
        }
        lemma_filter_removes_one(before, id, i);
        assert(before.remove(i).push(tasks.last()) =~= tasks.remove(i));
    }
}

/// Filtering an id out leaves no task with that id, and no id that was not
/// there before.
proof fn lemma_filter_ids(tasks: Seq<TaskView>, id: u32)
    ensures
        forall|k: int|
            0 <= k < tasks.filter(other_than(id)).len() ==> {
                &&& (#[trigger] tasks.filter(other_than(id))[k]).id != id
                &&& exists|i: int|
                    0 <= i < tasks.len() && #[trigger] tasks[i] == tasks.filter(other_than(id))[k]
            },
    decreases tasks.len(),
{
    reveal(Seq::filter);
    if tasks.len() > 0 {
        let before = tasks.drop_last();
        lemma_filter_ids(before, id);
        let kept = tasks.filter(other_than(id));
        assert forall|k: int| 0 <= k < kept.len() implies {
            &&& (#[trigger] kept[k]).id != id
            &&& exists|i: int| 0 <= i < tasks.len() && #[trigger] tasks[i] == kept[k]
        } by {
            if k < before.filter(other_than(id)).len() {
                let found = before.filter(other_than(id))[k];
                let i = choose|i: int| 0 <= i < before.len() && #[trigger] before[i] == found;
                assert(tasks[i] == kept[k]);
            } else {
                assert(tasks[tasks.len() - 1] == kept[k]);
            }
        }
    }
}

impl ListModel {
    /// The empty list and a list taken up from stored tasks are well formed.
    /// A list taken up from nothing gives 0 as its first id; any other gives
    /// one above the highest id stored.
    pub proof fn lemma_load(tasks: Seq<TaskView>)
        ensures
            ListModel::empty().wf(),
            ListModel::load(tasks).wf(),
            ListModel::load(Seq::empty()) == ListModel::empty(),
            tasks.len() == 0 ==> ListModel::load(tasks).next_id() == 0,
            tasks.len() > 0 ==> max_id(tasks) is Some && ListModel::load(tasks).next_id()
                == max_id(tasks)->0 + 1,
    {
        lemma_max_id(tasks);
    }

    /// The id of a new task is one above the highest id that the list has
    /// held so far, or 0 where it has held none. It is above every id in the
    /// list, the new task is not done, and after it the list is well formed
    /// and the new id is the highest in it.
    pub proof fn lemma_add(self, motacongviec: Seq<char>, nguoitao: Seq<char>)
        requires
            self.wf(),
            self.can_add(),
        ensures
            self.add(motacongviec, nguoitao).wf(),
            self.add(motacongviec, nguoitao).tasks.len() == self.tasks.len() + 1,
            self.add(motacongviec, nguoitao).tasks.last() == TaskView::fresh(
                self.next_id() as u32,
                motacongviec,
                nguoitao,
            ),
            forall|i: int|
                0 <= i < self.tasks.len() ==> self.add(motacongviec, nguoitao).tasks[i]
                    == self.tasks[i] && (#[trigger] self.tasks[i]).id < self.next_id(),
            !self.holds(self.next_id() as u32),
            max_id(self.add(motacongviec, nguoitao).tasks) == Some(self.next_id() as u32),
            self.add(motacongviec, nguoitao).next_id() == self.next_id() + 1,
    {
        let after = self.add(motacongviec, nguoitao);
        assert(after.tasks.drop_last() =~= self.tasks);
        lemma_max_id(self.tasks);
        if max_id(self.tasks) is Some {
            let max = max_id(self.tasks)->0;
            let i = choose|i: int|
                0 <= i < self.tasks.len() && (#[trigger] self.tasks[i]).id == max;
            assert(self.tasks[i].id <= self.last_id->0);
        }
    }

    /// As long as the task that bore the highest id so far is still in the
    /// list, or the list has held none, the id of a new task is one above the
    /// highest id in the list, or 0 where the list is empty.
    pub proof fn lemma_add_follows_highest(self, motacongviec: Seq<char>, nguoitao: Seq<char>)
        requires
            self.wf(),
            self.can_add(),
            self.last_id == max_id(self.tasks),
        ensures
            self.add(motacongviec, nguoitao).tasks.last().id == match max_id(self.tasks) {
                Some(highest) => highest + 1,
                None => 0,
            },
            self.tasks.len() == 0 ==> self.add(motacongviec, nguoitao).tasks.last().id == 0,
            self.add(motacongviec, nguoitao).last_id == max_id(
                self.add(motacongviec, nguoitao).tasks,
            ),
    {
        self.lemma_add(motacongviec, nguoitao);
        lemma_max_id(self.tasks);
    }

    /// Deleting and completing change neither the highest id held so far
    /// nor, therefore, the id that the next new task gets: a task added
    /// after a deletion gets the id that it would have got without it.
    pub proof fn lemma_next_id_kept(self, id: u32, motacongviec: Seq<char>, nguoitao: Seq<char>)
        ensures
            self.delete(id).last_id == self.last_id,
            self.complete(id).last_id == self.last_id,
            self.delete(id).next_id() == self.next_id(),
            self.complete(id).next_id() == self.next_id(),
            self.delete(id).add(motacongviec, nguoitao).tasks.last() == self.add(
                motacongviec,
                nguoitao,
            ).tasks.last(),
            self.delete(id).add(motacongviec, nguoitao).tasks.last().id == self.next_id() as u32,
    {
    }

    /// Taking up the tasks of a well-formed list gives its tasks back. The
    /// highest id held is then the highest one among them: the same as
    /// before where the task that bore the highest id is still in the list,
    /// and never a higher one.
    pub proof fn lemma_reload(self)
        requires
            self.wf(),
        ensures
            ListModel::load(self.tasks).tasks == self.tasks,
            ListModel::load(self.tasks).next_id() <= self.next_id(),
            self.last_id is Some && self.holds(self.last_id->0) ==> ListModel::load(self.tasks)
                == self,
            self.tasks.len() == 0 && self.last_id is None ==> ListModel::load(self.tasks) == self,
    {
        lemma_max_id(self.tasks);
        if max_id(self.tasks) is Some {
            let max = max_id(self.tasks)->0;
            let i = choose|i: int|
                0 <= i < self.tasks.len() && (#[trigger] self.tasks[i]).id == max;
            assert(self.tasks[i].id <= self.last_id->0);
        }
        if self.last_id is Some && self.holds(self.last_id->0) {
            let last = self.last_id->0;
            let i = choose|i: int|
                0 <= i < self.tasks.len() && (#[trigger] self.tasks[i]).id == last;
            assert(self.tasks[i].id <= max_id(self.tasks)->0);
        }
    }

    /// Adding keeps ids unique.
    pub proof fn lemma_add_keeps_ids_unique(self, motacongviec: Seq<char>, nguoitao: Seq<char>)
        requires
            self.wf(),
            self.can_add(),
            self.ids_unique(),
        ensures
            self.add(motacongviec, nguoitao).ids_unique(),
    {
        let after = self.add(motacongviec, nguoitao);
        assert forall|i: int, j: int| 0 <= i < j < after.tasks.len() implies (
        #[trigger] after.tasks[i]).id != (#[trigger] after.tasks[j]).id by {
            assert(after.tasks[i] == self.tasks[i]);
            if j < self.tasks.len() {
                assert(after.tasks[j] == self.tasks[j]);
            }
        }
    }

    /// Deleting an id that no task has leaves the list as it was.
    pub proof fn lemma_delete_absent(self, id: u32)
        requires
            !self.holds(id),
        ensures
            self.find(id) is None,
            self.delete(id) == self,
    {
        lemma_index_of(self.tasks, id);
        lemma_filter_keeps_all(self.tasks, other_than(id));
    }

    /// After deleting an id no task has it; the tasks that are left were
    /// there before, the list stays well formed, and it is shorter exactly
    /// where some task had the id.
    pub proof fn lemma_delete(self, id: u32)
        requires
            self.wf(),
        ensures
            !self.delete(id).holds(id),
            self.delete(id).wf(),
            self.delete(id).tasks.len() <= self.tasks.len(),
            self.holds(id) <==> self.delete(id).tasks.len() < self.tasks.len(),
            self.holds(id) <==> self.find(id) is Some,
    {
        lemma_filter_ids(self.tasks, id);
        lemma_index_of(self.tasks, id);
        self.tasks.lemma_filter_len(other_than(id));
        let after = self.delete(id);
        assert forall|k: int| 0 <= k < after.tasks.len() implies self.last_id is Some && (
        #[trigger] after.tasks[k]).id <= self.last_id->0 by {
            let i = choose|i: int|
                0 <= i < self.tasks.len() && #[trigger] self.tasks[i] == after.tasks[k];
            assert(self.tasks[i].id <= self.last_id->0);
        }
        if !self.holds(id) {
            lemma_filter_keeps_all(self.tasks, other_than(id));
        } else {
            let i = choose|i: int|
                0 <= i < self.tasks.len() && (#[trigger] self.tasks[i]).id == id;
            lemma_filter_shorter(self.tasks, id, i);
        }
    }

    /// Where ids are unique, deleting an id that a task has removes that one
    /// task, and the ids stay unique.
    pub proof fn lemma_delete_removes_one(self, id: u32)
        requires
            self.ids_unique(),
        ensures
            index_of(self.tasks, id) matches Some(i) ==> self.delete(id).tasks == self.tasks.remove(
                i,
            ),
            self.delete(id).ids_unique(),
    {
        lemma_index_of(self.tasks, id);
        match index_of(self.tasks, id) {
            Some(i) => {
                assert forall|j: int| 0 <= j < self.tasks.len() implies ((
                #[trigger] self.tasks[j]).id == id <==> j == i) by {
                    if j != i && self.tasks[j].id == id {
                        if j < i {
                            assert(self.tasks[j].id != self.tasks[i].id);
                        } else {
                            assert(self.tasks[i].id != self.tasks[j].id);
                        }
                    }
                }
                lemma_filter_removes_one(self.tasks, id, i);
                let after = self.tasks.remove(i);
                assert forall|a: int, b: int| 0 <= a < b < after.len() implies (
                #[trigger] after[a]).id != (#[trigger] after[b]).id by {
                    let from_a = if a < i { a } else { a + 1 };
                    let from_b = if b < i { b } else { b + 1 };
                    assert(after[a] == self.tasks[from_a]);
                    assert(after[b] == self.tasks[from_b]);
                }
            },
            None => {
                lemma_filter_keeps_all(self.tasks, other_than(id));
            },
        }
    }

    /// Completing marks the first task with the id as done and changes
    /// nothing else: not its other fields, not the other tasks, not their
    /// number or order. Where no task has the id the list is as it was.
    pub proof fn lemma_complete(self, id: u32)
        ensures
            self.complete(id).tasks.len() == self.tasks.len(),
            self.complete(id).last_id == self.last_id,
            forall|j: int|
                0 <= j < self.tasks.len() ==> {
                    let before = self.tasks[j];
                    let after = #[trigger] self.complete(id).tasks[j];
                    &&& after.id == before.id
                    &&& after.motacongviec == before.motacongviec
                    &&& after.nguoitao == before.nguoitao
                    &&& after.trangthai == (before.trangthai || index_of(self.tasks, id) == Some(j))
                },
            !self.holds(id) ==> self.complete(id) == self,
            self.wf() ==> self.complete(id).wf(),
            self.ids_unique() ==> self.complete(id).ids_unique(),
    {
        lemma_index_of(self.tasks, id);
        let done = self.complete(id);
        if self.wf() {
            assert forall|j: int| 0 <= j < done.tasks.len() implies done.last_id is Some && (
            #[trigger] done.tasks[j]).id <= done.last_id->0 by {
                assert(done.tasks[j].id == self.tasks[j].id);
            }
        }
        if self.ids_unique() {
            assert forall|a: int, b: int| 0 <= a < b < done.tasks.len() implies (
            #[trigger] done.tasks[a]).id != (#[trigger] done.tasks[b]).id by {
                assert(done.tasks[a].id == self.tasks[a].id);
                assert(done.tasks[b].id == self.tasks[b].id);
            }
        }
    }

    /// Completing a second time changes nothing.
    pub proof fn lemma_complete_idempotent(self, id: u32)
        ensures
            self.complete(id).complete(id) == self.complete(id),
    {
        lemma_index_of(self.tasks, id);
        let once = self.complete(id);
        lemma_index_of(once.tasks, id);
        match index_of(self.tasks, id) {
            Some(i) => {
                assert forall|j: int| 0 <= j < i implies (#[trigger] once.tasks[j]).id != id by {
                    assert(once.tasks[j] == self.tasks[j]);
                }
                assert(is_first_with(once.tasks, id, i));
                assert(once.complete(id).tasks =~= once.tasks);
            },
            None => {},
        }
    }
}

/// Filtering an id out makes the sequence shorter where some task has it.
proof fn lemma_filter_shorter(tasks: Seq<TaskView>, id: u32, i: int)
    requires
        0 <= i < tasks.len(),
        tasks[i].id == id,
    ensures
        tasks.filter(other_than(id)).len() < tasks.len(),
    decreases tasks.len(),
{
    reveal(Seq::filter);
    let before = tasks.drop_last();
    before.lemma_filter_len(other_than(id));
    if i < tasks.len() - 1 {
        lemma_filter_shorter(before, id, i);
    }
}

} // verus!
