//! The executable task list, which follows its model step by step.

use crate::model::{
    index_of, is_first_with, lemma_filter_keeps_all, lemma_index_of, lemma_max_id, max_id,
    other_than, ListModel,
};
use crate::task::{views, Task, TaskView};
use vstd::prelude::*;

verus! {

/// The task list of a running session. Its tasks keep the order in which
/// they were added; beside them it remembers the highest id that it has held,
/// so that an id is not given out again after its task is deleted.
pub struct TaskList {
    tasks: Vec<Task>,
    last_id: Option<u32>,
}

impl View for TaskList {
    type V = ListModel;

    closed spec fn view(&self) -> ListModel {
        ListModel { tasks: views(self.tasks@), last_id: self.last_id }
    }
}

impl TaskList {
    #[verifier::type_invariant]
    spec fn inv(self) -> bool {
        self@.wf()
    }

    /// The list without tasks.
    pub fn new() -> (list: TaskList)
        ensures
            list@ == ListModel::empty(),
            list@.wf(),
    {
        let list = TaskList { tasks: Vec::new(), last_id: None };
        assert(list@.tasks =~= Seq::<TaskView>::empty());
        list
    }

    /// Takes up stored tasks as they are, in their order.
    pub fn from_tasks(tasks: Vec<Task>) -> (list: TaskList)
        ensures
            list@ == ListModel::load(views(tasks@)),
            list@.wf(),
    {
        let ghost all: Seq<TaskView> = views(tasks@);
        let mut last_id: Option<u32> = None;
        let mut i: usize = 0;
        while i < tasks.len()
            invariant
                i <= tasks.len(),
                all == views(tasks@),
                last_id == max_id(all.subrange(0, i as int)),
            decreases tasks.len() - i,
        {
            let id: u32 = tasks[i].id;
            proof {
                let upto = all.subrange(0, i + 1);
                assert(upto.drop_last() =~= all.subrange(0, i as int));
                assert(upto.last().id == id);
            }
            last_id =
            match last_id {
                Some(last) => if last >= id {
                    Some(last)
                } else {
                    Some(id)
                },
                None => Some(id),
            };
            i = i + 1;
        }
        proof {
            assert(all.subrange(0, i as int) =~= all);
            lemma_max_id(all);
        }
        TaskList { tasks, last_id }
    }

    /// The tasks, in list order.
    pub fn tasks(&self) -> (tasks: &Vec<Task>)
        ensures
            views(tasks@) == self@.tasks,
            self@.wf(),
    {
        proof {
            use_type_invariant(self);
        }
        &self.tasks
    }

    /// The highest id that the list has held so far.
    pub fn last_id(&self) -> (last_id: Option<u32>)
        ensures
            last_id == self@.last_id,
            self@.wf(),
    {
        proof {
            use_type_invariant(self);
        }
        self.last_id
    }

    /// Adds a task with the given texts at the end of the list and returns
    /// its id. Where the list has held the highest id there is, nothing is
    /// added and no id returned.
    pub fn add(&mut self, motacongviec: String, nguoitao: String) -> (id: Option<u32>)
        ensures
            old(self)@.can_add() ==> id == Some(old(self)@.next_id() as u32) && final(self)@ == old(
                self,
            )@.add(motacongviec@, nguoitao@),
            !old(self)@.can_add() ==> id is None && final(self)@ == old(self)@,
            final(self)@.wf(),
    {
        proof {
            use_type_invariant(&*self);
        }
        let id: u32 = match self.last_id {
            Some(last) => {
                if last == u32::MAX {
                    return None;
                }
                last + 1
            },
            None => 0,
        };
        let mut tasks = self.take_tasks();
        let ghost before: Seq<TaskView> = views(tasks@);
        let task = Task::new(id, motacongviec, nguoitao);
        tasks.push(task);
        proof {
            assert(views(tasks@) =~= before.push(task@));
        }
        self.last_id = Some(id);
        self.tasks = tasks;
        Some(id)
    }

    /// The place of the first task with the id `id`, if any task has it.
    pub fn position(&self, id: u32) -> (place: Option<usize>)
        ensures
            match place {
                Some(i) => index_of(self@.tasks, id) == Some(i as int),
                None => index_of(self@.tasks, id) is None,
            },
            self@.wf(),
    {
        proof {
            use_type_invariant(self);
            lemma_index_of(self@.tasks, id);
        }
        let mut i: usize = 0;
        while i < self.tasks.len()
            invariant
                i <= self.tasks.len(),
                self@.wf(),
                forall|j: int| 0 <= j < i ==> (#[trigger] self@.tasks[j]).id != id,
            decreases self.tasks.len() - i,
        {
            if self.tasks[i].id == id {
                assert(is_first_with(self@.tasks, id, i as int));
                return Some(i);
            }
            i = i + 1;
        }
        None
    }

    /// Takes every task with the id `id` out of the list and returns the
    /// first of them; none where no task has that id, and the list is then
    /// as it was.
    pub fn delete(&mut self, id: u32) -> (removed: Option<Task>)
        ensures
            final(self)@ == old(self)@.delete(id),
            match removed {
                Some(task) => old(self)@.find(id) == Some(task@),
                None => old(self)@.find(id) is None && final(self)@ == old(self)@,
            },
            final(self)@.wf(),
    {
        proof {
            use_type_invariant(&*self);
        }
        let last_id: Option<u32> = self.last_id;
        let tasks = self.take_tasks();
        let ghost all: Seq<TaskView> = views(tasks@);
        let ghost given: Seq<Task> = tasks@;
        let mut kept: Vec<Task> = Vec::new();
        let mut removed: Option<Task> = None;
        proof {
            reveal(Seq::filter);
            assert(all.subrange(0, 0) =~= Seq::<TaskView>::empty());
        }
        for task in it: tasks
            invariant
                it.seq() == given,
                all == views(given),
                views(kept@) == all.subrange(0, it.index() as int).filter(other_than(id)),
                forall|k: int|
                    0 <= k < kept.len() ==> last_id is Some && (#[trigger] kept[k]).id
                        <= last_id->0,
                forall|k: int|
                    0 <= k < all.len() ==> last_id is Some && (#[trigger] all[k]).id <= last_id->0,
                match removed {
                    Some(first) => exists|f: int|
                        f < it.index() && is_first_with(all, id, f) && first@ == all[f],
                    None => forall|j: int| 0 <= j < it.index() ==> (#[trigger] all[j]).id != id,
                },
        {
            let ghost at: int = it.index() as int;
            proof {
                reveal(Seq::filter);
                assert(all.subrange(0, at + 1).drop_last() =~= all.subrange(0, at));
                assert(all.subrange(0, at + 1).last() == all[at]);
                assert(all[at] == task@);
            }
            let ghost before: Seq<TaskView> = views(kept@);
            if task.id == id {
                if removed.is_none() {
                    assert(is_first_with(all, id, at));
                    removed = Some(task);
                }
            } else {
                kept.push(task);
                assert(views(kept@) =~= before.push(task@));
            }
        }
        proof {
            assert(all.subrange(0, all.len() as int) =~= all);
            lemma_index_of(all, id);
            if removed is None {
                lemma_filter_keeps_all(all, other_than(id));
            }
        }
        self.tasks = kept;
        removed
    }

    /// Marks the first task with the id `id` as done and returns a copy of
    /// it as it then is; none where no task has that id, and the list is
    /// then as it was.
    pub fn complete(&mut self, id: u32) -> (done: Option<Task>)
        ensures
            final(self)@ == old(self)@.complete(id),
            match done {
                Some(task) => old(self)@.find(id) matches Some(found) && task@
                    == found.completed(),
                None => old(self)@.find(id) is None && final(self)@ == old(self)@,
            },
            final(self)@.wf(),
    {
        match self.position(id) {
            Some(i) => {
                let mut tasks = self.take_tasks();
                let ghost before: Seq<TaskView> = views(tasks@);
                tasks[i].trangthai = true;
                let done = tasks[i].clone();
                proof {
                    assert(views(tasks@) =~= before.update(i as int, before[i as int].completed()));
                }
                self.tasks = tasks;
                Some(done)
            },
            None => None,
        }
    }

    /// Moves the tasks out and leaves the list empty, for the caller to put
    /// them back changed.
    fn take_tasks(&mut self) -> (tasks: Vec<Task>)
        ensures
            tasks == old(self).tasks,
            final(self).tasks@ == Seq::<Task>::empty(),
            final(self).last_id == old(self).last_id,
    {
        let mut tasks: Vec<Task> = Vec::new();
        core::mem::swap(&mut self.tasks, &mut tasks);
        tasks
    }
}

} // verus!
