//! A single to-do item and its mathematical view.

use crate::text::{append_decimal, decimal};
use vstd::prelude::*;

verus! {

/// A to-do item: its id, what is to be done, whether it is done, and who
/// created it. The field names are those of the stored records.
#[derive(Debug, PartialEq, Eq)]
pub struct Task {
    pub id: u32,
    pub motacongviec: String,
    pub trangthai: bool,
    pub nguoitao: String,
}

/// What a [`Task`] holds, with its texts as sequences of characters.
pub struct TaskView {
    pub id: u32,
    pub motacongviec: Seq<char>,
    pub trangthai: bool,
    pub nguoitao: Seq<char>,
}

impl View for Task {
    type V = TaskView;

    open spec fn view(&self) -> TaskView {
        TaskView {
            id: self.id,
            motacongviec: self.motacongviec@,
            trangthai: self.trangthai,
            nguoitao: self.nguoitao@,
        }
    }
}

/// The views of the tasks of a list, in list order.
pub open spec fn views(tasks: Seq<Task>) -> Seq<TaskView> {
    tasks.map_values(|task: Task| task@)
}

impl TaskView {
    /// The task as it is when created: not done.
    pub open spec fn fresh(id: u32, motacongviec: Seq<char>, nguoitao: Seq<char>) -> TaskView {
        TaskView { id, motacongviec, trangthai: false, nguoitao }
    }

    /// The same task, marked done.
    pub open spec fn completed(self) -> TaskView {
        TaskView { trangthai: true, ..self }
    }

    /// The label that a listing shows for the task's status.
    pub open spec fn status_label(self) -> Seq<char> {
        if self.trangthai {
            "Hoàn thành"@
        } else {
            "Chưa hoàn thành"@
        }
    }

    /// The line that a listing shows for the task: its id, what is to be
    /// done, its status and its creator.
    pub open spec fn display_line(self) -> Seq<char> {
        decimal(self.id as nat) + ": "@ + self.motacongviec + " ["@ + self.status_label()
            + "] - Tên : "@ + self.nguoitao
    }
}

impl Task {
    /// A new task that is not done yet.
    pub fn new(id: u32, motacongviec: String, nguoitao: String) -> (task: Task)
        ensures
            task@ == TaskView::fresh(id, motacongviec@, nguoitao@),
    {
        Task { id, motacongviec, trangthai: false, nguoitao }
    }

    /// The label that a listing shows for the task's status.
    pub fn status_label(&self) -> (label: &'static str)
        ensures
            label@ == self@.status_label(),
    {
        if self.trangthai {
            "Hoàn thành"
        } else {
            "Chưa hoàn thành"
        }
    }

    /// The line that a listing shows for the task.
    pub fn display_line(&self) -> (line: String)
        ensures
            line@ == self@.display_line(),
    {
        let mut line = String::new();
        append_decimal(&mut line, self.id);
        line.append(": ");
        line.append(self.motacongviec.as_str());
        line.append(" [");
        line.append(self.status_label());
        line.append("] - Tên : ");
        line.append(self.nguoitao.as_str());
        line
    }
}

impl Clone for Task {
    fn clone(&self) -> (copy: Task)
        ensures
            copy@ == self@,
    {
        Task {
            id: self.id,
            motacongviec: self.motacongviec.clone(),
            trangthai: self.trangthai,
            nguoitao: self.nguoitao.clone(),
        }
    }
}

} // verus!
