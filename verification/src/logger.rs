//! The audit log: the text of one entry, and the entry for an action taken
//! now.

use crate::task::{Task, TaskView};
use crate::text::{append_decimal, decimal};
use vstd::prelude::*;

verus! {

/// How a truth value is written in an entry.
pub open spec fn bool_text(b: bool) -> Seq<char> {
    if b {
        "true"@
    } else {
        "false"@
    }
}

/// The entry for `task` under the menu choice `choice`, stamped `timestamp`:
/// one line, its line feed included.
pub open spec fn log_entry(timestamp: Seq<char>, choice: Seq<char>, task: TaskView) -> Seq<char> {
    "["@ + timestamp + "] Choice: "@ + choice
        + ", Task: { id: "@ + decimal(task.id as nat)
        + ", motacongviec: \""@ + task.motacongviec
        + "\", trangthai: "@ + bool_text(task.trangthai)
        + ", nguoitao: \""@ + task.nguoitao
        + "\" }\n"@
}

/// The entry for `task` under `choice` with the given time stamp.
pub fn format_log_entry(timestamp: &str, choice: &str, task: &Task) -> (entry: String)
    ensures
        entry@ == log_entry(timestamp@, choice@, task@),
{
    let mut entry = String::from_str("[");
    entry.append(timestamp);
    entry.append("] Choice: ");
    entry.append(choice);
    entry.append(", Task: { id: ");
    append_decimal(&mut entry, task.id);
    entry.append(", motacongviec: \"");
    entry.append(task.motacongviec.as_str());
    entry.append("\", trangthai: ");
    if task.trangthai {
        entry.append("true");
    } else {
        entry.append("false");
    }
    entry.append(", nguoitao: \"");
    entry.append(task.nguoitao.as_str());
    entry.append("\" }\n");
    entry
}

/// The local date and time of the call, written by chrono as year, month and
/// day, then hour, minute and second (`Local::now`, then `DateTime::format`
/// with `%Y-%m-%d %H:%M:%S`). The text depends on the clock and the time
/// zone of the machine, so nothing is claimed of it. chrono stops the
/// program if the clock stands before 1970.
#[verifier::external_body]
fn local_timestamp() -> (timestamp: String) {
    chrono::Local::now().format("%Y-%m-%d %H:%M:%S").to_string()
}

/// The entry for `task` under `choice`, stamped with the local time of the
/// call. Whatever the clock says, the entry has the shape of [`log_entry`].
pub fn log_action(choice: &str, task: &Task) -> (entry: String)
    ensures
        exists|timestamp: Seq<char>| entry@ == log_entry(timestamp, choice@, task@),
{
    let timestamp = local_timestamp();
    format_log_entry(timestamp.as_str(), choice, task)
}

} // verus!
