use task_manager::logger::{format_log_entry, log_action};
use task_manager::task::Task;

fn sample(trangthai: bool) -> Task {
    Task {
        id: 7,
        motacongviec: "buy milk".to_string(),
        trangthai,
        nguoitao: "alice".to_string(),
    }
}

#[test]
fn entry_has_the_documented_shape() {
    let entry = format_log_entry("2024-03-09 18:05:00", "1", &sample(false));
    assert_eq!(
        entry,
        "[2024-03-09 18:05:00] Choice: 1, Task: { id: 7, motacongviec: \"buy milk\", trangthai: false, nguoitao: \"alice\" }\n"
    );
}

#[test]
fn entry_writes_a_done_task_as_true() {
    let entry = format_log_entry("1999-12-31 23:59:59", "3", &sample(true));
    assert_eq!(
        entry,
        "[1999-12-31 23:59:59] Choice: 3, Task: { id: 7, motacongviec: \"buy milk\", trangthai: true, nguoitao: \"alice\" }\n"
    );
}

#[test]
fn entry_does_not_escape_its_texts() {
    let odd = Task {
        id: 4294967295,
        motacongviec: "say \"hi\" }".to_string(),
        trangthai: false,
        nguoitao: "Trần".to_string(),
    };
    assert_eq!(
        format_log_entry("", "", &odd),
        "[] Choice: , Task: { id: 4294967295, motacongviec: \"say \"hi\" }\", trangthai: false, nguoitao: \"Trần\" }\n"
    );
}

#[test]
fn entry_is_what_std_formatting_gives() {
    let task = sample(true);
    let expected = format!(
        "[{}] Choice: {}, Task: {{ id: {}, motacongviec: \"{}\", trangthai: {}, nguoitao: \"{}\" }}\n",
        "2024-01-01 00:00:00", "4", task.id, task.motacongviec, task.trangthai, task.nguoitao
    );
    assert_eq!(format_log_entry("2024-01-01 00:00:00", "4", &task), expected);
}

#[test]
fn action_is_stamped_with_a_date_and_a_time() {
    let entry = log_action("2", &sample(false));
    let tail = "] Choice: 2, Task: { id: 7, motacongviec: \"buy milk\", trangthai: false, nguoitao: \"alice\" }\n";
    assert!(entry.starts_with('['));
    assert!(entry.ends_with(tail));
    let stamp: Vec<char> = entry[1..entry.len() - tail.len()].chars().collect();
    assert_eq!(stamp.len(), 19);
    for (i, c) in stamp.iter().enumerate() {
        match i {
            4 | 7 => assert_eq!(*c, '-'),
            10 => assert_eq!(*c, ' '),
            13 | 16 => assert_eq!(*c, ':'),
            _ => assert!(c.is_ascii_digit()),
        }
    }
}

#[test]
fn action_differs_from_its_arguments() {
    let task = sample(false);
    let entry = log_action("1", &task);
    assert_ne!(entry, "1");
    assert_ne!(entry, task.motacongviec);
    assert_eq!(entry, format_log_entry(&entry[1..20], "1", &task));
}
