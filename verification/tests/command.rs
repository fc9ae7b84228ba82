use task_manager::command::{Effect, Notice, Session, State};
use task_manager::list::TaskList;
use task_manager::task::Task;

fn item(id: u32, motacongviec: &str, trangthai: bool, nguoitao: &str) -> Task {
    Task { id, motacongviec: motacongviec.to_string(), trangthai, nguoitao: nguoitao.to_string() }
}

fn log(choice: &str, task: Task) -> Effect {
    Effect::Log { choice: choice.to_string(), task }
}

fn session_with(tasks: Vec<Task>) -> Session {
    Session::new(TaskList::from_tasks(tasks))
}

fn run(session: &mut Session, lines: &[&str]) -> Vec<Effect> {
    let mut last = Vec::new();
    for line in lines {
        last = session.step(line);
    }
    last
}

#[test]
fn session_starts_at_the_menu() {
    let session = Session::new(TaskList::new());
    assert_eq!(session.state(), &State::Menu);
    assert!(!session.is_exited());
    assert!(session.list().tasks().is_empty());
}

#[test]
fn choice_one_asks_for_a_description_then_a_creator() {
    let mut session = Session::new(TaskList::new());
    assert_eq!(session.step("1\n"), vec![]);
    assert_eq!(session.state(), &State::AddDescription);
    assert_eq!(session.step("  buy milk \n"), vec![]);
    assert_eq!(session.state(), &State::AddCreator { motacongviec: "buy milk".to_string() });
    assert!(session.list().tasks().is_empty());
}

#[test]
fn adding_logs_reports_and_saves() {
    let mut session = Session::new(TaskList::new());
    let effects = run(&mut session, &["1\n", "buy milk\n", " alice\n"]);
    assert_eq!(
        effects,
        vec![
            log("1", item(0, "buy milk", false, "alice")),
            Effect::Notify(Notice::Added),
            Effect::Save,
        ]
    );
    assert_eq!(session.state(), &State::Menu);
    assert_eq!(session.list().tasks(), &vec![item(0, "buy milk", false, "alice")]);
}

#[test]
fn adding_takes_empty_texts_as_they_are() {
    let mut session = session_with(vec![item(3, "a", false, "x")]);
    let effects = run(&mut session, &["1", "", "   "]);
    assert_eq!(
        effects,
        vec![log("1", item(4, "", false, "")), Effect::Notify(Notice::Added), Effect::Save]
    );
    assert_eq!(session.list().tasks(), &vec![item(3, "a", false, "x"), item(4, "", false, "")]);
}

#[test]
fn adding_when_no_id_is_left_only_reports() {
    let mut session = session_with(vec![item(u32::MAX, "last", false, "x")]);
    let effects = run(&mut session, &["1\n", "more\n", "y\n"]);
    assert_eq!(effects, vec![Effect::Notify(Notice::NoIdLeft)]);
    assert_eq!(session.state(), &State::Menu);
    assert_eq!(session.list().tasks(), &vec![item(u32::MAX, "last", false, "x")]);
}

#[test]
fn deleting_logs_the_task_before_it_goes() {
    let mut session = session_with(vec![item(0, "a", false, "x"), item(1, "b", true, "y")]);
    assert_eq!(session.step("2\n"), vec![]);
    assert_eq!(session.state(), &State::DeleteId);
    let effects = session.step(" 1 \n");
    assert_eq!(
        effects,
        vec![log("2", item(1, "b", true, "y")), Effect::Notify(Notice::Deleted), Effect::Save]
    );
    assert_eq!(session.state(), &State::Menu);
    assert_eq!(session.list().tasks(), &vec![item(0, "a", false, "x")]);
}

#[test]
fn deleting_an_unknown_id_reports_not_found_and_still_saves() {
    let mut session = session_with(vec![item(0, "a", false, "x")]);
    let effects = run(&mut session, &["2\n", "7\n"]);
    assert_eq!(effects, vec![Effect::Notify(Notice::DeleteNotFound(7)), Effect::Save]);
    assert_eq!(session.state(), &State::Menu);
    assert_eq!(session.list().tasks(), &vec![item(0, "a", false, "x")]);
    assert_eq!(session.list().last_id(), Some(0));
}

#[test]
fn deleting_by_a_text_that_is_no_id_only_reports() {
    for text in ["abc\n", "\n", "-1\n", "4294967296\n", "1 2\n"] {
        let mut session = session_with(vec![item(1, "a", false, "x")]);
        let effects = run(&mut session, &["2\n", text]);
        assert_eq!(effects, vec![Effect::Notify(Notice::InvalidId)], "{:?}", text);
        assert_eq!(session.state(), &State::Menu);
        assert_eq!(session.list().tasks(), &vec![item(1, "a", false, "x")]);
    }
}

#[test]
fn completing_logs_the_task_as_done() {
    let mut session = session_with(vec![item(0, "a", false, "x"), item(1, "b", false, "y")]);
    assert_eq!(session.step("3\n"), vec![]);
    assert_eq!(session.state(), &State::CompleteId);
    let effects = session.step("+1\n");
    assert_eq!(
        effects,
        vec![log("3", item(1, "b", true, "y")), Effect::Notify(Notice::Completed), Effect::Save]
    );
    assert_eq!(session.state(), &State::Menu);
    assert_eq!(
        session.list().tasks(),
        &vec![item(0, "a", false, "x"), item(1, "b", true, "y")]
    );
}

#[test]
fn completing_again_gives_the_same_list_and_the_same_effects() {
    let mut session = session_with(vec![item(5, "a", false, "x")]);
    let first = run(&mut session, &["3\n", "5\n"]);
    let once: Vec<Task> = session.list().tasks().clone();
    let second = run(&mut session, &["3\n", "5\n"]);
    assert_eq!(first, second);
    assert_eq!(session.list().tasks(), &once);
    assert_eq!(once, vec![item(5, "a", true, "x")]);
}

#[test]
fn completing_an_unknown_id_reports_not_found_and_still_saves() {
    let mut session = session_with(vec![item(0, "a", false, "x")]);
    let effects = run(&mut session, &["3\n", "9\n"]);
    assert_eq!(effects, vec![Effect::Notify(Notice::CompleteNotFound(9)), Effect::Save]);
    assert_eq!(session.list().tasks(), &vec![item(0, "a", false, "x")]);
}

#[test]
fn completing_by_a_text_that_is_no_id_only_reports() {
    let mut session = session_with(vec![item(0, "a", false, "x")]);
    let effects = run(&mut session, &["3\n", "zero\n"]);
    assert_eq!(effects, vec![Effect::Notify(Notice::InvalidId)]);
    assert_eq!(session.state(), &State::Menu);
    assert_eq!(session.list().tasks(), &vec![item(0, "a", false, "x")]);
}

#[test]
fn listing_shows_and_logs_each_task_in_list_order() {
    let mut session = session_with(vec![item(2, "b", true, "y"), item(0, "a", false, "x")]);
    let effects = session.step("4\n");
    assert_eq!(
        effects,
        vec![
            Effect::Notify(Notice::Listing),
            Effect::Show("2: b [Hoàn thành] - Tên : y".to_string()),
            log("4", item(2, "b", true, "y")),
            Effect::Show("0: a [Chưa hoàn thành] - Tên : x".to_string()),
            log("4", item(0, "a", false, "x")),
        ]
    );
    assert_eq!(session.state(), &State::Menu);
    assert_eq!(
        session.list().tasks(),
        &vec![item(2, "b", true, "y"), item(0, "a", false, "x")]
    );
}

#[test]
fn listing_logs_one_entry_per_task() {
    let tasks: Vec<Task> = (0..25).map(|i| item(i, "t", i % 2 == 0, "x")).collect();
    let mut session = session_with(tasks);
    let effects = session.step("4");
    let logged: Vec<u32> = effects
        .iter()
        .filter_map(|effect| match effect {
            Effect::Log { choice, task } if choice == "4" => Some(task.id),
            _ => None,
        })
        .collect();
    assert_eq!(logged, (0..25).collect::<Vec<u32>>());
    assert_eq!(effects.len(), 51);
}

#[test]
fn listing_an_empty_list_shows_and_logs_nothing() {
    let mut session = Session::new(TaskList::new());
    assert_eq!(session.step("4\n"), vec![Effect::Notify(Notice::Listing)]);
    assert_eq!(session.state(), &State::Menu);
}

#[test]
fn choice_five_ends_the_loop() {
    let mut session = session_with(vec![item(0, "a", false, "x")]);
    assert_eq!(session.step("5\n"), vec![]);
    assert!(session.is_exited());
    assert_eq!(session.state(), &State::Exited);
    assert_eq!(session.list().tasks(), &vec![item(0, "a", false, "x")]);
}

#[test]
fn lines_after_the_end_do_nothing() {
    let mut session = session_with(vec![item(0, "a", false, "x")]);
    session.step("5");
    for line in ["1", "2", "0", "4", "5", ""] {
        assert_eq!(session.step(line), vec![]);
        assert!(session.is_exited());
    }
    assert_eq!(session.list().tasks(), &vec![item(0, "a", false, "x")]);
}

#[test]
fn any_other_choice_is_reported_and_the_menu_stays() {
    for line in ["", "\n", "0", "6", "11", "1 1", "add", "+1", "１", "1."] {
        let mut session = session_with(vec![item(0, "a", false, "x")]);
        assert_eq!(session.step(line), vec![Effect::Notify(Notice::UnknownChoice)], "{:?}", line);
        assert_eq!(session.state(), &State::Menu);
        assert_eq!(session.list().tasks(), &vec![item(0, "a", false, "x")]);
    }
}

#[test]
fn white_space_around_a_choice_does_not_count() {
    let mut session = Session::new(TaskList::new());
    session.step("  2\t\r\n");
    assert_eq!(session.state(), &State::DeleteId);
}

#[test]
fn ids_go_on_after_a_deletion() {
    let mut session = Session::new(TaskList::new());
    let first = run(&mut session, &["1\n", "buy milk\n", "alice\n"]);
    assert_eq!(first[0], log("1", item(0, "buy milk", false, "alice")));
    let second = run(&mut session, &["1\n", "clean\n", "bob\n"]);
    assert_eq!(second[0], log("1", item(1, "clean", false, "bob")));
    let deleted = run(&mut session, &["2\n", "0\n"]);
    assert_eq!(
        deleted,
        vec![
            log("2", item(0, "buy milk", false, "alice")),
            Effect::Notify(Notice::Deleted),
            Effect::Save,
        ]
    );
    assert_eq!(session.list().tasks(), &vec![item(1, "clean", false, "bob")]);
    let third = run(&mut session, &["1\n", "cook\n", "alice\n"]);
    assert_eq!(third[0], log("1", item(2, "cook", false, "alice")));
    assert_eq!(
        session.list().tasks(),
        &vec![item(1, "clean", false, "bob"), item(2, "cook", false, "alice")]
    );
}

#[test]
fn a_menu_digit_given_as_a_description_is_a_description() {
    let mut session = Session::new(TaskList::new());
    let effects = run(&mut session, &["1\n", "5\n", "2\n"]);
    assert_eq!(effects[0], log("1", item(0, "5", false, "2")));
    assert!(!session.is_exited());
}

#[test]
fn notices_of_unusable_input_go_to_the_error_stream() {
    assert!(Notice::InvalidId.is_error());
    assert!(Notice::UnknownChoice.is_error());
    assert!(Notice::NoIdLeft.is_error());
    assert!(Notice::CompleteNotFound(3).is_error());
}

#[test]
fn other_notices_go_to_the_output() {
    assert!(!Notice::Added.is_error());
    assert!(!Notice::Deleted.is_error());
    assert!(!Notice::Completed.is_error());
    assert!(!Notice::Listing.is_error());
    assert!(!Notice::DeleteNotFound(3).is_error());
}
