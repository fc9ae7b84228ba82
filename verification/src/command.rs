//! The command loop as a state machine: what each line of input does to the
//! session, and what is then to be logged, shown, reported and saved.

use crate::list::TaskList;
use crate::model::{index_of, is_first_with, lemma_index_of, ListModel};
use crate::task::{views, Task, TaskView};
use crate::text::{parse_u32, spec_parse_u32, spec_trim, trim};
use vstd::prelude::*;

verus! {

/// What the loop waits for.
#[derive(Debug, PartialEq, Eq)]
pub enum State {
    /// A menu choice.
    Menu,
    /// What the new task is about.
    AddDescription,
    /// Who creates the new task, whose description is already given.
    AddCreator { motacongviec: String },
    /// The id of the task to delete.
    DeleteId,
    /// The id of the task to mark as done.
    CompleteId,
    /// Nothing: the loop has ended.
    Exited,
}

/// A [`State`] with its text as a sequence of characters.
pub enum StateView {
    Menu,
    AddDescription,
    AddCreator { motacongviec: Seq<char> },
    DeleteId,
    CompleteId,
    Exited,
}

impl View for State {
    type V = StateView;

    open spec fn view(&self) -> StateView {
        match self {
            State::Menu => StateView::Menu,
            State::AddDescription => StateView::AddDescription,
            State::AddCreator { motacongviec } => StateView::AddCreator {
                motacongviec: motacongviec@,
            },
            State::DeleteId => StateView::DeleteId,
            State::CompleteId => StateView::CompleteId,
            State::Exited => StateView::Exited,
        }
    }
}

/// What the loop tells the user after a command.
#[derive(Debug, Clone, Copy, PartialEq, Eq)]
pub enum Notice {
    /// The task was added.
    Added,
    /// No task was added: every id has been given out.
    NoIdLeft,
    /// The task was deleted.
    Deleted,
    /// No task with this id was there to delete.
    DeleteNotFound(u32),
    /// The task was marked as done.
    Completed,
    /// No task with this id was there to mark as done.
    CompleteNotFound(u32),
    /// The line given as an id is not a number that an id can be.
    InvalidId,
    /// The line given as a menu choice is none of the menu.
    UnknownChoice,
    /// A listing follows.
    Listing,
}

impl Notice {
    /// Whether the notice belongs on the error stream rather than on the
    /// output: input that could not be used does, and so do a new task for
    /// which no id is left and a task to complete that is not there. A task
    /// to delete that is not there is told on the output.
    pub open spec fn spec_is_error(self) -> bool {
        match self {
            Notice::NoIdLeft => true,
            Notice::CompleteNotFound(_) => true,
            Notice::InvalidId => true,
            Notice::UnknownChoice => true,
            _ => false,
        }
    }

    /// Whether the notice belongs on the error stream: see
    /// [`Notice::spec_is_error`].
    #[verifier::when_used_as_spec(spec_is_error)]
    pub fn is_error(self) -> (error: bool)
        ensures
            error == self.spec_is_error(),
    {
        match self {
            Notice::NoIdLeft => true,
            Notice::CompleteNotFound(_) => true,
            Notice::InvalidId => true,
            Notice::UnknownChoice => true,
            _ => false,
        }
    }
}

/// One thing for the caller to do after a step, in the order given.
#[derive(Debug, PartialEq, Eq)]
pub enum Effect {
    /// Append an entry for `task` under the menu choice `choice` to the log.
    Log { choice: String, task: Task },
    /// Tell the user.
    Notify(Notice),
    /// Show a line of a listing.
    Show(String),
    /// Write the whole list to the store.
    Save,
}

/// An [`Effect`] with its texts as sequences of characters.
pub enum EffectView {
    Log { choice: Seq<char>, task: TaskView },
    Notify(Notice),
    Show(Seq<char>),
    Save,
}

impl View for Effect {
    type V = EffectView;

    open spec fn view(&self) -> EffectView {
        match self {
            Effect::Log { choice, task } => EffectView::Log { choice: choice@, task: task@ },
            Effect::Notify(notice) => EffectView::Notify(*notice),
            Effect::Show(line) => EffectView::Show(line@),
            Effect::Save => EffectView::Save,
        }
    }
}

/// The views of a run of effects, in order.
pub open spec fn effect_views(effects: Seq<Effect>) -> Seq<EffectView> {
    effects.map_values(|effect: Effect| effect@)
}

/// What a listing of `tasks` asks for: for each task in list order, its
/// line to show and then its log entry under the choice "4".
pub open spec fn listing(tasks: Seq<TaskView>) -> Seq<EffectView> {
    Seq::new(
        2 * tasks.len(),
        |k: int|
            if k % 2 == 0 {
                EffectView::Show(tasks[k / 2].display_line())
            } else {
                EffectView::Log { choice: "4"@, task: tasks[k / 2] }
            },
    )
}

/// The log entries that a run of effects asks for, in order: each with its
/// menu choice and its task.
pub open spec fn logged(effects: Seq<EffectView>) -> Seq<(Seq<char>, TaskView)>
    decreases effects.len(),
{
    if effects.len() == 0 {
        Seq::empty()
    } else {
        match effects.last() {
            EffectView::Log { choice, task } => logged(effects.drop_last()).push((choice, task)),
            _ => logged(effects.drop_last()),
        }
    }
}

/// The lines that a run of effects asks to show, in order.
pub open spec fn shown(effects: Seq<EffectView>) -> Seq<Seq<char>>
    decreases effects.len(),
{
    if effects.len() == 0 {
        Seq::empty()
    } else {
        match effects.last() {
            EffectView::Show(line) => shown(effects.drop_last()).push(line),
            _ => shown(effects.drop_last()),
        }
    }
}

/// A listing logs one entry per task, under the choice "4" and in list
/// order, and shows one line per task in the same order.
pub proof fn lemma_listing(tasks: Seq<TaskView>)
    ensures
        listing(tasks).len() == 2 * tasks.len(),
        logged(listing(tasks)) == Seq::new(tasks.len(), |i: int| ("4"@, tasks[i])),
        shown(listing(tasks)) == Seq::new(tasks.len(), |i: int| tasks[i].display_line()),
    decreases tasks.len(),
{
    if tasks.len() > 0 {
        let before = tasks.drop_last();
        lemma_listing(before);
        let all = listing(tasks);
        let line = all.drop_last();
        assert(line.drop_last() =~= listing(before));
        assert(all.last() == (EffectView::Log { choice: "4"@, task: tasks.last() }));
        assert(line.last() == EffectView::Show(tasks.last().display_line()));
        assert(logged(line) == logged(listing(before)));
        assert(logged(all) == logged(line).push(("4"@, tasks.last())));
        assert(logged(all) =~= Seq::new(tasks.len(), |i: int| ("4"@, tasks[i])));
        assert(shown(line) == shown(listing(before)).push(tasks.last().display_line()));
        assert(shown(all) == shown(line));
        assert(shown(all) =~= Seq::new(tasks.len(), |i: int| tasks[i].display_line()));
    } else {
        assert(logged(listing(tasks)) =~= Seq::new(tasks.len(), |i: int| ("4"@, tasks[i])));
        assert(shown(listing(tasks)) =~= Seq::new(tasks.len(), |i: int| tasks[i].display_line()));
    }
}

/// A session as a mathematical value: the task list and what the loop
/// waits for.
pub struct SessionModel {
    pub list: ListModel,
    pub state: StateView,
}

impl SessionModel {
    /// The session back at the menu, with the list `list`.
    pub open spec fn at_menu(list: ListModel) -> SessionModel {
        SessionModel { list, state: StateView::Menu }
    }

    /// The session waiting for `state`, with its list as it is.
    pub open spec fn waiting_for(self, state: StateView) -> SessionModel {
        SessionModel { list: self.list, state }
    }

    /// What the menu choice `choice` does.
    pub open spec fn select(self, choice: Seq<char>) -> (SessionModel, Seq<EffectView>) {
        if choice == "1"@ {
            (self.waiting_for(StateView::AddDescription), Seq::empty())
        } else if choice == "2"@ {
            (self.waiting_for(StateView::DeleteId), Seq::empty())
        } else if choice == "3"@ {
            (self.waiting_for(StateView::CompleteId), Seq::empty())
        } else if choice == "4"@ {
            (
                SessionModel::at_menu(self.list),
                seq![EffectView::Notify(Notice::Listing)] + listing(self.list.tasks),
            )
        } else if choice == "5"@ {
            (self.waiting_for(StateView::Exited), Seq::empty())
        } else {
            (SessionModel::at_menu(self.list), seq![EffectView::Notify(Notice::UnknownChoice)])
        }
    }

    /// What adding a task with the given texts does: the new task is logged
    /// under the choice "1", reported and saved. Where no id is left,
    /// nothing changes and that is reported.
    pub open spec fn add(self, motacongviec: Seq<char>, nguoitao: Seq<char>) -> (
        SessionModel,
        Seq<EffectView>,
    ) {
        if self.list.can_add() {
            let task = TaskView::fresh(self.list.next_id() as u32, motacongviec, nguoitao);
            (
                SessionModel::at_menu(self.list.add(motacongviec, nguoitao)),
                seq![
                    EffectView::Log { choice: "1"@, task },
                    EffectView::Notify(Notice::Added),
                    EffectView::Save,
                ],
            )
        } else {
            (SessionModel::at_menu(self.list), seq![EffectView::Notify(Notice::NoIdLeft)])
        }
    }

    /// What deleting by the text `text` does. Where `text` spells no id,
    /// that is reported and nothing else happens. Where a task has the id,
    /// the first such task is logged under the choice "2", every such task
    /// is taken out, and the list is saved. Where none has it, the list
    /// stays as it is, that is reported, and the list is saved all the same.
    pub open spec fn delete(self, text: Seq<char>) -> (SessionModel, Seq<EffectView>) {
        match spec_parse_u32(text) {
            Some(id) => match self.list.find(id) {
                Some(task) => (
                    SessionModel::at_menu(self.list.delete(id)),
                    seq![
                        EffectView::Log { choice: "2"@, task },
                        EffectView::Notify(Notice::Deleted),
                        EffectView::Save,
                    ],
                ),
                None => (
                    SessionModel::at_menu(self.list),
                    seq![EffectView::Notify(Notice::DeleteNotFound(id)), EffectView::Save],
                ),
            },
            None => (SessionModel::at_menu(self.list), seq![EffectView::Notify(Notice::InvalidId)]),
        }
    }

    /// What completing by the text `text` does. Where `text` spells no id,
    /// that is reported and nothing else happens. Where a task has the id,
    /// the first such task is marked as done and logged, as it then is,
    /// under the choice "3", and the list is saved. Where none has it, the
    /// list stays as it is, that is reported, and the list is saved all the
    /// same.
    pub open spec fn complete(self, text: Seq<char>) -> (SessionModel, Seq<EffectView>) {
        match spec_parse_u32(text) {
            Some(id) => match self.list.find(id) {
                Some(task) => (
                    SessionModel::at_menu(self.list.complete(id)),
                    seq![
                        EffectView::Log { choice: "3"@, task: task.completed() },
                        EffectView::Notify(Notice::Completed),
                        EffectView::Save,
                    ],
                ),
                None => (
                    SessionModel::at_menu(self.list),
                    seq![EffectView::Notify(Notice::CompleteNotFound(id)), EffectView::Save],
                ),
            },
            None => (SessionModel::at_menu(self.list), seq![EffectView::Notify(Notice::InvalidId)]),
        }
    }

    /// What one line of input does: the session after it, and what the
    /// caller is to do, in order. White space around the line does not
    /// count. After the loop has ended, a line does nothing.
    pub open spec fn step(self, line: Seq<char>) -> (SessionModel, Seq<EffectView>) {
        let text = spec_trim(line);
        match self.state {
            StateView::Menu => self.select(text),
            StateView::AddDescription => (
                self.waiting_for(StateView::AddCreator { motacongviec: text }),
                Seq::empty(),
            ),
            StateView::AddCreator { motacongviec } => self.add(motacongviec, text),
            StateView::DeleteId => self.delete(text),
            StateView::CompleteId => self.complete(text),
            StateView::Exited => (self, Seq::empty()),
        }
    }
}

/// An effect put before a run adds its log entry, if it is one, before the
/// entries of the run, and its line, if it is one, before the run's lines.
pub proof fn lemma_prepend(first: EffectView, effects: Seq<EffectView>)
    ensures
        logged(seq![first] + effects) == logged(seq![first]) + logged(effects),
        shown(seq![first] + effects) == shown(seq![first]) + shown(effects),
    decreases effects.len(),
{
    let all = seq![first] + effects;
    if effects.len() == 0 {
        assert(all =~= seq![first]);
        assert(logged(effects) =~= Seq::empty());
        assert(shown(effects) =~= Seq::empty());
        assert(logged(seq![first]) + logged(effects) =~= logged(seq![first]));
        assert(shown(seq![first]) + shown(effects) =~= shown(seq![first]));
    } else {
        lemma_prepend(first, effects.drop_last());
        assert(all.drop_last() =~= seq![first] + effects.drop_last());
        assert(all.last() == effects.last());
        assert(logged(all) =~= logged(seq![first]) + logged(effects));
        assert(shown(all) =~= shown(seq![first]) + shown(effects));
    }
}

impl SessionModel {
    /// Whatever the state and the line, a step leaves a well-formed list
    /// well formed and unique ids unique, and the id for the next new task
    /// does not go down. Only the answers that end an add, a delete or a
    /// complete can change the list, and the list grows only by one task at
    /// its end, whose id is the one that was next.
    pub proof fn lemma_step_keeps(self, line: Seq<char>)
        requires
            self.list.wf(),
        ensures
            self.step(line).0.list.wf(),
            self.list.ids_unique() ==> self.step(line).0.list.ids_unique(),
            self.step(line).0.list.next_id() >= self.list.next_id(),
            self.state is Menu || self.state is AddDescription || self.state is Exited
                ==> self.step(line).0.list == self.list,
            self.step(line).0.list.tasks.len() > self.list.tasks.len() ==> {
                &&& self.step(line).0.list.tasks.drop_last() == self.list.tasks
                &&& self.step(line).0.list.tasks.last().id == self.list.next_id()
                &&& self.step(line).0.list.next_id() == self.list.next_id() + 1
            },
    {
        let text = spec_trim(line);
        match self.state {
            StateView::AddCreator { motacongviec } => {
                if self.list.can_add() {
                    self.list.lemma_add(motacongviec, text);
                    assert(self.list.add(motacongviec, text).tasks.drop_last()
                        =~= self.list.tasks);
                    if self.list.ids_unique() {
                        self.list.lemma_add_keeps_ids_unique(motacongviec, text);
                    }
                }
            },
            StateView::DeleteId => {
                match spec_parse_u32(text) {
                    Some(id) => {
                        self.list.lemma_delete(id);
                        if self.list.ids_unique() {
                            self.list.lemma_delete_removes_one(id);
                        }
                    },
                    None => {},
                }
            },
            StateView::CompleteId => {
                match spec_parse_u32(text) {
                    Some(id) => {
                        self.list.lemma_complete(id);
                    },
                    None => {},
                }
            },
            _ => {},
        }
    }

    /// Deleting by an id that no task has leaves the list as it was,
    /// reports that nothing was found, and has the unchanged list saved.
    pub proof fn lemma_delete_unknown_id(self, line: Seq<char>, id: u32)
        requires
            self.state is DeleteId,
            spec_parse_u32(spec_trim(line)) == Some(id),
            !self.list.holds(id),
        ensures
            self.step(line) == (
                SessionModel::at_menu(self.list),
                seq![EffectView::Notify(Notice::DeleteNotFound(id)), EffectView::Save],
            ),
            self.list.delete(id) == self.list,
    {
        self.list.lemma_delete_absent(id);
    }

    /// Completing the same id a second time gives the same list and asks
    /// for the same effects as the first time.
    pub proof fn lemma_complete_again(self, line: Seq<char>)
        requires
            self.state is CompleteId,
        ensures
            self.step(line).0.waiting_for(StateView::CompleteId).step(line) == self.step(line),
    {
        match spec_parse_u32(spec_trim(line)) {
            Some(id) => {
                self.list.lemma_complete_idempotent(id);
                lemma_index_of(self.list.tasks, id);
                let once = self.list.complete(id);
                lemma_index_of(once.tasks, id);
                match index_of(self.list.tasks, id) {
                    Some(i) => {
                        assert forall|j: int| 0 <= j < i implies (#[trigger] once.tasks[j]).id
                            != id by {
                            assert(once.tasks[j] == self.list.tasks[j]);
                        }
                        assert(is_first_with(once.tasks, id, i));
                        assert(self.list.tasks[i].completed().completed()
                            == self.list.tasks[i].completed());
                    },
                    None => {},
                }
            },
            None => {},
        }
    }

    /// The choice to list leaves the list as it was, logs one entry per
    /// task under the choice "4", in list order, and shows one line per
    /// task in the same order.
    pub proof fn lemma_list_choice(self, line: Seq<char>)
        requires
            self.state is Menu,
            spec_trim(line) == "4"@,
        ensures
            self.step(line).0 == SessionModel::at_menu(self.list),
            logged(self.step(line).1) == Seq::new(
                self.list.tasks.len(),
                |i: int| ("4"@, self.list.tasks[i]),
            ),
            shown(self.step(line).1) == Seq::new(
                self.list.tasks.len(),
                |i: int| self.list.tasks[i].display_line(),
            ),
    {
        reveal_strlit("1");
        reveal_strlit("2");
        reveal_strlit("3");
        reveal_strlit("4");
        assert("4"@[0] != "1"@[0] && "4"@[0] != "2"@[0] && "4"@[0] != "3"@[0]);
        let header = EffectView::Notify(Notice::Listing);
        let entries = listing(self.list.tasks);
        assert(self.step(line).1 == seq![header] + entries);
        lemma_listing(self.list.tasks);
        lemma_prepend(header, entries);
        assert(seq![header].drop_last() =~= Seq::<EffectView>::empty());
        assert(seq![header].last() == header);
        assert(logged(seq![header].drop_last()) =~= Seq::empty());
        assert(shown(seq![header].drop_last()) =~= Seq::empty());
        assert(logged(seq![header]) =~= Seq::empty());
        assert(shown(seq![header]) =~= Seq::empty());
        assert(logged(seq![header]) + logged(entries) =~= logged(entries));
        assert(shown(seq![header]) + shown(entries) =~= shown(entries));
    }
}

/// A running session: the task list and what the loop waits for.
pub struct Session {
    list: TaskList,
    state: State,
}

impl View for Session {
    type V = SessionModel;

    closed spec fn view(&self) -> SessionModel {
        SessionModel { list: self.list@, state: self.state@ }
    }
}

fn same_text(text: &String, other: &str) -> (same: bool)
    ensures
        same == (text@ == other@),
{
    let other = String::from_str(other);
    text.eq(&other)
}

/// Adds to `effects` what a listing of `list` asks for.
fn push_listing(effects: &mut Vec<Effect>, list: &TaskList)
    ensures
        effect_views(final(effects)@) == effect_views(old(effects)@) + listing(list@.tasks),
{
    let tasks = list.tasks();
    let ghost before: Seq<EffectView> = effect_views(effects@);
    let ghost all: Seq<EffectView> = listing(list@.tasks);
    let mut i: usize = 0;
    assert(effect_views(effects@) =~= before + all.subrange(0, 0));
    while i < tasks.len()
        invariant
            i <= tasks.len(),
            views(tasks@) == list@.tasks,
            all == listing(list@.tasks),
            effect_views(effects@) == before + all.subrange(0, 2 * i),
        decreases tasks.len() - i,
    {
        let ghost sofar: Seq<EffectView> = effect_views(effects@);
        let task = &tasks[i];
        let show = Effect::Show(task.display_line());
        let log = Effect::Log { choice: String::from_str("4"), task: task.clone() };
        proof {
            assert(task@ == list@.tasks[i as int]);
            assert(show@ == all[2 * i]);
            assert(log@ == all[2 * i + 1]);
        }
        effects.push(show);
        effects.push(log);
        proof {
            assert(effect_views(effects@) =~= sofar.push(show@).push(log@));
            assert(all.subrange(0, 2 * (i + 1)) =~= all.subrange(0, 2 * i).push(all[2 * i]).push(
                all[2 * i + 1],
            ));
            assert(effect_views(effects@) =~= before + all.subrange(0, 2 * (i + 1)));
        }
        i = i + 1;
    }
    assert(all.subrange(0, 2 * i) =~= all);
}

impl Session {
    /// A session at the menu, with the list `list`.
    pub fn new(list: TaskList) -> (session: Session)
        ensures
            session@ == SessionModel::at_menu(list@),
    {
        Session { list, state: State::Menu }
    }

    /// The task list.
    pub fn list(&self) -> (list: &TaskList)
        ensures
            list@ == self@.list,
    {
        &self.list
    }

    /// What the loop waits for.
    pub fn state(&self) -> (state: &State)
        ensures
            state@ == self@.state,
    {
        &self.state
    }

    /// Whether the loop has ended.
    pub fn is_exited(&self) -> (exited: bool)
        ensures
            exited == (self@.state is Exited),
    {
        match self.state {
            State::Exited => true,
            _ => false,
        }
    }

    /// Takes one line of input: the session moves on as
    /// [`SessionModel::step`] says, and the effects returned are for the
    /// caller to carry out, in order.
    pub fn step(&mut self, line: &str) -> (effects: Vec<Effect>)
        ensures
            (final(self)@, effect_views(effects@)) == old(self)@.step(line@),
    {
        let text = trim(line);
        let mut effects: Vec<Effect> = Vec::new();
        let mut state = State::Menu;
        core::mem::swap(&mut self.state, &mut state);
        assert(effect_views(effects@) =~= Seq::<EffectView>::empty());
        match state {
            State::Menu => {
                if same_text(&text, "1") {
                    self.state = State::AddDescription;
                } else if same_text(&text, "2") {
                    self.state = State::DeleteId;
                } else if same_text(&text, "3") {
                    self.state = State::CompleteId;
                } else if same_text(&text, "4") {
                    let header = Effect::Notify(Notice::Listing);
                    effects.push(header);
                    assert(effect_views(effects@) =~= seq![header@]);
                    push_listing(&mut effects, &self.list);
                } else if same_text(&text, "5") {
                    self.state = State::Exited;
                } else {
                    let notice = Effect::Notify(Notice::UnknownChoice);
                    effects.push(notice);
                    assert(effect_views(effects@) =~= seq![notice@]);
                }
            },
            State::AddDescription => {
                self.state = State::AddCreator { motacongviec: text };
            },
            State::AddCreator { motacongviec } => {
                let logged_motacongviec = motacongviec.clone();
                let logged_nguoitao = text.clone();
                match self.list.add(motacongviec, text) {
                    Some(id) => {
                        let log = Effect::Log {
                            choice: String::from_str("1"),
                            task: Task::new(id, logged_motacongviec, logged_nguoitao),
                        };
                        let notice = Effect::Notify(Notice::Added);
                        effects.push(log);
                        effects.push(notice);
                        effects.push(Effect::Save);
                        assert(effect_views(effects@) =~= seq![log@, notice@, EffectView::Save]);
                    },
                    None => {
                        let notice = Effect::Notify(Notice::NoIdLeft);
                        effects.push(notice);
                        assert(effect_views(effects@) =~= seq![notice@]);
                    },
                }
            },
            State::DeleteId => {
                match parse_u32(text.as_str()) {
                    Some(id) => {
                        match self.list.delete(id) {
                            Some(task) => {
                                let log = Effect::Log { choice: String::from_str("2"), task };
                                let notice = Effect::Notify(Notice::Deleted);
                                effects.push(log);
                                effects.push(notice);
                                effects.push(Effect::Save);
                                assert(effect_views(effects@) =~= seq![
                                    log@,
                                    notice@,
                                    EffectView::Save,
                                ]);
                            },
                            None => {
                                let notice = Effect::Notify(Notice::DeleteNotFound(id));
                                effects.push(notice);
                                effects.push(Effect::Save);
                                assert(effect_views(effects@) =~= seq![notice@, EffectView::Save]);
                            },
                        }
                    },
                    None => {
                        let notice = Effect::Notify(Notice::InvalidId);
                        effects.push(notice);
                        assert(effect_views(effects@) =~= seq![notice@]);
                    },
                }
            },
            State::CompleteId => {
                match parse_u32(text.as_str()) {
                    Some(id) => {
                        match self.list.complete(id) {
                            Some(task) => {
                                let log = Effect::Log { choice: String::from_str("3"), task };
                                let notice = Effect::Notify(Notice::Completed);
                                effects.push(log);
                                effects.push(notice);
                                effects.push(Effect::Save);
                                assert(effect_views(effects@) =~= seq![
                                    log@,
                                    notice@,
                                    EffectView::Save,
                                ]);
                            },
                            None => {
                                let notice = Effect::Notify(Notice::CompleteNotFound(id));
                                effects.push(notice);
                                effects.push(Effect::Save);
                                assert(effect_views(effects@) =~= seq![notice@, EffectView::Save]);
                            },
                        }
                    },
                    None => {
                        let notice = Effect::Notify(Notice::InvalidId);
                        effects.push(notice);
                        assert(effect_views(effects@) =~= seq![notice@]);
                    },
                }
            },
            State::Exited => {
                self.state = State::Exited;
            },
        }
        effects
    }
}

} // verus!
