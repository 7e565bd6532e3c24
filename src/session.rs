use crate::id::TaskId;
use crate::record::{decode, encode, parse_record, record_text};
use crate::status::{spec_next, spec_prev, TaskStatus};
use crate::store::{spec_file_path, spec_status_dir};
use crate::task::{grouped, law_sort_groups_and_orders, Task};
use crate::text::push_char;
use crate::timestamp::Timestamp;
use vstd::prelude::*;

verus! {

/// Whether keys move the cursor and change tasks, or edit the name of a new task.
#[derive(Clone, Copy, Debug, PartialEq, Eq, Structural)]
pub enum Mode {
    Normal,
    Editing,
}

/// A key press, as far as the session tells keys apart.
#[derive(Clone, Copy, Debug, PartialEq, Eq, Structural)]
pub enum Key {
    Char(char),
    Enter,
    Esc,
    Backspace,
    Up,
    Down,
    Other,
}

/// What the caller has to do on disk after a key press. The session changes no task
/// until the caller reports that the disk work succeeded (`App::commit_add`,
/// `App::commit_move`), so a failure leaves the session as it was.
#[derive(Debug)]
pub enum Action {
    /// Nothing.
    Nothing,
    /// Create `dir` if it is missing, write `text` to the file at `path`, and on
    /// success hand `task` to `App::commit_add`.
    Save { dir: String, path: String, text: String, task: Task },
    /// Create `dir` if it is missing, write the file at `from` again at `to` with the
    /// metadata of `task` (`record::restamp` keeps its body), remove the file at `from`,
    /// and on success hand `index` and `task` to `App::commit_move`.
    Move { dir: String, from: String, to: String, index: usize, task: Task },
    /// Load the `Done` tasks and hand them to `App::show_done`.
    LoadDone,
}

/// What a key press means in a mode.
#[derive(Clone, Copy, Debug, PartialEq, Eq, Structural)]
pub enum Command {
    Quit,
    StartEditing,
    SelectNext,
    SelectPrevious,
    Forward,
    Backward,
    ToggleDone,
    Open,
    Submit,
    Cancel,
    DeleteChar,
    Type(char),
    Ignore,
}

/// The key bindings: in `Normal` mode `q`/Esc quit, `a` starts a new task, `j`/Down and
/// `k`/Up move the cursor, `n` and `N` move the selected task forward and backward, `d`
/// shows or hides the `Done` tasks, Enter opens the selected task; in `Editing` mode
/// Enter adds the task, Esc cancels, Backspace deletes and a character is typed.
pub open spec fn command(mode: Mode, key: Key) -> Command {
    match mode {
        Mode::Normal => if key == Key::Char('q') || key == Key::Esc {
            Command::Quit
        } else if key == Key::Char('a') {
            Command::StartEditing
        } else if key == Key::Char('j') || key == Key::Down {
            Command::SelectNext
        } else if key == Key::Char('k') || key == Key::Up {
            Command::SelectPrevious
        } else if key == Key::Char('n') {
            Command::Forward
        } else if key == Key::Char('N') {
            Command::Backward
        } else if key == Key::Char('d') {
            Command::ToggleDone
        } else if key == Key::Enter {
            Command::Open
        } else {
            Command::Ignore
        },
        Mode::Editing => match key {
            Key::Enter => Command::Submit,
            Key::Esc => Command::Cancel,
            Key::Backspace => Command::DeleteChar,
            Key::Char(c) => Command::Type(c),
            _ => Command::Ignore,
        },
    }
}

/// What a key press means in a mode, as `command` gives it.
pub fn command_of(mode: Mode, key: Key) -> (r: Command)
    ensures
        r == command(mode, key),
{
    match mode {
        Mode::Normal => match key {
            Key::Char('q') | Key::Esc => Command::Quit,
            Key::Char('a') => Command::StartEditing,
            Key::Char('j') | Key::Down => Command::SelectNext,
            Key::Char('k') | Key::Up => Command::SelectPrevious,
            Key::Char('n') => Command::Forward,
            Key::Char('N') => Command::Backward,
            Key::Char('d') => Command::ToggleDone,
            Key::Enter => Command::Open,
            _ => Command::Ignore,
        },
        Mode::Editing => match key {
            Key::Enter => Command::Submit,
            Key::Esc => Command::Cancel,
            Key::Backspace => Command::DeleteChar,
            Key::Char(c) => Command::Type(c),
            _ => Command::Ignore,
        },
    }
}

/// The state of an interactive session over the tasks under one storage root.
pub struct App {
    pub root: String,
    pub should_quit: bool,
    pub input_mode: Mode,
    pub input_buffer: String,
    pub tasks: Vec<Task>,
    pub selected_index: Option<usize>,
    pub done_loaded: bool,
    pub preview_content: String,
    pub open_file: Option<String>,
}

/// The cursor after a step down: one further, but not past the last task.
pub open spec fn next_index(sel: Option<usize>, len: nat) -> Option<usize> {
    match sel {
        Some(i) => Some(if i + 1 < len { (i + 1) as usize } else { (len - 1) as usize }),
        None => Some(0),
    }
}

/// The cursor after a step up: one back, but not before the first task.
pub open spec fn previous_index(sel: Option<usize>) -> Option<usize> {
    match sel {
        Some(i) => Some(if i > 0 { (i - 1) as usize } else { 0 }),
        None => Some(0),
    }
}

/// The cursor kept on the list after it has shrunk or grown to `len` tasks.
pub open spec fn fitted_index(sel: Option<usize>, len: nat) -> Option<usize> {
    if len == 0 {
        None
    } else {
        match sel {
            Some(i) => if i >= len { Some((len - 1) as usize) } else { Some(i) },
            None => None,
        }
    }
}

/// The status one step forward or backward.
pub open spec fn stepped(st: TaskStatus, forward: bool) -> Option<TaskStatus> {
    if forward {
        spec_next(st)
    } else {
        spec_prev(st)
    }
}

/// The plan for moving the selected task one step: the task with the new status and
/// `now` as its update time, and where its file goes. The session itself is unchanged.
/// Without a selection, or at the end of the line, there is nothing to do.
pub open spec fn step_post(old: App, new: App, a: Action, forward: bool, now: Timestamp) -> bool {
    &&& new == old
    &&& match old.selected_index {
        None => a == Action::Nothing,
        Some(i) => {
            let t = old.tasks@[i as int];
            match stepped(t.status, forward) {
                None => a == Action::Nothing,
                Some(s) => match a {
                    Action::Move { dir, from, to, index, task } => {
                        &&& index == i
                        &&& task == Task { status: s, updated_at: now, ..t }
                        &&& dir@ == spec_status_dir(old.root@, s)
                        &&& from@ == spec_file_path(old.root@, t.status, t.id)
                        &&& to@ == spec_file_path(old.root@, s, t.id)
                    },
                    _ => false,
                },
            }
        },
    }
}

/// The effect of submitting the typed name: the input is cleared and the mode returns
/// to `Normal`; a non-empty name gives the plan to save a task with that name, the
/// identifier `fresh` and `now` as both times. The list is unchanged until the save is
/// committed.
pub open spec fn add_post(old: App, new: App, a: Action, now: Timestamp, fresh: TaskId) -> bool {
    &&& new == App { input_buffer: new.input_buffer, input_mode: Mode::Normal, ..old }
    &&& new.input_buffer@ == Seq::<char>::empty()
    &&& if old.input_buffer@.len() == 0 {
        a == Action::Nothing
    } else {
        let t = Task {
            id: fresh,
            name: old.input_buffer,
            status: TaskStatus::Todo,
            created_at: now,
            updated_at: now,
        };
        match a {
            Action::Save { dir, path, text, task } => {
                &&& task == t
                &&& dir@ == spec_status_dir(old.root@, TaskStatus::Todo)
                &&& path@ == spec_file_path(old.root@, TaskStatus::Todo, fresh)
                &&& text@ == record_text(t@)
            },
            _ => false,
        }
    }
}

/// The effect of showing or hiding the `Done` tasks: hiding drops them from the list at
/// once; showing asks the caller to load them.
pub open spec fn toggle_post(old: App, new: App, a: Action) -> bool {
    if old.done_loaded {
        let kept = old.tasks@.filter(|t: Task| t.status != TaskStatus::Done);
        &&& new == App {
            tasks: new.tasks,
            done_loaded: false,
            selected_index: fitted_index(old.selected_index, kept.len()),
            ..old
        }
        &&& new.tasks@ == kept
        &&& a == Action::Nothing
    } else {
        new == old && a == Action::LoadDone
    }
}

/// The effect of opening the selected task: its file's path is handed out.
pub open spec fn open_post(old: App, new: App) -> bool {
    match old.selected_index {
        Some(i) => {
            &&& new == App { open_file: new.open_file, ..old }
            &&& new.open_file is Some
            &&& new.open_file.unwrap()@ == spec_file_path(
                old.root@,
                old.tasks@[i as int].status,
                old.tasks@[i as int].id,
            )
        },
        None => new == old,
    }
}

/// The effect of a key press, command by command.
pub open spec fn key_post(
    c: Command,
    old: App,
    new: App,
    a: Action,
    now: Timestamp,
    fresh: TaskId,
) -> bool {
    match c {
        Command::Quit => new == App { should_quit: true, ..old } && a == Action::Nothing,
        Command::StartEditing => new == App {
            input_mode: Mode::Editing,
            input_buffer: new.input_buffer,
            ..old
        } && new.input_buffer@ == Seq::<char>::empty() && a == Action::Nothing,
        Command::SelectNext => (if old.tasks@.len() == 0 {
            new == old
        } else {
            new == App { selected_index: next_index(old.selected_index, old.tasks@.len()), ..old }
        }) && a == Action::Nothing,
        Command::SelectPrevious => (if old.tasks@.len() == 0 {
            new == old
        } else {
            new == App { selected_index: previous_index(old.selected_index), ..old }
        }) && a == Action::Nothing,
        Command::Forward => step_post(old, new, a, true, now),
        Command::Backward => step_post(old, new, a, false, now),
        Command::ToggleDone => toggle_post(old, new, a),
        Command::Open => open_post(old, new) && a == Action::Nothing,
        Command::Submit => add_post(old, new, a, now, fresh),
        Command::Cancel => new == App {
            input_mode: Mode::Normal,
            input_buffer: new.input_buffer,
            ..old
        } && new.input_buffer@ == Seq::<char>::empty() && a == Action::Nothing,
        Command::DeleteChar => new == App { input_buffer: new.input_buffer, ..old }
            && new.input_buffer@ == (if old.input_buffer@.len() == 0 {
            old.input_buffer@
        } else {
            old.input_buffer@.drop_last()
        }) && a == Action::Nothing,
        Command::Type(ch) => new == App { input_buffer: new.input_buffer, ..old }
            && new.input_buffer@ == old.input_buffer@.push(ch) && a == Action::Nothing,
        Command::Ignore => new == old && a == Action::Nothing,
    }
}

/// Removes the last character of `s`, if there is one, and returns it.
fn pop_char(s: &mut String) -> (r: Option<char>)
    ensures
        old(s)@.len() == 0 ==> r is None && final(s)@ == old(s)@,
        old(s)@.len() > 0 ==> r == Some(old(s)@.last()) && final(s)@ == old(s)@.drop_last(),
{
    let n = s.unicode_len();
    if n == 0 {
        return None;
    }
    let c = s.as_str().get_char(n - 1);
    let rest = s.as_str().substring_char(0, n - 1).to_owned();
    *s = rest;
    Some(c)
}

/// Sorting keeps the number of tasks.
proof fn lemma_grouped_len(s: Seq<Task>)
    ensures
        grouped(s).len() == s.len(),
{
    broadcast use vstd::seq_lib::group_to_multiset_ensures;

    law_sort_groups_and_orders(s);
    assert(grouped(s).to_multiset().len() == s.to_multiset().len());
}

impl App {
    /// The cursor, when there is one, points at a task.
    pub open spec fn wf(&self) -> bool {
        match self.selected_index {
            Some(i) => i < self.tasks@.len(),
            None => true,
        }
    }

    /// A session over `tasks` (the tasks loaded at start, without the `Done` ones), in
    /// `Normal` mode, with the cursor on the first task if there is one.
    pub fn new(root: String, tasks: Vec<Task>) -> (r: App)
        ensures
            r.wf(),
            r.root == root,
            !r.should_quit,
            r.input_mode == Mode::Normal,
            r.input_buffer@ == Seq::<char>::empty(),
            r.tasks == tasks,
            r.selected_index == (if tasks@.len() == 0 { None } else { Some(0usize) }),
            !r.done_loaded,
            r.preview_content@ == Seq::<char>::empty(),
            r.open_file is None,
    {
        let selected_index = if tasks.len() == 0 {
            None
        } else {
            Some(0)
        };
        App {
            root,
            should_quit: false,
            input_mode: Mode::Normal,
            input_buffer: String::new(),
            tasks,
            selected_index,
            done_loaded: false,
            preview_content: String::new(),
            open_file: None,
        }
    }

    /// Moves the cursor to the next task, stopping at the last one.
    pub fn select_next(&mut self)
        requires
            old(self).wf(),
        ensures
            final(self).wf(),
            old(self).tasks@.len() == 0 ==> *final(self) == *old(self),
            old(self).tasks@.len() > 0 ==> *final(self) == (App {
                selected_index: next_index(old(self).selected_index, old(self).tasks@.len()),
                ..*old(self)
            }),
    {
        if self.tasks.len() == 0 {
            return;
        }
        self.selected_index = Some(
            match self.selected_index {
                Some(i) => if i + 1 < self.tasks.len() {
                    i + 1
                } else {
                    self.tasks.len() - 1
                },
                None => 0,
            },
        );
    }

    /// Moves the cursor to the previous task, stopping at the first one.
    pub fn select_previous(&mut self)
        requires
            old(self).wf(),
        ensures
            final(self).wf(),
            old(self).tasks@.len() == 0 ==> *final(self) == *old(self),
            old(self).tasks@.len() > 0 ==> *final(self) == (App {
                selected_index: previous_index(old(self).selected_index),
                ..*old(self)
            }),
    {
        if self.tasks.len() == 0 {
            return;
        }
        self.selected_index = Some(
            match self.selected_index {
                Some(i) => if i > 0 {
                    i - 1
                } else {
                    0
                },
                None => 0,
            },
        );
    }

    /// The path of the selected task's file, if a task is selected.
    pub fn selected_path(&self) -> (r: Option<String>)
        requires
            self.wf(),
        ensures
            match self.selected_index {
                Some(i) => r is Some && r.unwrap()@ == spec_file_path(
                    self.root@,
                    self.tasks@[i as int].status,
                    self.tasks@[i as int].id,
                ),
                None => r is None,
            },
    {
        match self.selected_index {
            Some(i) => Some(self.tasks[i].file_path(self.root.as_str())),
            None => None,
        }
    }

    /// Hands out the selected task's file path for an editor to open.
    pub fn open_task(&mut self)
        requires
            old(self).wf(),
        ensures
            final(self).wf(),
            open_post(*old(self), *final(self)),
    {
        let p = self.selected_path();
        if p.is_some() {
            self.open_file = p;
        }
    }

    /// Plans moving the selected task one step forward or backward, as `step_post` says.
    fn step_selected(&self, forward: bool, now: Timestamp) -> (a: Action)
        requires
            self.wf(),
        ensures
            step_post(*self, *self, a, forward, now),
    {
        let i = match self.selected_index {
            Some(i) => i,
            None => return Action::Nothing,
        };
        let mut t = self.tasks[i].clone();
        let from = t.file_path(self.root.as_str());
        let moved = if forward {
            t.forward_status(now)
        } else {
            t.backward_status(now)
        };
        if !moved {
            return Action::Nothing;
        }
        let dir = Task::status_dir(self.root.as_str(), t.status);
        let to = t.file_path(self.root.as_str());
        Action::Move { dir, from, to, index: i, task: t }
    }

    /// Puts a moved task in place once its file has moved, and sorts the list again.
    pub fn commit_move(&mut self, index: usize, task: Task)
        requires
            old(self).wf(),
            index < old(self).tasks@.len(),
        ensures
            final(self).wf(),
            *final(self) == (App { tasks: final(self).tasks, ..*old(self) }),
            final(self).tasks@ == grouped(old(self).tasks@.update(index as int, task)),
    {
        let mut tasks: Vec<Task> = Vec::new();
        std::mem::swap(&mut tasks, &mut self.tasks);
        tasks.set(index, task);
        proof {
            lemma_grouped_len(tasks@);
        }
        self.tasks = Task::sort(tasks);
    }

    /// Adds a saved task to the list, sorts it again, and puts the cursor on the first
    /// task if there was none.
    pub fn commit_add(&mut self, task: Task)
        requires
            old(self).wf(),
        ensures
            final(self).wf(),
            *final(self) == (App {
                tasks: final(self).tasks,
                selected_index: if old(self).selected_index is None {
                    Some(0)
                } else {
                    old(self).selected_index
                },
                ..*old(self)
            }),
            final(self).tasks@ == grouped(old(self).tasks@.push(task)),
    {
        let mut tasks: Vec<Task> = Vec::new();
        std::mem::swap(&mut tasks, &mut self.tasks);
        tasks.push(task);
        proof {
            lemma_grouped_len(tasks@);
        }
        self.tasks = Task::sort(tasks);
        if self.selected_index.is_none() {
            self.selected_index = Some(0);
        }
    }

    /// Plans moving the selected task one step forward (`Todo -> Doing -> Done`).
    pub fn forward_status(&self, now: Timestamp) -> (a: Action)
        requires
            self.wf(),
        ensures
            step_post(*self, *self, a, true, now),
    {
        self.step_selected(true, now)
    }

    /// Plans moving the selected task one step backward (`Done -> Doing -> Todo`).
    pub fn backward_status(&self, now: Timestamp) -> (a: Action)
        requires
            self.wf(),
        ensures
            step_post(*self, *self, a, false, now),
    {
        self.step_selected(false, now)
    }

    /// Plans saving a task named by the input (unless it is empty) and clears the
    /// input, as `add_post` says.
    pub fn add_task(&mut self, now: Timestamp, fresh: TaskId) -> (a: Action)
        requires
            old(self).wf(),
        ensures
            final(self).wf(),
            add_post(*old(self), *final(self), a, now, fresh),
    {
        let mut a = Action::Nothing;
        if self.input_buffer.unicode_len() > 0 {
            let t = Task {
                id: fresh,
                name: self.input_buffer.clone(),
                status: TaskStatus::Todo,
                created_at: now,
                updated_at: now,
            };
            let dir = Task::status_dir(self.root.as_str(), TaskStatus::Todo);
            let path = t.file_path(self.root.as_str());
            let text = encode(&t);
            a = Action::Save { dir, path, text, task: t };
        }
        self.input_buffer = String::new();
        self.input_mode = Mode::Normal;
        a
    }

    /// Hides the `Done` tasks if they are shown; otherwise asks for them to be loaded.
    pub fn toggle_done(&mut self) -> (a: Action)
        requires
            old(self).wf(),
        ensures
            final(self).wf(),
            toggle_post(*old(self), *final(self), a),
    {
        if !self.done_loaded {
            return Action::LoadDone;
        }
        let kept = Task::without_status(self.tasks.as_slice(), TaskStatus::Done);
        self.tasks = kept;
        self.done_loaded = false;
        self.fit_selection();
        Action::Nothing
    }

    /// Appends the loaded `Done` tasks to the list and marks them shown.
    pub fn show_done(&mut self, done: Vec<Task>)
        requires
            old(self).wf(),
        ensures
            final(self).wf(),
            final(self).tasks@ == old(self).tasks@ + done@,
            *final(self) == (App {
                tasks: final(self).tasks,
                done_loaded: true,
                selected_index: fitted_index(old(self).selected_index, final(self).tasks@.len()),
                ..*old(self)
            }),
    {
        let mut done = done;
        self.tasks.append(&mut done);
        self.done_loaded = true;
        self.fit_selection();
    }

    /// Keeps the cursor on the list, as `fitted_index` says.
    fn fit_selection(&mut self)
        ensures
            *final(self) == (App {
                selected_index: fitted_index(old(self).selected_index, old(self).tasks@.len()),
                ..*old(self)
            }),
            final(self).wf(),
    {
        if self.tasks.len() == 0 {
            self.selected_index = None;
        } else if let Some(i) = self.selected_index {
            if i >= self.tasks.len() {
                self.selected_index = Some(self.tasks.len() - 1);
            }
        }
    }

    /// Replaces the selected task by the task that `text` (its file's text, read again
    /// after an outside edit) describes; keeps it if the text does not decode.
    pub fn reload_selected(&mut self, text: &str)
        requires
            old(self).wf(),
        ensures
            final(self).wf(),
            match old(self).selected_index {
                Some(i) => match parse_record(text@, old(self).tasks@[i as int].status) {
                    Some(v) => *final(self) == App { tasks: final(self).tasks, ..*old(self) }
                        && final(self).tasks@ == old(self).tasks@.update(
                        i as int,
                        final(self).tasks@[i as int],
                    ) && final(self).tasks@[i as int]@ == v,
                    None => *final(self) == *old(self),
                },
                None => *final(self) == *old(self),
            },
    {
        if let Some(i) = self.selected_index {
            if let Ok(t) = decode(text, self.tasks[i].status) {
                self.tasks.set(i, t);
            }
        }
    }

    /// Handles one key press, as `key_post` says for the command it means. `now` is the
    /// time to stamp a new or moved task with; `fresh` is the identifier for a new task.
    pub fn handle_key_event(&mut self, key: Key, now: Timestamp, fresh: TaskId) -> (a: Action)
        requires
            old(self).wf(),
        ensures
            final(self).wf(),
            key_post(command(old(self).input_mode, key), *old(self), *final(self), a, now, fresh),
    {
        match command_of(self.input_mode, key) {
            Command::Quit => {
                self.should_quit = true;
                Action::Nothing
            },
            Command::StartEditing => {
                self.input_mode = Mode::Editing;
                self.input_buffer = String::new();
                Action::Nothing
            },
            Command::SelectNext => {
                self.select_next();
                Action::Nothing
            },
            Command::SelectPrevious => {
                self.select_previous();
                Action::Nothing
            },
            Command::Forward => self.forward_status(now),
            Command::Backward => self.backward_status(now),
            Command::ToggleDone => self.toggle_done(),
            Command::Open => {
                self.open_task();
                Action::Nothing
            },
            Command::Submit => self.add_task(now, fresh),
            Command::Cancel => {
                self.input_buffer = String::new();
                self.input_mode = Mode::Normal;
                Action::Nothing
            },
            Command::DeleteChar => {
                pop_char(&mut self.input_buffer);
                Action::Nothing
            },
            Command::Type(c) => {
                push_char(&mut self.input_buffer, c);
                Action::Nothing
            },
            Command::Ignore => Action::Nothing,
        }
    }
}

} // verus!
