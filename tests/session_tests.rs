use rem_cli::id::TaskId;
use rem_cli::session::{Action, App, Key, Mode};
use rem_cli::status::TaskStatus;
use rem_cli::task::Task;
use rem_cli::timestamp::Timestamp;

const ROOT: &str = "/home/someone/.rem-cli/tasks";

fn now(second: u32) -> Timestamp {
    Timestamp { year: 2024, month: 6, day: 1, hour: 8, minute: 0, second, nanosecond: 0 }
}

fn press(app: &mut App, key: Key, second: u32) -> Action {
    app.handle_key_event(key, now(second), TaskId::new_random())
}

/// Presses a key and reports the disk work it asks for as done.
fn press_done(app: &mut App, key: Key, second: u32) -> Action {
    let action = press(app, key, second);
    match &action {
        Action::Save { task, .. } => app.commit_add(task.clone()),
        Action::Move { index, task, .. } => app.commit_move(*index, task.clone()),
        _ => {}
    }
    action
}

fn add(app: &mut App, name: &str, second: u32) -> Action {
    press(app, Key::Char('a'), second);
    for c in name.chars() {
        press(app, Key::Char(c), second);
    }
    press_done(app, Key::Enter, second)
}

fn position(app: &App, name: &str) -> usize {
    app.tasks.iter().position(|t| t.name == name).unwrap()
}

#[test]
fn adding_task_creates_md_file() {
    let mut app = App::new(ROOT.to_string(), Vec::new());
    let initial_task_count = app.tasks.len();
    let action = add(&mut app, "integration test task", 1);
    assert_eq!(app.tasks.len(), initial_task_count + 1);
    let new_task = app.tasks.iter().find(|t| t.name == "integration test task").expect("task should exist in the list");
    assert_eq!(new_task.status, TaskStatus::Todo);
    let file_path = new_task.file_path(ROOT);
    match action {
        Action::Save { path, .. } => assert_eq!(path, file_path, "md file should be created"),
        other => panic!("expected a save, got {:?}", other),
    }
    assert!(file_path.contains("/todo/"), "md file should be in todo/ directory");
}

#[test]
fn forward_status_moves_md_file_to_next_directory() {
    let mut app = App::new(ROOT.to_string(), Vec::new());
    add(&mut app, "forward status test", 1);
    let task = app.tasks.iter().find(|t| t.name == "forward status test").expect("task should exist");
    let todo_path = task.file_path(ROOT);
    let task_index = position(&app, "forward status test");
    app.selected_index = Some(task_index);
    let action = press_done(&mut app, Key::Char('n'), 2);
    let task = app.tasks.iter().find(|t| t.name == "forward status test").expect("task should still exist in the list");
    assert_eq!(task.status, TaskStatus::Doing);
    let doing_path = task.file_path(ROOT);
    match action {
        Action::Move { from, to, .. } => {
            assert_eq!(from, todo_path, "file should no longer exist in todo/");
            assert_eq!(to, doing_path, "file should exist in doing/");
        }
        other => panic!("expected a move, got {:?}", other),
    }
    assert!(doing_path.contains("/doing/"));
}

#[test]
fn backward_status_moves_md_file_to_previous_directory() {
    let mut app = App::new(ROOT.to_string(), Vec::new());
    add(&mut app, "backward status test", 1);
    let task_index = position(&app, "backward status test");
    app.selected_index = Some(task_index);
    press_done(&mut app, Key::Char('n'), 2);
    let task = app.tasks.iter().find(|t| t.name == "backward status test").expect("task should exist");
    let doing_path = task.file_path(ROOT);
    let task_index = position(&app, "backward status test");
    app.selected_index = Some(task_index);
    let action = press_done(&mut app, Key::Char('N'), 3);
    let task = app.tasks.iter().find(|t| t.name == "backward status test").expect("task should still exist in the list");
    assert_eq!(task.status, TaskStatus::Todo);
    let todo_path = task.file_path(ROOT);
    match action {
        Action::Move { from, to, .. } => {
            assert_eq!(from, doing_path, "file should no longer exist in doing/");
            assert_eq!(to, todo_path, "file should exist in todo/");
        }
        other => panic!("expected a move, got {:?}", other),
    }
    assert!(todo_path.contains("/todo/"));
}

#[test]
fn buy_milk_and_write_report_scenario() {
    let mut app = App::new(ROOT.to_string(), Vec::new());
    add(&mut app, "buy milk", 1);
    app.selected_index = Some(position(&app, "buy milk"));
    match press_done(&mut app, Key::Char('n'), 2) {
        Action::Move { from, to, dir, .. } => {
            assert!(from.contains("/todo/"));
            assert!(to.contains("/doing/"));
            assert!(dir.ends_with("/doing"));
        }
        other => panic!("expected a move, got {:?}", other),
    }
    assert_eq!(app.tasks[position(&app, "buy milk")].status, TaskStatus::Doing);

    add(&mut app, "write report", 3);
    app.selected_index = Some(position(&app, "write report"));
    press_done(&mut app, Key::Char('n'), 4);
    app.selected_index = Some(position(&app, "write report"));
    press_done(&mut app, Key::Char('n'), 5);
    assert_eq!(app.tasks[position(&app, "write report")].status, TaskStatus::Done);
    app.selected_index = Some(position(&app, "write report"));
    match press_done(&mut app, Key::Char('N'), 6) {
        Action::Move { from, to, .. } => {
            assert!(from.contains("/done/"));
            assert!(to.contains("/doing/"));
        }
        other => panic!("expected a move, got {:?}", other),
    }
    let report = &app.tasks[position(&app, "write report")];
    assert_eq!(report.status, TaskStatus::Doing);
    assert_eq!(report.updated_at, now(6));
}

#[test]
fn moving_past_the_ends_does_nothing() {
    let mut app = App::new(ROOT.to_string(), Vec::new());
    add(&mut app, "t", 1);
    app.selected_index = Some(0);
    assert!(matches!(press_done(&mut app, Key::Char('N'), 2), Action::Nothing));
    assert_eq!(app.tasks[0].status, TaskStatus::Todo);
    assert_eq!(app.tasks[0].updated_at, now(1));
}

#[test]
fn editing_keys_build_the_name() {
    let mut app = App::new(ROOT.to_string(), Vec::new());
    press(&mut app, Key::Char('a'), 1);
    assert_eq!(app.input_mode, Mode::Editing);
    press(&mut app, Key::Char('x'), 1);
    press(&mut app, Key::Char('y'), 1);
    press(&mut app, Key::Backspace, 1);
    assert_eq!(app.input_buffer, "x");
    press(&mut app, Key::Backspace, 1);
    press(&mut app, Key::Backspace, 1);
    assert_eq!(app.input_buffer, "");
    assert!(matches!(press(&mut app, Key::Enter, 1), Action::Nothing));
    assert!(app.tasks.is_empty());
    assert_eq!(app.input_mode, Mode::Normal);
    press(&mut app, Key::Char('a'), 1);
    press(&mut app, Key::Char('z'), 1);
    press(&mut app, Key::Esc, 1);
    assert_eq!(app.input_mode, Mode::Normal);
    assert_eq!(app.input_buffer, "");
    assert!(app.tasks.is_empty());
}

#[test]
fn cursor_stays_on_the_list() {
    let mut app = App::new(ROOT.to_string(), Vec::new());
    press(&mut app, Key::Char('j'), 1);
    assert_eq!(app.selected_index, None);
    add(&mut app, "one", 1);
    add(&mut app, "two", 2);
    assert_eq!(app.selected_index, Some(0));
    press(&mut app, Key::Down, 3);
    press(&mut app, Key::Char('j'), 3);
    assert_eq!(app.selected_index, Some(1));
    press(&mut app, Key::Up, 3);
    press(&mut app, Key::Char('k'), 3);
    assert_eq!(app.selected_index, Some(0));
}

#[test]
fn toggling_done_asks_then_hides() {
    let mut app = App::new(ROOT.to_string(), Vec::new());
    add(&mut app, "open", 1);
    assert!(matches!(press(&mut app, Key::Char('d'), 2), Action::LoadDone));
    let mut finished = Task::new("finished".to_string(), TaskId::new_random(), Timestamp::now().unwrap());
    finished.status = TaskStatus::Done;
    app.show_done(vec![finished]);
    assert!(app.done_loaded);
    assert_eq!(app.tasks.len(), 2);
    app.selected_index = Some(1);
    assert!(matches!(press(&mut app, Key::Char('d'), 3), Action::Nothing));
    assert!(!app.done_loaded);
    assert_eq!(app.tasks.len(), 1);
    assert_eq!(app.selected_index, Some(0));
}

#[test]
fn open_and_quit() {
    let mut app = App::new(ROOT.to_string(), Vec::new());
    add(&mut app, "open me", 1);
    press(&mut app, Key::Enter, 2);
    assert_eq!(app.open_file, Some(app.tasks[0].file_path(ROOT)));
    assert_eq!(app.selected_path(), Some(app.tasks[0].file_path(ROOT)));
    press(&mut app, Key::Other, 2);
    assert!(!app.should_quit);
    press(&mut app, Key::Char('q'), 2);
    assert!(app.should_quit);
}

#[test]
fn reload_replaces_selected_task() {
    let mut app = App::new(ROOT.to_string(), Vec::new());
    add(&mut app, "old name", 1);
    let mut edited = app.tasks[0].clone();
    edited.name = "new name".to_string();
    app.reload_selected(&rem_cli::record::encode(&edited));
    assert_eq!(app.tasks[0].name, "new name");
    app.reload_selected("garbage");
    assert_eq!(app.tasks[0].name, "new name");
}

#[test]
fn failed_disk_work_leaves_session_unchanged() {
    let mut app = App::new(ROOT.to_string(), Vec::new());
    press(&mut app, Key::Char('a'), 1);
    press(&mut app, Key::Char('x'), 1);
    assert!(matches!(press(&mut app, Key::Enter, 1), Action::Save { .. }));
    assert!(app.tasks.is_empty());
    assert_eq!(app.selected_index, None);
    add(&mut app, "kept", 2);
    app.selected_index = Some(0);
    match press(&mut app, Key::Char('n'), 3) {
        Action::Move { index, task, .. } => {
            assert_eq!(index, 0);
            assert_eq!(task.status, TaskStatus::Doing);
            assert_eq!(task.updated_at, now(3));
        }
        other => panic!("expected a move, got {:?}", other),
    }
    assert_eq!(app.tasks[0].status, TaskStatus::Todo);
    assert_eq!(app.tasks[0].updated_at, now(2));
}
