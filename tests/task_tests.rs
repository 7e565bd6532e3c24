use rem_cli::id::TaskId;
use rem_cli::record::{decode, encode, restamp, RecordError};
use rem_cli::status::TaskStatus;
use rem_cli::store::{is_record_file_name, StoredFile};
use rem_cli::task::Task;
use rem_cli::timestamp::Timestamp;
use rem_cli::wrap::{is_white_char, wrap_task_name};

const ROOT: &str = "/home/someone/.rem-cli/tasks";

fn at(second: u32) -> Timestamp {
    Timestamp { year: 2024, month: 5, day: 17, hour: 9, minute: 30, second, nanosecond: 0 }
}

fn task_at(name: &str, status: TaskStatus, second: u32, lo: u64) -> Task {
    Task {
        id: TaskId { hi: 0x67e5_5044_10b1_426f, lo },
        name: name.to_string(),
        status,
        created_at: at(second),
        updated_at: at(second),
    }
}

#[test]
fn file_path_contains_status_dir_and_uuid() {
    let task = Task::new("path test".to_string(), TaskId::new_random(), Timestamp::now().unwrap());
    let path = task.file_path(ROOT);
    assert!(path.contains("/todo/"));
    assert!(path.ends_with(&format!("{}.md", task.id.to_text())));
}

#[test]
fn frontmatter_excludes_status() {
    let task = Task::new("frontmatter test".to_string(), TaskId::new_random(), Timestamp::now().unwrap());
    let text = encode(&task);
    let back = decode(&text, TaskStatus::Todo).unwrap();
    assert_eq!(back.id, task.id);
    assert_eq!(back.name, "frontmatter test");
    assert!(!text.contains("status"));
}

#[test]
fn sort_groups_by_status_and_orders_by_created_at() {
    let task_doing = task_at("doing", TaskStatus::Doing, 10, 1);
    let task_todo = task_at("todo", TaskStatus::Todo, 20, 2);
    let task_done = task_at("done", TaskStatus::Done, 30, 3);
    let sorted = Task::sort(vec![task_done, task_doing, task_todo]);
    assert_eq!(sorted[0].status, TaskStatus::Todo);
    assert_eq!(sorted[1].status, TaskStatus::Doing);
    assert_eq!(sorted[2].status, TaskStatus::Done);
}

#[test]
fn filter_by_status_returns_matching_tasks() {
    let todo = Task::new("todo".to_string(), TaskId::new_random(), Timestamp::now().unwrap());
    let mut doing = Task::new("doing".to_string(), TaskId::new_random(), Timestamp::now().unwrap());
    doing.status = TaskStatus::Doing;
    let tasks = vec![todo, doing];
    let filtered = Task::filter_by_status(&tasks, TaskStatus::Todo);
    assert_eq!(filtered.len(), 1);
    assert_eq!(filtered[0].name, "todo");
}

#[test]
fn save_and_load_roundtrip() {
    let task = Task::new("roundtrip test".to_string(), TaskId::new_random(), Timestamp::now().unwrap());
    let text = encode(&task);
    let loaded = decode(&text, TaskStatus::Todo).unwrap();
    assert_eq!(loaded.id, task.id);
    assert_eq!(loaded.name, "roundtrip test");
    assert_eq!(loaded.status, TaskStatus::Todo);
}

#[test]
fn update_status_moves_file_between_directories() {
    let mut task = Task::new("status move test".to_string(), TaskId::new_random(), Timestamp::now().unwrap());
    let old_path = task.file_path(ROOT);
    let before_update = task.updated_at;
    let later = Timestamp { year: before_update.year + 1, ..before_update };
    task.update_status(TaskStatus::Doing, later);
    let new_path = task.file_path(ROOT);
    assert_ne!(old_path, new_path);
    assert!(new_path.contains("/doing/"));
    assert!(old_path.contains("/todo/"));
    assert!(before_update.precedes(&task.updated_at));
}

#[test]
fn record_text_has_fixed_layout() {
    let task = Task {
        id: TaskId { hi: 0x67e5_5044_10b1_426f, lo: 0x9247_bb68_0e5f_e0c8 },
        name: "buy milk".to_string(),
        status: TaskStatus::Doing,
        created_at: Timestamp { year: 2024, month: 5, day: 7, hour: 9, minute: 3, second: 4, nanosecond: 120 },
        updated_at: Timestamp { year: 2025, month: 12, day: 31, hour: 23, minute: 59, second: 60, nanosecond: 999_999_999 },
    };
    assert_eq!(
        encode(&task),
        "---\nid: 67e55044-10b1-426f-9247-bb680e5fe0c8\nname: \"buy milk\"\ncreated_at: 2024-05-07T09:03:04.000000120Z\nupdated_at: 2025-12-31T23:59:60.999999999Z\n---\n"
    );
}

#[test]
fn record_roundtrip_keeps_every_field() {
    let task = Task {
        id: TaskId { hi: u64::MAX, lo: 0 },
        name: "say \"hi\"\\ now\nand\rthen\ttab ü".to_string(),
        status: TaskStatus::Done,
        created_at: Timestamp { year: 1970, month: 1, day: 1, hour: 0, minute: 0, second: 0, nanosecond: 0 },
        updated_at: Timestamp { year: 123_456_788, month: 2, day: 29, hour: 12, minute: 1, second: 2, nanosecond: 3 },
    };
    let back = decode(&encode(&task), TaskStatus::Done).unwrap();
    assert_eq!(back.id, task.id);
    assert_eq!(back.name, task.name);
    assert_eq!(back.status, TaskStatus::Done);
    assert_eq!(back.created_at, task.created_at);
    assert_eq!(back.updated_at, task.updated_at);
}

#[test]
fn decode_takes_status_from_caller() {
    let task = task_at("x", TaskStatus::Todo, 1, 5);
    let back = decode(&encode(&task), TaskStatus::Done).unwrap();
    assert_eq!(back.status, TaskStatus::Done);
}

#[test]
fn decode_reads_plain_name_and_short_fraction() {
    let text = "---\nid: 67E55044-10B1-426F-9247-BB680E5FE0C8\nname: buy milk\ncreated_at: 2024-05-07T09:03:04.5Z\nupdated_at: 2024-05-07T09:03:04Z\n---\nsome body text\n";
    let t = decode(text, TaskStatus::Todo).unwrap();
    assert_eq!(t.id, TaskId { hi: 0x67e5_5044_10b1_426f, lo: 0x9247_bb68_0e5f_e0c8 });
    assert_eq!(t.name, "buy milk");
    assert_eq!(t.created_at.nanosecond, 500_000_000);
    assert_eq!(t.updated_at.nanosecond, 0);
    assert_eq!(t.updated_at.second, 4);
}

#[test]
fn decode_rejects_missing_block() {
    assert_eq!(decode("just some notes\n", TaskStatus::Todo).unwrap_err(), RecordError::MalformedRecord);
    assert_eq!(decode("", TaskStatus::Todo).unwrap_err(), RecordError::MalformedRecord);
}

#[test]
fn decode_rejects_bad_identifier() {
    let text = "---\nid: not-a-uuid\nname: a\ncreated_at: 2024-05-07T09:03:04Z\nupdated_at: 2024-05-07T09:03:04Z\n---\n";
    assert_eq!(decode(text, TaskStatus::Todo).unwrap_err(), RecordError::MalformedRecord);
}

#[test]
fn decode_rejects_bad_timestamp() {
    let text = "---\nid: 67e55044-10b1-426f-9247-bb680e5fe0c8\nname: a\ncreated_at: 2024-13-07T09:03:04Z\nupdated_at: 2024-05-07T09:03:04Z\n---\n";
    assert_eq!(decode(text, TaskStatus::Todo).unwrap_err(), RecordError::MalformedRecord);
    let text = "---\nid: 67e55044-10b1-426f-9247-bb680e5fe0c8\nname: a\ncreated_at: yesterday\nupdated_at: 2024-05-07T09:03:04Z\n---\n";
    assert_eq!(decode(text, TaskStatus::Todo).unwrap_err(), RecordError::MalformedRecord);
}

#[test]
fn decode_rejects_missing_name() {
    let text = "---\nid: 67e55044-10b1-426f-9247-bb680e5fe0c8\ncreated_at: 2024-05-07T09:03:04Z\nupdated_at: 2024-05-07T09:03:04Z\n---\n";
    assert_eq!(decode(text, TaskStatus::Todo).unwrap_err(), RecordError::MalformedRecord);
    let text = "---\nid: 67e55044-10b1-426f-9247-bb680e5fe0c8\nname: \ncreated_at: 2024-05-07T09:03:04Z\nupdated_at: 2024-05-07T09:03:04Z\n---\n";
    assert_eq!(decode(text, TaskStatus::Todo).unwrap_err(), RecordError::MalformedRecord);
}

#[test]
fn decode_rejects_unclosed_block() {
    let text = "---\nid: 67e55044-10b1-426f-9247-bb680e5fe0c8\nname: a\ncreated_at: 2024-05-07T09:03:04Z\nupdated_at: 2024-05-07T09:03:04Z\n";
    assert_eq!(decode(text, TaskStatus::Todo).unwrap_err(), RecordError::MalformedRecord);
}

#[test]
fn timestamp_text_and_parse() {
    let t = Timestamp { year: 2024, month: 1, day: 2, hour: 3, minute: 4, second: 5, nanosecond: 6 };
    assert_eq!(t.to_text(), "2024-01-02T03:04:05.000000006Z");
    assert_eq!(Timestamp::parse("2024-01-02T03:04:05.000000006Z"), Some(t));
    assert_eq!(Timestamp::parse("2024-01-02T03:04:05Z"), Some(Timestamp { nanosecond: 0, ..t }));
    assert_eq!(Timestamp::parse("2024-01-02T24:04:05Z"), None);
    assert_eq!(Timestamp::parse("2024-01-02 03:04:05Z"), None);
}

#[test]
fn timestamp_now_is_valid() {
    let t = Timestamp::now().unwrap();
    assert!(t.year >= 2024);
    assert!((1..=12).contains(&t.month));
    assert!(t.nanosecond < 1_000_000_000);
}

#[test]
fn id_text_and_parse() {
    let id = TaskId { hi: 0x0123_4567_89ab_cdef, lo: 0xfedc_ba98_7654_3210 };
    assert_eq!(id.to_text(), "01234567-89ab-cdef-fedc-ba9876543210");
    assert_eq!(TaskId::parse("01234567-89ab-cdef-fedc-ba9876543210"), Some(id));
    assert_eq!(TaskId::parse("01234567-89ab-cdef-fedc-ba987654321"), None);
    assert_eq!(TaskId::parse("0123456789abcdeffedcba9876543210"), None);
}

#[test]
fn new_ids_differ() {
    let a = Task::new("a".to_string(), TaskId::new_random(), Timestamp::now().unwrap());
    let b = Task::new("b".to_string(), TaskId::new_random(), Timestamp::now().unwrap());
    assert_ne!(a.id, b.id);
    assert_eq!(a.created_at, a.updated_at);
    assert_eq!(a.status, TaskStatus::Todo);
}

#[test]
fn forward_chain_stops_at_done() {
    let mut t = task_at("chain", TaskStatus::Todo, 1, 7);
    let mut seen = Vec::new();
    for k in 0..3u32 {
        let before_path = t.file_path(ROOT);
        let before_updated = t.updated_at;
        let moved = t.forward_status(at(10 + k));
        seen.push(t.status);
        if k == 2 {
            assert!(!moved);
            assert_eq!(t.file_path(ROOT), before_path);
            assert_eq!(t.updated_at, before_updated);
        } else {
            assert!(moved);
            assert_ne!(t.file_path(ROOT), before_path);
        }
    }
    assert_eq!(seen, vec![TaskStatus::Doing, TaskStatus::Done, TaskStatus::Done]);
}

#[test]
fn backward_chain_stops_at_todo() {
    let mut t = task_at("chain", TaskStatus::Done, 1, 8);
    let mut seen = Vec::new();
    for k in 0..3u32 {
        let before_path = t.file_path(ROOT);
        let before_updated = t.updated_at;
        let moved = t.backward_status(at(10 + k));
        seen.push(t.status);
        if k == 2 {
            assert!(!moved);
            assert_eq!(t.file_path(ROOT), before_path);
            assert_eq!(t.updated_at, before_updated);
        } else {
            assert!(moved);
        }
    }
    assert_eq!(seen, vec![TaskStatus::Doing, TaskStatus::Todo, TaskStatus::Todo]);
}

#[test]
fn sort_orders_within_group_by_creation() {
    let later = task_at("later", TaskStatus::Todo, 40, 1);
    let earlier = task_at("earlier", TaskStatus::Todo, 20, 2);
    let doing = task_at("doing", TaskStatus::Doing, 5, 3);
    let sorted = Task::sort(vec![doing, later, earlier]);
    let names: Vec<&str> = sorted.iter().map(|t| t.name.as_str()).collect();
    assert_eq!(names, vec!["earlier", "later", "doing"]);
}

#[test]
fn sort_keeps_equal_times_in_order() {
    let a = task_at("a", TaskStatus::Todo, 5, 1);
    let b = task_at("b", TaskStatus::Todo, 5, 2);
    let c = task_at("c", TaskStatus::Todo, 1, 3);
    let sorted = Task::sort(vec![a, b, c]);
    let names: Vec<&str> = sorted.iter().map(|t| t.name.as_str()).collect();
    assert_eq!(names, vec!["c", "a", "b"]);
    assert!(Task::sort(Vec::new()).is_empty());
}

#[test]
fn lenient_bulk_load_skips_bad_files() {
    let good = task_at("good", TaskStatus::Todo, 3, 1);
    let files = vec![
        StoredFile { status: TaskStatus::Todo, name: good.file_name(), text: encode(&good) },
        StoredFile { status: TaskStatus::Todo, name: "broken.md".to_string(), text: "---\nid: nope\n".to_string() },
    ];
    let loaded = Task::load_by_status(&files);
    assert_eq!(loaded.len(), 1);
    assert_eq!(loaded[0].name, "good");
}

#[test]
fn bulk_load_needs_md_extension_and_sorts() {
    let a = task_at("a", TaskStatus::Doing, 9, 1);
    let b = task_at("b", TaskStatus::Todo, 2, 2);
    let files = vec![
        StoredFile { status: TaskStatus::Doing, name: a.file_name(), text: encode(&a) },
        StoredFile { status: TaskStatus::Todo, name: "notes.txt".to_string(), text: encode(&b) },
        StoredFile { status: TaskStatus::Todo, name: b.file_name(), text: encode(&b) },
    ];
    let loaded = Task::load_by_status(&files);
    let names: Vec<&str> = loaded.iter().map(|t| t.name.as_str()).collect();
    assert_eq!(names, vec!["b", "a"]);
    assert_eq!(loaded[1].status, TaskStatus::Doing);
    assert!(is_record_file_name("x.md"));
    assert!(!is_record_file_name(".md"));
    assert!(!is_record_file_name("x.mdx"));
}

#[test]
fn paths_follow_status_and_id() {
    let t = task_at("p", TaskStatus::Done, 1, 0x10);
    assert_eq!(Task::status_dir("/r", TaskStatus::Doing), "/r/doing");
    assert_eq!(t.file_path("/r"), format!("/r/done/{}.md", t.id.to_text()));
    assert_eq!(t.file_name(), "67e55044-10b1-426f-0000-000000000010.md");
    assert_eq!(TaskStatus::Todo.dir_name(), "todo");
}

#[test]
fn wrap_keeps_short_names_and_fills_lines() {
    assert_eq!(wrap_task_name("short", 10), vec!["short".to_string()]);
    assert_eq!(wrap_task_name("any length", 0), vec!["any length".to_string()]);
    assert_eq!(
        wrap_task_name("buy  milk and\teggs tomorrow", 9),
        vec!["buy milk".to_string(), "and eggs".to_string(), "tomorrow".to_string()]
    );
    assert_eq!(wrap_task_name("extraordinarily long", 5), vec!["extraordinarily".to_string(), "long".to_string()]);
    assert!(wrap_task_name("      ", 3).is_empty());
}

#[test]
fn white_space_matches_std() {
    for x in 0u32..0x3100 {
        if let Some(c) = char::from_u32(x) {
            assert_eq!(is_white_char(c), c.is_whitespace(), "{:?}", c);
        }
    }
}

#[test]
fn decode_reads_single_quoted_and_escaped_names() {
    let text = "---\nid: 67e55044-10b1-426f-9247-bb680e5fe0c8\nname: 'it''s 42'\ncreated_at: 2024-05-07T09:03:04Z\nupdated_at: 2024-05-07T09:03:04Z\n---\n";
    assert_eq!(decode(text, TaskStatus::Todo).unwrap().name, "it's 42");
    let text = "---\nid: 67e55044-10b1-426f-9247-bb680e5fe0c8\nname: \"a\\tb\\/c\"\ncreated_at: 2024-05-07T09:03:04Z\nupdated_at: 2024-05-07T09:03:04Z\n---\n";
    assert_eq!(decode(text, TaskStatus::Todo).unwrap().name, "a\tb/c");
    let text = "---\nid: 67e55044-10b1-426f-9247-bb680e5fe0c8\nname: 'it's'\ncreated_at: 2024-05-07T09:03:04Z\nupdated_at: 2024-05-07T09:03:04Z\n---\n";
    assert_eq!(decode(text, TaskStatus::Todo).unwrap_err(), RecordError::MalformedRecord);
    let text = "---\nid: 67e55044-10b1-426f-9247-bb680e5fe0c8\nname: \"bad \\q escape\"\ncreated_at: 2024-05-07T09:03:04Z\nupdated_at: 2024-05-07T09:03:04Z\n---\n";
    assert_eq!(decode(text, TaskStatus::Todo).unwrap_err(), RecordError::MalformedRecord);
}

#[test]
fn sort_puts_done_doing_todo_in_group_order() {
    let done = task_at("done", TaskStatus::Done, 1, 1);
    let doing = task_at("doing", TaskStatus::Doing, 2, 2);
    let todo = task_at("todo", TaskStatus::Todo, 3, 3);
    let sorted = Task::sort(vec![done, doing, todo]);
    let statuses: Vec<TaskStatus> = sorted.iter().map(|t| t.status).collect();
    assert_eq!(statuses, vec![TaskStatus::Todo, TaskStatus::Doing, TaskStatus::Done]);
}

#[test]
fn restamp_keeps_the_body() {
    let old = task_at("old", TaskStatus::Todo, 1, 4);
    let mut moved = old.clone();
    moved.update_status(TaskStatus::Doing, at(9));
    let text = format!("{}my notes\n- item\n", encode(&old));
    let new_text = restamp(&text, &moved);
    assert_eq!(new_text, format!("{}my notes\n- item\n", encode(&moved)));
    assert_eq!(decode(&new_text, TaskStatus::Doing).unwrap().updated_at, at(9));
    assert_eq!(restamp("loose text", &moved), format!("{}loose text", encode(&moved)));
    assert_eq!(restamp(&encode(&old), &moved), encode(&moved));
}

#[test]
fn timestamps_respect_month_lengths() {
    assert!(Timestamp::parse("2024-02-29T00:00:00Z").is_some());
    assert!(Timestamp::parse("2023-02-29T00:00:00Z").is_none());
    assert!(Timestamp::parse("2024-02-31T00:00:00Z").is_none());
    assert!(Timestamp::parse("2024-04-31T00:00:00Z").is_none());
    assert!(Timestamp::parse("1900-02-29T00:00:00Z").is_none());
    assert!(Timestamp::parse("2000-02-29T00:00:00Z").is_some());
    let text = "---\nid: 67e55044-10b1-426f-9247-bb680e5fe0c8\nname: a\ncreated_at: 2024-02-31T09:03:04Z\nupdated_at: 2024-05-07T09:03:04Z\n---\n";
    assert_eq!(decode(text, TaskStatus::Todo).unwrap_err(), RecordError::MalformedRecord);
}

#[test]
fn new_ids_are_version_four() {
    let id = TaskId::new_random();
    assert_eq!(id.hi & 0xF000, 0x4000);
    assert_eq!(id.lo & 0xC000_0000_0000_0000, 0x8000_0000_0000_0000);
    assert_eq!(id.to_text().chars().nth(14), Some('4'));
}

#[test]
fn from_fields_holds_leap_second_as_sixty() {
    let t = Timestamp::from_fields(2016, 12, 31, 23, 59, 59, 1_500_000_000).unwrap();
    assert_eq!((t.second, t.nanosecond), (60, 500_000_000));
    let t = Timestamp::from_fields(2016, 12, 31, 23, 59, 59, 999).unwrap();
    assert_eq!((t.second, t.nanosecond), (59, 999));
    assert_eq!(Timestamp::from_fields(-1, 1, 1, 0, 0, 0, 0), None);
    assert_eq!(Timestamp::from_fields(2023, 2, 29, 0, 0, 0, 0), None);
    assert_eq!(Timestamp::from_fields(2024, 1, 1, 0, 0, 60, 0), None);
    assert_eq!(Timestamp::from_fields(2024, 1, 1, 0, 0, 0, 2_000_000_000), None);
}

#[test]
fn new_task_takes_given_id_and_time() {
    let id = TaskId { hi: 0x4000, lo: 0x8000_0000_0000_0000 };
    let t = Task::new("given".to_string(), id, at(7));
    assert_eq!(t.id, id);
    assert_eq!(t.created_at, at(7));
    assert_eq!(t.updated_at, at(7));
    assert_eq!(t.status, TaskStatus::Todo);
}
