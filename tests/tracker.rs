use task_tracker::codec::{decode_tasks, encode_tasks, DecodeError};
use task_tracker::command::{parse_index, priority_input, Command};
use task_tracker::datetime::{due_status, parse_due_input, status_at, DateTime, DueInput, DueStatus};
use task_tracker::manager::TaskManager;
use task_tracker::priority::{Color, Priority};
use task_tracker::task::Task;

fn dt(y: i64, mo: i64, d: i64, h: i64, mi: i64) -> DateTime {
    DateTime::new(y, mo, d, h, mi, 0).unwrap()
}

fn names(m: &TaskManager) -> Vec<String> {
    (0..m.len()).map(|i| m.get(i).description.clone()).collect()
}

#[test]
fn priority_colors_and_codes() {
    assert_eq!(Priority::High.color(), Color::Red);
    assert_eq!(Priority::Medium.color(), Color::Yellow);
    assert_eq!(Priority::Low.color(), Color::Green);
    assert_eq!(Priority::High.code(), 0);
    assert_eq!(Priority::Medium.code(), 1);
    assert_eq!(Priority::Low.code(), 2);
    assert_eq!(Priority::from_code(2), Some(Priority::Low));
    assert_eq!(Priority::from_code(9), None);
    assert!(Priority::High.precedes(&Priority::Low));
    assert!(!Priority::Low.precedes(&Priority::Medium));
}

#[test]
fn add_keeps_list_sorted_and_stable() {
    let mut m = TaskManager::new();
    m.add_task("a".to_string(), Priority::Low, None);
    assert_eq!(names(&m), vec!["a"]);
    m.add_task("b".to_string(), Priority::Medium, None);
    assert_eq!(names(&m), vec!["b", "a"]);
    m.add_task("c".to_string(), Priority::High, None);
    assert_eq!(names(&m), vec!["c", "b", "a"]);
    m.add_task("d".to_string(), Priority::Medium, None);
    assert_eq!(names(&m), vec!["c", "b", "d", "a"]);
    m.add_task("e".to_string(), Priority::High, None);
    assert_eq!(names(&m), vec!["c", "e", "b", "d", "a"]);
    m.add_task("f".to_string(), Priority::Low, None);
    assert_eq!(names(&m), vec!["c", "e", "b", "d", "a", "f"]);
    for i in 0..m.len() {
        assert!(!m.get(i).completed);
    }
}

#[test]
fn add_resorts_an_unsorted_loaded_list() {
    let mut m = TaskManager::new();
    let text = "[{\"description\":\"x\",\"completed\":false,\"priority\":2,\"due_time\":null},{\"description\":\"y\",\"completed\":true,\"priority\":0,\"due_time\":null}]";
    assert!(m.load_text(text).is_ok());
    assert_eq!(names(&m), vec!["x", "y"]);
    m.add_task("z".to_string(), Priority::Medium, None);
    assert_eq!(names(&m), vec!["y", "z", "x"]);
}

#[test]
fn complete_in_and_out_of_range() {
    let mut m = TaskManager::new();
    m.add_task("one".to_string(), Priority::High, None);
    m.add_task("two".to_string(), Priority::Low, Some(dt(2030, 1, 2, 3, 4)));
    m.complete_task(1);
    assert!(!m.get(0).completed);
    assert!(m.get(1).completed);
    assert_eq!(m.get(1).description, "two");
    assert_eq!(m.get(1).priority, Priority::Low);
    assert_eq!(m.get(1).due_time, Some(dt(2030, 1, 2, 3, 4)));
    let before = m.save_text();
    m.complete_task(2);
    m.complete_task(usize::MAX);
    assert_eq!(m.save_text(), before);
    assert_eq!(m.len(), 2);
}

#[test]
fn encoding_is_exact() {
    let t = Task::new("Buy milk".to_string(), Priority::Medium, None);
    assert_eq!(
        t.to_json(),
        "{\"description\":\"Buy milk\",\"completed\":false,\"priority\":1,\"due_time\":null}"
    );
    let t = Task::new("a\"b\\c\nd\u{1}e\u{1f}".to_string(), Priority::High, Some(dt(2024, 3, 5, 14, 30)));
    assert_eq!(
        t.to_json(),
        "{\"description\":\"a\\\"b\\\\c\\nd\\u0001e\\u001f\",\"completed\":false,\"priority\":0,\"due_time\":\"2024-03-05T14:30:00\"}"
    );
    assert_eq!(encode_tasks(&Vec::new()), "[]");
}

#[test]
fn escaping_agrees_with_serde_json() {
    let d = "tab\there \u{8}\u{c}\r\n \u{7} \u{1b}[A \"q\" \\ é ✓ /";
    let t = Task::new(d.to_string(), Priority::Low, None);
    let json = t.to_json();
    let expected_desc = serde_json::to_string(d).unwrap();
    assert!(json.contains(&format!("\"description\":{}", expected_desc)));
    let v: serde_json::Value = serde_json::from_str(&json).unwrap();
    assert_eq!(v["description"].as_str(), Some(d));
    assert_eq!(v["priority"].as_u64(), Some(2));
    assert_eq!(v["completed"].as_bool(), Some(false));
    assert!(v["due_time"].is_null());
}

#[test]
fn round_trip_preserves_every_field() {
    let mut m = TaskManager::new();
    m.add_task("plain".to_string(), Priority::Low, None);
    m.add_task("with \"quotes\"\tand\u{2}".to_string(), Priority::High, Some(dt(2024, 2, 29, 23, 59)));
    m.add_task("".to_string(), Priority::Medium, Some(dt(0, 1, 1, 0, 0)));
    m.complete_task(1);
    let text = m.save_text();
    let back = decode_tasks(&text).unwrap();
    assert_eq!(back.len(), 3);
    for i in 0..3 {
        let a = m.get(i);
        let b = &back[i];
        assert_eq!(a.description, b.description);
        assert_eq!(a.completed, b.completed);
        assert_eq!(a.priority, b.priority);
        assert_eq!(a.due_time, b.due_time);
    }
    let empty = TaskManager::new();
    assert_eq!(decode_tasks(&empty.save_text()).unwrap().len(), 0);
}

#[test]
fn save_twice_is_identical() {
    let mut m = TaskManager::new();
    m.add_task("x".to_string(), Priority::High, Some(dt(2025, 12, 31, 8, 5)));
    m.add_task("y".to_string(), Priority::Low, None);
    let a = m.save_text();
    let b = m.save_text();
    assert_eq!(a, b);
    let mut again = TaskManager::new();
    again.load_text(&a).unwrap();
    assert_eq!(again.save_text(), a);
}

#[test]
fn task_json_round_trip() {
    let t = Task::new("é\u{0}".to_string(), Priority::Low, Some(dt(1999, 12, 31, 23, 0)));
    let back = Task::from_json(&t.to_json()).unwrap();
    assert_eq!(back.description, t.description);
    assert_eq!(back.due_time, t.due_time);
    assert_eq!(back.priority, Priority::Low);
    assert!(Task::from_json("{}").is_err());
}

#[test]
fn due_status_derivation() {
    let now = dt(2024, 3, 5, 10, 0);
    assert_eq!(due_status(&dt(2024, 3, 5, 12, 0), &now), DueStatus::Remaining(2));
    assert_eq!(due_status(&dt(2024, 3, 5, 11, 59), &now), DueStatus::Remaining(1));
    assert_eq!(due_status(&dt(2024, 3, 6, 10, 0), &now), DueStatus::Remaining(24));
    assert_eq!(due_status(&dt(2024, 3, 1, 10, 0), &dt(2024, 2, 28, 10, 0)), DueStatus::Remaining(48));
    assert_eq!(due_status(&dt(2023, 3, 1, 10, 0), &dt(2023, 2, 28, 10, 0)), DueStatus::Remaining(24));
    assert_eq!(due_status(&now, &now), DueStatus::Overdue);
    assert_eq!(due_status(&dt(2024, 3, 5, 9, 0), &now), DueStatus::Overdue);
    assert_eq!(status_at(7200, 0), DueStatus::Remaining(2));
    assert_eq!(status_at(7199, 0), DueStatus::Remaining(1));
    assert_eq!(status_at(5, 5), DueStatus::Overdue);
    assert_eq!(DueStatus::Remaining(3).color(), Color::Green);
    assert_eq!(DueStatus::Overdue.color(), Color::Red);
}

#[test]
fn entries_show_each_task() {
    let mut m = TaskManager::new();
    m.add_task("late".to_string(), Priority::Low, Some(dt(2024, 1, 1, 0, 0)));
    m.add_task("soon".to_string(), Priority::High, Some(dt(2024, 3, 5, 13, 30)));
    m.add_task("free".to_string(), Priority::Medium, None);
    m.complete_task(0);
    let now = dt(2024, 3, 5, 10, 0);
    let e = m.entries(Some(now));
    let plain = m.entries(None);
    assert_eq!(plain.len(), 3);
    assert_eq!(plain[0].status, None);
    assert_eq!(plain[0].description, "soon");
    assert_eq!(e.len(), 3);
    assert_eq!(e[0].index, 0);
    assert_eq!(e[0].description, "soon");
    assert_eq!(e[0].marker(), "[x]");
    assert_eq!(e[0].color, Color::Red);
    assert_eq!(e[0].status, Some(DueStatus::Remaining(3)));
    assert_eq!(e[1].description, "free");
    assert_eq!(e[1].marker(), "[ ]");
    assert_eq!(e[1].color, Color::Yellow);
    assert_eq!(e[1].status, None);
    assert_eq!(e[2].index, 2);
    assert_eq!(e[2].color, Color::Green);
    assert_eq!(e[2].status, Some(DueStatus::Overdue));
}

#[test]
fn end_to_end_scenario() {
    let mut m = TaskManager::new();
    m.add_task("Buy milk".to_string(), Priority::Medium, None);
    m.add_task("Fix bug".to_string(), Priority::High, None);
    assert_eq!(names(&m), vec!["Fix bug", "Buy milk"]);
    assert_eq!(m.get(0).priority, Priority::High);
    assert_eq!(m.get(1).priority, Priority::Medium);
    m.complete_task(0);
    assert!(m.get(0).completed);
    assert!(!m.get(1).completed);
    let saved = m.save_text();
    let mut fresh = TaskManager::new();
    assert!(fresh.load_text(&saved).is_ok());
    assert_eq!(names(&fresh), vec!["Fix bug", "Buy milk"]);
    assert!(fresh.get(0).completed);
    assert!(!fresh.get(1).completed);
    assert_eq!(fresh.get(0).priority, Priority::High);
    assert_eq!(fresh.get(1).priority, Priority::Medium);
}

#[test]
fn malformed_file_is_rejected() {
    let mut m = TaskManager::new();
    let bad = "[{\"description\":\"x\",\"completed\":false,\"priority\":9,\"due_time\":null}]";
    assert_eq!(m.load_text(bad), Err(DecodeError::Malformed));
    assert_eq!(m.len(), 0);
    for text in [
        "",
        "[",
        "[}",
        "not json",
        "[{\"description\":\"x\",\"completed\":maybe,\"priority\":1,\"due_time\":null}]",
        "[{\"description\":\"x\",\"completed\":false,\"priority\":1,\"due_time\":\"2024-13-01T00:00:00\"}]",
        "[{\"description\":\"x\",\"completed\":false,\"priority\":1,\"due_time\":\"2023-02-29T00:00:00\"}]",
        "[{\"description\":\"x\",\"completed\":false,\"priority\":1,\"due_time\":null}]x",
        "[{\"description\":\"x\",\"completed\":false,\"priority\":1,\"due_time\":null},]",
    ] {
        assert!(decode_tasks(text).is_err(), "{}", text);
    }
    m.add_task("keep".to_string(), Priority::Low, None);
    assert!(m.load_text(bad).is_err());
    assert_eq!(names(&m), vec!["keep"]);
    assert!(!DecodeError::Malformed.message().is_empty());
}

#[test]
fn date_validation() {
    assert!(DateTime::new(2024, 2, 29, 0, 0, 0).is_some());
    assert!(DateTime::new(2023, 2, 29, 0, 0, 0).is_none());
    assert!(DateTime::new(1900, 2, 29, 0, 0, 0).is_none());
    assert!(DateTime::new(2000, 2, 29, 0, 0, 0).is_some());
    assert!(DateTime::new(2024, 4, 31, 0, 0, 0).is_none());
    assert!(DateTime::new(2024, 1, 1, 24, 0, 0).is_none());
    assert!(DateTime::new(10000, 1, 1, 0, 0, 0).is_none());
}

#[test]
fn due_input_forms() {
    assert_eq!(parse_due_input(""), DueInput::Absent);
    assert_eq!(parse_due_input("14:30 05-03-2024"), DueInput::At(dt(2024, 3, 5, 14, 30)));
    assert_eq!(parse_due_input("tomorrow"), DueInput::Invalid);
    assert_eq!(parse_due_input("25:00 05-03-2024"), DueInput::Invalid);
    assert_eq!(parse_due_input("10:00 31-04-2024"), DueInput::Invalid);
}

#[test]
fn commands_and_inputs() {
    assert_eq!(Command::parse("add"), Command::Add);
    assert_eq!(Command::parse("complete"), Command::Complete);
    assert_eq!(Command::parse("print"), Command::Print);
    assert_eq!(Command::parse("quit"), Command::Quit);
    assert_eq!(Command::parse("Quit"), Command::Unknown);
    assert_eq!(Command::parse(""), Command::Unknown);
    assert!(Command::Quit.ends_session());
    assert!(!Command::Add.ends_session());
    assert_eq!(priority_input("high"), (Priority::High, false));
    assert_eq!(priority_input("medium"), (Priority::Medium, false));
    assert_eq!(priority_input("low"), (Priority::Low, false));
    assert_eq!(priority_input("HIGH"), (Priority::Medium, true));
    assert_eq!(priority_input(""), (Priority::Medium, true));
    assert_eq!(parse_index("0"), Some(0));
    assert_eq!(parse_index("42"), Some(42));
    assert_eq!(parse_index("+7"), Some(7));
    assert_eq!(parse_index(""), None);
    assert_eq!(parse_index("+"), None);
    assert_eq!(parse_index("-1"), None);
    assert_eq!(parse_index("4x"), None);
    assert_eq!(parse_index("18446744073709551615"), Some(usize::MAX));
    assert_eq!(parse_index("18446744073709551616"), None);
    assert_eq!(parse_index("99999999999999999999999"), None);
}

#[test]
fn any_json_layout_is_read() {
    let mut m = TaskManager::new();
    assert!(m.load_text(" []").is_ok());
    assert_eq!(m.len(), 0);
    let text = " [ {\n  \"priority\" : 2, \"extra\": [1, {\"a\": null}],\n  \"completed\": true,\n  \"description\": \"a\\/b \\u00e9\\u00E9 \\ud83d\\ude00\"\n },\n {\"description\":\"x\",\"completed\":false,\"priority\":0,\"due_time\":\"2024-01-01T10:30:00.250\"} ]\n";
    assert!(m.load_text(text).is_ok());
    assert_eq!(m.len(), 2);
    assert_eq!(m.get(0).description, "a/b éé 😀");
    assert!(m.get(0).completed);
    assert_eq!(m.get(0).priority, Priority::Low);
    assert_eq!(m.get(0).due_time, None);
    assert_eq!(m.get(1).priority, Priority::High);
    assert_eq!(m.get(1).due_time, Some(dt(2024, 1, 1, 10, 30)));
    let t = Task::from_json(" {\"completed\":false,\"description\":\"y\",\"priority\":1} ").unwrap();
    assert_eq!(t.description, "y");
    assert_eq!(t.priority, Priority::Medium);
    assert_eq!(t.due_time, None);
}

#[test]
fn json_records_with_wrong_members_are_rejected() {
    for text in [
        "[{\"description\":\"x\",\"completed\":false,\"priority\":1.0}]",
        "[{\"description\":\"x\",\"completed\":false,\"priority\":-1}]",
        "[{\"description\":\"x\",\"completed\":false,\"priority\":3}]",
        "[{\"description\":\"x\",\"completed\":\"no\",\"priority\":1}]",
        "[{\"description\":5,\"completed\":false,\"priority\":1}]",
        "[{\"completed\":false,\"priority\":1}]",
        "[{\"description\":\"x\",\"completed\":false,\"priority\":1,\"due_time\":5}]",
        "[{\"description\":\"x\",\"completed\":false,\"priority\":1,\"due_time\":\"soon\"}]",
        "{\"description\":\"x\",\"completed\":false,\"priority\":1}",
        "[1]",
    ] {
        assert!(decode_tasks(text).is_err(), "{}", text);
    }
    assert!(Task::from_json("[]").is_err());
}
