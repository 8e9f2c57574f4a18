use bingo_todo::model::{DailyCard, Task, Timestamp};
use bingo_todo::text::{contains_text, decimal_string, file_safe_text, join_strings, trim_text};

fn task(id: u128, description: &str, completed: bool) -> Task {
    Task {
        id,
        description: description.to_string(),
        completed,
        notes: None,
        tags: vec![],
    }
}

fn card(domain: &str, tasks: Vec<Task>, tags: &[&str]) -> DailyCard {
    DailyCard {
        id: 1,
        domain: domain.to_string(),
        date: "2024-05-01".to_string(),
        tasks,
        created_at: Timestamp { secs: 1_714_521_600, nanos: 0 },
        tags: tags.iter().map(|t| t.to_string()).collect(),
    }
}

#[test]
fn decimal_string_writes_numbers() {
    assert_eq!(decimal_string(0), "0");
    assert_eq!(decimal_string(7), "7");
    assert_eq!(decimal_string(10), "10");
    assert_eq!(decimal_string(42), "42");
    assert_eq!(decimal_string(1_234_567), "1234567");
    assert_eq!(decimal_string(usize::MAX), usize::MAX.to_string());
}

#[test]
fn join_strings_puts_separator_between_parts() {
    assert_eq!(join_strings(&vec![], ", "), "");
    assert_eq!(join_strings(&vec!["a".to_string()], ", "), "a");
    let parts = vec!["a".to_string(), "b".to_string(), "c".to_string()];
    assert_eq!(join_strings(&parts, ", "), "a, b, c");
}

#[test]
fn file_safe_text_replaces_spaces_and_slashes() {
    assert_eq!(file_safe_text("Linux Server Maintenance"), "Linux_Server_Maintenance");
    assert_eq!(file_safe_text("a/b c"), "a_b_c");
    assert_eq!(file_safe_text("été x"), "été_x");
    assert_eq!(file_safe_text(""), "");
    assert_eq!(file_safe_text("no-change"), "no-change");
}

#[test]
fn contains_text_compares_whole_texts() {
    let v = vec!["node".to_string(), "shielded".to_string()];
    assert!(contains_text(&v, &"node".to_string()));
    assert!(!contains_text(&v, &"nod".to_string()));
    assert!(!contains_text(&vec![], &"node".to_string()));
}

#[test]
fn completion_counts_counts_done_tasks() {
    let c = card("D", vec![task(1, "a", true), task(2, "b", false), task(3, "c", true)], &[]);
    assert_eq!(c.completion_counts(), (2, 3));
    let empty = card("D", vec![], &[]);
    assert_eq!(empty.completion_counts(), (0, 0));
}

#[test]
fn display_name_uses_tags_then_domain() {
    let tagged = card("Zcash Node Operations", vec![], &["urgent", "weekly"]);
    assert_eq!(tagged.display_name(), "urgent, weekly");
    let plain = card("Zcash Node Operations", vec![], &[]);
    assert_eq!(plain.display_name(), "Zcash Node Operations");
}

#[test]
fn export_file_name_is_safe_domain_and_date() {
    let c = card("Crypto Portfolio & Privacy", vec![], &[]);
    assert_eq!(c.export_file_name(), "Crypto_Portfolio_&_Privacy_2024-05-01.json");
    let slash = card("a/b", vec![], &[]);
    assert_eq!(slash.export_file_name(), "a_b_2024-05-01.json");
}

#[test]
fn add_tag_refuses_empty_and_repeated_tags() {
    let mut c = card("D", vec![], &["x"]);
    assert!(!c.add_tag(String::new()));
    assert!(!c.add_tag("x".to_string()));
    assert!(c.add_tag("y".to_string()));
    assert_eq!(c.tags, vec!["x".to_string(), "y".to_string()]);
}

#[test]
fn remove_tag_undoes_add_tag() {
    let mut c = card("D", vec![], &["x"]);
    assert!(c.add_tag("y".to_string()));
    c.remove_tag(1);
    assert_eq!(c.tags, vec!["x".to_string()]);
}

#[test]
fn add_task_then_delete_task_restores_tasks() {
    let mut c = card("D", vec![task(1, "a", true)], &[]);
    c.add_task(9, "new".to_string());
    assert_eq!(c.tasks.len(), 2);
    assert_eq!(c.tasks[1].id, 9);
    assert_eq!(c.tasks[1].description, "new");
    assert!(!c.tasks[1].completed);
    assert!(c.tasks[1].notes.is_none());
    assert!(c.tasks[1].tags.is_empty());
    c.delete_task(1);
    assert_eq!(c.tasks.len(), 1);
    assert_eq!(c.tasks[0].id, 1);
}

#[test]
fn toggle_task_twice_restores_card() {
    let mut c = card("D", vec![task(1, "a", false), task(2, "b", true)], &[]);
    c.toggle_task(0);
    assert!(c.tasks[0].completed);
    assert!(c.tasks[1].completed);
    c.toggle_task(0);
    assert!(!c.tasks[0].completed);
    assert!(c.tasks[1].completed);
}

#[test]
fn sync_from_template_appends_missing_in_template_order() {
    let template = vec![task(10, "t10", false), task(11, "t11", false), task(12, "t12", false)];
    let mut c = card("D", vec![task(11, "mine", true), task(99, "extra", false)], &[]);
    let added = c.sync_from_template(&template);
    assert_eq!(added, 2);
    let ids: Vec<u128> = c.tasks.iter().map(|t| t.id).collect();
    assert_eq!(ids, vec![11, 99, 10, 12]);
    assert_eq!(c.tasks[0].description, "mine");
    assert_eq!(c.sync_from_template(&template), 0);
    assert_eq!(c.tasks.len(), 4);
}

#[test]
fn sync_from_template_adds_repeated_template_ids_each_time() {
    let template = vec![task(5, "first", false), task(5, "second", false)];
    let mut c = card("D", vec![], &[]);
    assert_eq!(c.sync_from_template(&template), 2);
    assert_eq!(c.tasks.len(), 2);
    assert_eq!(c.sync_from_template(&template), 0);
}

#[test]
fn for_domain_copies_template_with_no_tags() {
    let template = vec![task(1, "a", false), task(2, "b", true)];
    let c = DailyCard::for_domain(
        77,
        &"Key".to_string(),
        &template,
        "2024-01-02".to_string(),
        Timestamp { secs: 5, nanos: 6 },
    );
    assert_eq!(c.id, 77);
    assert_eq!(c.domain, "Key");
    assert_eq!(c.date, "2024-01-02");
    assert_eq!(c.tasks.len(), 2);
    assert_eq!(c.tasks[1].description, "b");
    assert!(c.tasks[1].completed);
    assert!(c.tags.is_empty());
    assert_eq!(c.created_at, Timestamp { secs: 5, nanos: 6 });
}

#[test]
fn trim_text_matches_str_trim() {
    let samples = [
        "",
        "   ",
        "  urgent\t",
        "a b",
        "\u{3000}tag\u{2003}\n",
        "\u{85}\u{a0}x\u{1680}\u{2028}\u{2029}\u{202f}\u{205f}",
        "\u{200b}zero width\u{200b}",
        "\u{feff}bom",
        "\u{b}\u{c}\r\u{2000}\u{200a}",
        "été ",
    ];
    for s in samples {
        assert_eq!(trim_text(s), s.trim(), "sample {:?}", s);
    }
    assert_eq!(trim_text("  Write report \u{2003}"), "Write report");
    assert_eq!(trim_text("\u{200b}"), "\u{200b}");
}
