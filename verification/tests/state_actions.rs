use bingo_todo::model::{AppData, DailyCard, Domain, DomainEntry, Rgb, Task, Timestamp};
use bingo_todo::state::{Screen, Theme, TodoState};

const V4_MASK: u128 = 0x0000_0000_0000_F000_C000_0000_0000_0000;
const V4_BITS: u128 = 0x0000_0000_0000_4000_8000_0000_0000_0000;

fn task(id: u128, description: &str, completed: bool) -> Task {
    Task {
        id,
        description: description.to_string(),
        completed,
        notes: None,
        tags: vec![],
    }
}

fn card(id: u128, domain: &str, tasks: Vec<Task>, secs: i64) -> DailyCard {
    DailyCard {
        id,
        domain: domain.to_string(),
        date: "2024-05-01".to_string(),
        tasks,
        created_at: Timestamp { secs, nanos: 0 },
        tags: vec![],
    }
}

fn entry(name: &str, accent: Rgb, template: Vec<Task>) -> DomainEntry {
    DomainEntry {
        key: name.to_string(),
        domain: Domain { name: name.to_string(), accent, template_tasks: template },
    }
}

fn sample_state() -> TodoState {
    let data = AppData {
        domains: vec![
            entry(
                "Ops",
                Rgb { r: 1, g: 2, b: 3 },
                vec![task(10, "a", false), task(11, "b", false), task(12, "c", false)],
            ),
            entry("Home", Rgb { r: 4, g: 5, b: 6 }, vec![task(20, "d", false)]),
        ],
        open_cards: vec![
            card(100, "Ops", vec![task(10, "a", true)], 300),
            card(101, "Home", vec![], 100),
            card(102, "Gone", vec![task(30, "x", false)], 200),
        ],
        archived_cards: vec![card(103, "Ops", vec![task(10, "a", true), task(11, "b", true)], 50)],
        current_card_index: Some(1),
    };
    TodoState::new(data)
}

#[test]
fn new_state_starts_ready_on_daily_page() {
    let s = sample_state();
    assert_eq!(s.status_message, "Ready");
    assert_eq!(s.current_view, Screen::Daily);
    assert_eq!(s.theme, Theme::Dark);
    assert!(s.new_task_text.is_empty());
    assert!(s.new_tag_text.is_empty());
    assert!(s.visible_domains.is_empty());
}

#[test]
fn default_domains_hold_the_starting_templates() {
    let d = AppData::default_domains();
    let names: Vec<&str> = d.iter().map(|e| e.key.as_str()).collect();
    assert_eq!(
        names,
        vec!["Zcash Node Operations", "Linux Server Maintenance", "Crypto Portfolio & Privacy"]
    );
    assert_eq!(d[0].domain.accent, Rgb { r: 0, g: 150, b: 136 });
    assert_eq!(d[1].domain.accent, Rgb { r: 255, g: 152, b: 0 });
    assert_eq!(d[2].domain.accent, Rgb { r: 103, g: 58, b: 183 });
    assert_eq!(d[0].domain.template_tasks.len(), 4);
    assert_eq!(d[1].domain.template_tasks.len(), 3);
    assert_eq!(d[2].domain.template_tasks.len(), 2);
    assert_eq!(d[0].domain.template_tasks[0].description, "Check zebrad sync height and status");
    assert_eq!(d[0].domain.template_tasks[0].tags, vec!["node".to_string()]);
    assert_eq!(d[2].domain.template_tasks[1].description, "Check portfolio allocation and alerts");
    assert_eq!(d[2].domain.template_tasks[1].tags, vec!["portfolio".to_string()]);
    let mut ids = vec![];
    for e in &d {
        assert_eq!(e.key, e.domain.name);
        for t in &e.domain.template_tasks {
            assert!(!t.completed);
            assert!(t.notes.is_none());
            assert_eq!(t.id & V4_MASK, V4_BITS);
            ids.push(t.id);
        }
    }
    ids.sort();
    ids.dedup();
    assert_eq!(ids.len(), 9);
}

#[test]
fn fresh_data_has_no_cards() {
    let data = AppData::with_default_domains();
    assert_eq!(data.domains.len(), 3);
    assert!(data.open_cards.is_empty());
    assert!(data.archived_cards.is_empty());
    assert_eq!(data.current_card_index, None);
}

#[test]
fn accent_color_falls_back_to_grey() {
    let s = sample_state();
    assert_eq!(s.get_accent_color(&"Home".to_string()), Rgb { r: 4, g: 5, b: 6 });
    assert_eq!(s.get_accent_color(&"Gone".to_string()), Rgb { r: 150, g: 150, b: 150 });
}

#[test]
fn sync_missing_tasks_reports_and_is_idempotent() {
    let mut s = sample_state();
    assert!(s.sync_missing_tasks(0));
    assert_eq!(s.status_message, "Synced 2 missing task(s)");
    let ids: Vec<u128> = s.data.open_cards[0].tasks.iter().map(|t| t.id).collect();
    assert_eq!(ids, vec![10, 11, 12]);
    assert!(s.data.open_cards[0].tasks[0].completed);
    assert!(s.sync_missing_tasks(0));
    assert_eq!(s.status_message, "Synced 0 missing task(s)");
    assert_eq!(s.data.open_cards[0].tasks.len(), 3);
}

#[test]
fn sync_missing_tasks_ignores_unknown_domain_and_bad_index() {
    let mut s = sample_state();
    assert!(!s.sync_missing_tasks(2));
    assert!(!s.sync_missing_tasks(7));
    assert_eq!(s.status_message, "Ready");
    assert_eq!(s.data.open_cards[2].tasks.len(), 1);
}

#[test]
fn archive_current_card_moves_selected_card() {
    let mut s = sample_state();
    assert!(s.archive_current_card());
    let open: Vec<u128> = s.data.open_cards.iter().map(|c| c.id).collect();
    let archived: Vec<u128> = s.data.archived_cards.iter().map(|c| c.id).collect();
    assert_eq!(open, vec![100, 102]);
    assert_eq!(archived, vec![103, 101]);
    assert_eq!(s.data.current_card_index, Some(0));
}

#[test]
fn archive_current_card_of_last_open_card_clears_selection() {
    let mut s = sample_state();
    s.data.open_cards.truncate(1);
    s.select_card(0);
    assert!(s.archive_current_card());
    assert!(s.data.open_cards.is_empty());
    assert_eq!(s.data.current_card_index, None);
    assert_eq!(s.data.archived_cards.len(), 2);
}

#[test]
fn archive_current_card_without_valid_selection_does_nothing() {
    let mut s = sample_state();
    s.select_card(9);
    assert!(!s.archive_current_card());
    assert_eq!(s.data.open_cards.len(), 3);
    s.data.current_card_index = None;
    assert!(!s.archive_current_card());
    assert_eq!(s.data.archived_cards.len(), 1);
}

#[test]
fn archive_all_moves_every_card_in_order() {
    let mut s = sample_state();
    assert!(s.archive_all());
    assert!(s.data.open_cards.is_empty());
    let archived: Vec<u128> = s.data.archived_cards.iter().map(|c| c.id).collect();
    assert_eq!(archived, vec![103, 100, 101, 102]);
    assert_eq!(s.data.current_card_index, None);
}

#[test]
fn reset_history_clears_archive_only() {
    let mut s = sample_state();
    assert!(s.reset_history());
    assert!(s.data.archived_cards.is_empty());
    assert_eq!(s.data.open_cards.len(), 3);
    assert_eq!(s.status_message, "History cleared");
}

#[test]
fn open_card_with_selects_new_card() {
    let mut s = sample_state();
    let ok = s.open_card_with(&"Ops".to_string(), 555, "2024-06-01".to_string(), Timestamp { secs: 9, nanos: 1 });
    assert!(ok);
    assert_eq!(s.data.open_cards.len(), 4);
    let c = &s.data.open_cards[3];
    assert_eq!(c.id, 555);
    assert_eq!(c.domain, "Ops");
    assert_eq!(c.date, "2024-06-01");
    assert_eq!(c.tasks.len(), 3);
    assert!(c.tags.is_empty());
    assert_eq!(s.data.current_card_index, Some(3));
    assert_eq!(s.active_card_index(), Some(3));
    assert!(!s.open_card_with(&"Nope".to_string(), 1, String::new(), Timestamp { secs: 0, nanos: 0 }));
    assert_eq!(s.data.open_cards.len(), 4);
}

#[test]
fn open_card_uses_clock_and_random_id() {
    let mut s = sample_state();
    assert!(s.open_card(&"Home".to_string()));
    assert_eq!(s.data.open_cards.len(), 4);
    assert_eq!(s.data.current_card_index, Some(3));
    let c = &s.data.open_cards[3];
    assert_eq!(c.id & V4_MASK, V4_BITS);
    assert!(c.created_at.secs > 1_600_000_000);
    assert!(c.created_at.nanos < 1_000_000_000);
    assert_eq!(c.date.len(), 10);
    assert_eq!(c.date.as_bytes()[4], b'-');
    assert_eq!(c.date.as_bytes()[7], b'-');
    let day = chrono::DateTime::from_timestamp(c.created_at.secs, c.created_at.nanos)
        .unwrap()
        .format("%Y-%m-%d")
        .to_string();
    assert_eq!(c.date, day);
    assert_eq!(c.tasks.len(), 1);
    assert!(!s.open_card(&"Nope".to_string()));
}

#[test]
fn active_card_index_follows_selection_rules() {
    let mut s = sample_state();
    assert_eq!(s.active_card_index(), Some(1));
    s.select_card(5);
    assert_eq!(s.active_card_index(), Some(0));
    s.data.current_card_index = None;
    assert_eq!(s.active_card_index(), Some(2));
    s.data.open_cards.clear();
    assert_eq!(s.active_card_index(), None);
}

#[test]
fn add_card_tag_trims_and_refuses_repeats() {
    let mut s = sample_state();
    s.new_tag_text = "  urgent\t".to_string();
    assert!(s.add_card_tag(0));
    assert_eq!(s.data.open_cards[0].tags, vec!["urgent".to_string()]);
    assert!(s.new_tag_text.is_empty());
    s.new_tag_text = "urgent ".to_string();
    assert!(!s.add_card_tag(0));
    assert_eq!(s.new_tag_text, "urgent ");
    s.new_tag_text = "\u{3000} \n".to_string();
    assert!(!s.add_card_tag(0));
    assert_eq!(s.data.open_cards[0].tags.len(), 1);
}

#[test]
fn remove_card_tag_removes_by_position() {
    let mut s = sample_state();
    assert!(s.add_card_tag_text(1, "a".to_string()));
    assert!(s.add_card_tag_text(1, "b".to_string()));
    assert!(s.remove_card_tag(1, 0));
    assert_eq!(s.data.open_cards[1].tags, vec!["b".to_string()]);
    assert_eq!(s.card_display_name(1), "b");
    assert_eq!(s.card_display_name(0), "Ops");
}

#[test]
fn add_card_task_trims_text_and_clears_field() {
    let mut s = sample_state();
    s.new_task_text = "  Write report \u{2003}".to_string();
    assert!(s.add_card_task(1));
    let t = &s.data.open_cards[1].tasks[0];
    assert_eq!(t.description, "Write report");
    assert_eq!(t.id & V4_MASK, V4_BITS);
    assert!(!t.completed);
    assert!(s.new_task_text.is_empty());
    s.new_task_text = "   ".to_string();
    assert!(!s.add_card_task(1));
    assert_eq!(s.new_task_text, "   ");
    assert_eq!(s.data.open_cards[1].tasks.len(), 1);
}

#[test]
fn add_card_task_with_refuses_empty_description() {
    let mut s = sample_state();
    s.new_task_text = "typed".to_string();
    assert!(!s.add_card_task_with(0, 3, String::new()));
    assert_eq!(s.new_task_text, "typed");
    assert!(s.add_card_task_with(0, 3, "done".to_string()));
    assert_eq!(s.data.open_cards[0].tasks[1].id, 3);
    assert!(s.new_task_text.is_empty());
}

#[test]
fn toggle_and_delete_card_tasks() {
    let mut s = sample_state();
    assert!(s.toggle_card_task(0, 0));
    assert!(!s.data.open_cards[0].tasks[0].completed);
    assert!(s.toggle_card_task(0, 0));
    assert!(s.data.open_cards[0].tasks[0].completed);
    assert!(s.delete_card_task(0, 0));
    assert!(s.data.open_cards[0].tasks.is_empty());
}

#[test]
fn export_target_and_messages() {
    let mut s = sample_state();
    assert_eq!(s.export_target(), Some((1, "Home_2024-05-01.json".to_string())));
    s.select_card(8);
    assert_eq!(s.export_target(), None);
    s.record_export(true, "/tmp/exports/Home_2024-05-01.json".to_string());
    assert_eq!(s.status_message, "Exported to /tmp/exports/Home_2024-05-01.json");
    s.record_export(false, "ignored".to_string());
    assert_eq!(s.status_message, "Failed to write export file");
}

#[test]
fn theme_and_view_switching() {
    let mut s = sample_state();
    assert_eq!(s.theme_toggle_label(), "☀ Light");
    s.toggle_theme();
    assert_eq!(s.theme, Theme::Light);
    assert_eq!(s.theme_toggle_label(), "🌙 Dark");
    s.toggle_theme();
    assert_eq!(s.theme, Theme::Dark);
    s.set_view(Screen::Performance);
    assert_eq!(s.current_view, Screen::Performance);
}

#[test]
fn visibility_defaults_to_shown_and_reads_back_writes() {
    let mut s = sample_state();
    assert!(s.domain_visible(&"Ops".to_string()));
    s.ensure_visible_domains();
    let names: Vec<(&str, bool)> = s.visible_domains.iter().map(|v| (v.name.as_str(), v.visible)).collect();
    assert_eq!(names, vec![("Ops", true), ("Home", true)]);
    s.set_domain_visible("Ops".to_string(), false);
    assert!(!s.domain_visible(&"Ops".to_string()));
    assert!(s.domain_visible(&"Home".to_string()));
    assert!(s.domain_visible(&"Gone".to_string()));
    s.ensure_visible_domains();
    assert!(!s.domain_visible(&"Ops".to_string()));
    s.set_domain_visible("Gone".to_string(), false);
    assert_eq!(s.visible_domains.len(), 3);
    assert!(!s.domain_visible(&"Gone".to_string()));
}
