use bingo_todo::model::{AppData, DailyCard, Task, Timestamp};
use bingo_todo::series::SeriesPoint;
use bingo_todo::state::TodoState;

fn task(completed: bool) -> Task {
    Task { id: 0, description: "t".to_string(), completed, notes: None, tags: vec![] }
}

fn card(domain: &str, done: usize, total: usize, secs: i64) -> DailyCard {
    let mut tasks = vec![];
    for i in 0..total {
        tasks.push(task(i < done));
    }
    DailyCard {
        id: secs as u128,
        domain: domain.to_string(),
        date: "2024-05-01".to_string(),
        tasks,
        created_at: Timestamp { secs, nanos: 0 },
        tags: vec![],
    }
}

fn state(open: Vec<DailyCard>, archived: Vec<DailyCard>) -> TodoState {
    TodoState::new(AppData { domains: vec![], open_cards: open, archived_cards: archived, current_card_index: None })
}

#[test]
fn total_counts_sum_over_open_and_archived() {
    let s = state(vec![card("A", 1, 3, 10), card("B", 2, 2, 20)], vec![card("A", 0, 4, 5)]);
    assert_eq!(s.total_counts(), (9, 3));
    let empty = state(vec![], vec![]);
    assert_eq!(empty.total_counts(), (0, 0));
}

#[test]
fn domain_card_counts_lists_cards_of_domain_in_order() {
    let s = state(vec![card("A", 1, 3, 10), card("B", 2, 2, 20)], vec![card("A", 0, 4, 5)]);
    assert_eq!(s.domain_card_counts(&"A".to_string()), vec![(1, 3), (0, 4)]);
    assert_eq!(s.domain_card_counts(&"B".to_string()), vec![(2, 2)]);
    assert!(s.domain_card_counts(&"C".to_string()).is_empty());
}

#[test]
fn completion_series_groups_by_domain_and_sorts_stably() {
    let s = state(
        vec![card("A", 1, 2, 30), card("B", 1, 1, 5), card("A", 0, 1, 10), card("A", 1, 1, 30)],
        vec![card("A", 2, 2, 10), card("C", 0, 0, 1)],
    );
    let series = s.completion_series();
    let names: Vec<&str> = series.iter().map(|g| g.domain.as_str()).collect();
    assert_eq!(names, vec!["A", "B", "C"]);
    assert_eq!(
        series[0].points,
        vec![
            SeriesPoint { timestamp: 10, done: 0, total: 1 },
            SeriesPoint { timestamp: 10, done: 2, total: 2 },
            SeriesPoint { timestamp: 30, done: 1, total: 2 },
            SeriesPoint { timestamp: 30, done: 1, total: 1 },
        ]
    );
    assert_eq!(series[1].points, vec![SeriesPoint { timestamp: 5, done: 1, total: 1 }]);
    assert_eq!(series[2].points, vec![SeriesPoint { timestamp: 1, done: 0, total: 0 }]);
    let count: usize = series.iter().map(|g| g.points.len()).sum();
    assert_eq!(count, 6);
}

#[test]
fn completion_series_of_no_cards_is_empty() {
    let s = state(vec![], vec![]);
    assert!(s.completion_series().is_empty());
}

#[test]
fn completion_series_handles_negative_times() {
    let s = state(vec![card("A", 0, 1, 3), card("A", 0, 2, -4), card("A", 0, 3, 0)], vec![]);
    let t: Vec<i64> = s.completion_series()[0].points.iter().map(|p| p.timestamp).collect();
    assert_eq!(t, vec![-4, 0, 3]);
}

#[test]
fn has_cards_and_tracked_card_count() {
    let none = state(vec![], vec![]);
    assert!(!none.has_cards());
    assert_eq!(none.tracked_card_count(), 0);
    let archived_only = state(vec![], vec![card("A", 0, 1, 1)]);
    assert!(archived_only.has_cards());
    assert_eq!(archived_only.tracked_card_count(), 1);
    let both = state(vec![card("A", 0, 1, 1), card("B", 0, 1, 2)], vec![card("A", 0, 1, 3)]);
    assert_eq!(both.tracked_card_count(), 3);
}
