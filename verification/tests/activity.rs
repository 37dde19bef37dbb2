use repoharbor::activity::{grid_start, tally, weekday, CELLS};
use repoharbor::inbox::parse_iso8601;

fn d(s: &str) -> i64 {
    parse_iso8601(&format!("{s}T00:00:00Z")).unwrap() / 86400
}

#[test]
fn tally_buckets_counts_and_windows() {
    let today = d("2026-06-24");
    assert_eq!(weekday(today), 3, "a Wednesday");
    let start = grid_start(today);
    assert_eq!(weekday(start), 0, "start is a Sunday");

    let dates = vec![today, today, d("2026-06-23"), start, start - 1, d("2030-01-01")];
    let a = tally(today, &dates);
    assert_eq!(a.total, 4, "in-window commits only");
    assert_eq!(a.max, 2, "busiest day had two");
    assert_eq!(a.cells.len(), CELLS);
    let today_idx = (today - start) as usize;
    assert_eq!(a.cells[today_idx], Some(2));
    assert_eq!(a.cells[0], Some(1), "the window's first day");
    if today_idx + 1 < CELLS {
        assert_eq!(a.cells[today_idx + 1], None);
    }
}

#[test]
fn empty_history_is_all_zero() {
    let today = d("2026-06-24");
    let a = tally(today, &[]);
    assert_eq!((a.total, a.max), (0, 0));
    assert_eq!(a.cells[0], Some(0));
}

#[test]
fn weekdays_before_1970_stay_in_range() {
    assert_eq!(weekday(0), 4, "1970-01-01 was a Thursday");
    assert_eq!(weekday(-1), 3);
    assert_eq!(weekday(-4), 0);
    let start = grid_start(-4);
    assert_eq!(start, -4 - 364);
}
