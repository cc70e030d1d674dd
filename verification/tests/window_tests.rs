use ctf_announce::window::current_weekend_window;
use ctf_announce::window::weekend_window;

const DAY: u64 = 86400;

#[test]
fn window_of_a_known_week() {
    // ISO week 1 of 2021: Friday 2021-01-08 through Monday 2021-01-11.
    assert_eq!(weekend_window(2021, 1), Some((1610064000, 1610323200)));
}

#[test]
fn window_of_the_first_epoch_week() {
    // ISO week 1 of 1970: Friday 1970-01-02 through Monday 1970-01-05.
    assert_eq!(weekend_window(1970, 1), Some((86400, 345600)));
}

#[test]
fn window_of_a_year_end_week() {
    // ISO week 53 of 2020: Friday 2021-01-01 through Monday 2021-01-04.
    assert_eq!(weekend_window(2020, 53), Some((1609459200, 1609718400)));
}

#[test]
fn window_rejects_out_of_range_input() {
    assert_eq!(weekend_window(1969, 10), None);
    assert_eq!(weekend_window(10000, 10), None);
    assert_eq!(weekend_window(2026, 0), None);
    assert_eq!(weekend_window(2026, 54), None);
}

#[test]
fn window_always_runs_friday_to_monday() {
    for year in [1970i64, 1999, 2000, 2026, 2100, 9999] {
        for week in [1u64, 2, 26, 52, 53] {
            let (s, e) = weekend_window(year, week).unwrap();
            assert_eq!(s % DAY, 0);
            assert_eq!((s / DAY + 3) % 7, 4, "start must be a Friday");
            assert_eq!(e, s + 3 * DAY);
            assert_eq!((e / DAY + 3) % 7, 0, "end must be a Monday");
        }
    }
}

#[test]
fn current_window_is_a_weekend_window() {
    // Exercises the clock read: whatever the moment, the window must open
    // on a Friday at midnight UTC and close three days later.
    let (s, e) = current_weekend_window().unwrap();
    assert_eq!(s % DAY, 0);
    assert_eq!((s / DAY + 3) % 7, 4);
    assert_eq!(e, s + 3 * DAY);
}
