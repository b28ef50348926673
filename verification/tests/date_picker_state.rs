use ui::date_picker::{
    days_in_month, is_leap_year, month_name, CalendarDate, DatePickerState, TimeValue,
};

// --- CalendarDate tests ---

#[test]
fn test_date_parse_valid() {
    let d = CalendarDate::parse("2026-03-15").unwrap();
    assert_eq!(d.year, 2026);
    assert_eq!(d.month, 3);
    assert_eq!(d.day, 15);
}

#[test]
fn test_date_parse_invalid() {
    assert!(CalendarDate::parse("").is_none());
    assert!(CalendarDate::parse("2026-13-01").is_none()); // month 13
    assert!(CalendarDate::parse("2026-02-30").is_none()); // feb 30
    assert!(CalendarDate::parse("2026-00-01").is_none()); // month 0
    assert!(CalendarDate::parse("not-a-date").is_none());
}

#[test]
fn test_date_to_iso() {
    let d = CalendarDate::new(2026, 3, 5);
    assert_eq!(d.to_iso(), "2026-03-05");
}

#[test]
fn test_date_ordering() {
    let a = CalendarDate::new(2026, 1, 15);
    let b = CalendarDate::new(2026, 3, 1);
    let c = CalendarDate::new(2025, 12, 31);
    assert!(a < b);
    assert!(c < a);
    assert_eq!(a, CalendarDate::new(2026, 1, 15));
}

#[test]
fn test_weekday() {
    // 2026-03-13 is a Friday = 4 (Mon=0)
    let d = CalendarDate::new(2026, 3, 13);
    assert_eq!(d.weekday(), 4);

    // 2026-03-09 is a Monday = 0
    let d = CalendarDate::new(2026, 3, 9);
    assert_eq!(d.weekday(), 0);

    // 2026-03-15 is a Sunday = 6
    let d = CalendarDate::new(2026, 3, 15);
    assert_eq!(d.weekday(), 6);
}

// --- TimeValue tests ---

#[test]
fn test_time_parse() {
    let t = TimeValue::parse("14:30").unwrap();
    assert_eq!(t.hour, 14);
    assert_eq!(t.minute, 30);
}

#[test]
fn test_time_parse_invalid() {
    assert!(TimeValue::parse("").is_none());
    assert!(TimeValue::parse("25:00").is_none());
    assert!(TimeValue::parse("12:60").is_none());
    assert!(TimeValue::parse("abc").is_none());
}

#[test]
fn test_time_to_string() {
    let t = TimeValue::new(9, 5);
    assert_eq!(t.to_string(), "09:05");
}

#[test]
fn test_time_wrap() {
    let mut t = TimeValue::new(23, 55);
    t.next_hour();
    assert_eq!(t.hour, 0);
    t.prev_hour();
    assert_eq!(t.hour, 23);

    let mut t = TimeValue::new(0, 0);
    t.prev_minute(5);
    assert_eq!(t.minute, 55);
    t.next_minute(5);
    assert_eq!(t.minute, 0);
}

#[test]
fn test_time_clamps() {
    let t = TimeValue::new(30, 90);
    assert_eq!(t.hour, 23);
    assert_eq!(t.minute, 59);
}

// --- Calendar math tests ---

#[test]
fn test_leap_year() {
    assert!(is_leap_year(2024));
    assert!(!is_leap_year(2023));
    assert!(!is_leap_year(1900));
    assert!(is_leap_year(2000));
}

#[test]
fn test_days_in_month() {
    assert_eq!(days_in_month(2026, 1), 31);
    assert_eq!(days_in_month(2026, 2), 28);
    assert_eq!(days_in_month(2024, 2), 29);
    assert_eq!(days_in_month(2026, 4), 30);
    assert_eq!(days_in_month(2026, 12), 31);
}

// --- DatePickerState tests ---

#[test]
fn test_new_empty() {
    let state = DatePickerState::new(None);
    assert!(!state.open);
    assert!(state.selected_date.is_none());
    assert_eq!(state.view_year, 2026);
    assert_eq!(state.view_month, 1);
}

#[test]
fn test_new_with_date() {
    let d = CalendarDate::new(2026, 6, 15);
    let state = DatePickerState::new(Some(d));
    assert_eq!(state.view_year, 2026);
    assert_eq!(state.view_month, 6);
    assert_eq!(state.selected_date, Some(d));
}

#[test]
fn test_from_date_str() {
    let state = DatePickerState::from_date_str("2026-03-13");
    assert_eq!(state.selected_date, Some(CalendarDate::new(2026, 3, 13)));
    assert_eq!(state.view_month, 3);
}

#[test]
fn test_from_datetime_str() {
    let state = DatePickerState::from_datetime_str("2026-03-13 14:30");
    assert_eq!(state.selected_date, Some(CalendarDate::new(2026, 3, 13)));
    assert_eq!(state.time.hour, 14);
    assert_eq!(state.time.minute, 30);
}

#[test]
fn test_month_navigation() {
    let mut state = DatePickerState::new(None);
    state.view_year = 2026;
    state.view_month = 1;

    state.prev_month();
    assert_eq!(state.view_year, 2025);
    assert_eq!(state.view_month, 12);

    state.next_month();
    assert_eq!(state.view_year, 2026);
    assert_eq!(state.view_month, 1);

    state.view_month = 12;
    state.next_month();
    assert_eq!(state.view_year, 2027);
    assert_eq!(state.view_month, 1);
}

#[test]
fn test_year_navigation() {
    let mut state = DatePickerState::new(None);
    state.view_year = 2026;
    state.next_year();
    assert_eq!(state.view_year, 2027);
    state.prev_year();
    assert_eq!(state.view_year, 2026);
}

#[test]
fn test_select_day() {
    let mut state = DatePickerState::new(None);
    state.view_year = 2026;
    state.view_month = 3;

    assert!(state.select_day(15));
    assert_eq!(state.selected_date, Some(CalendarDate::new(2026, 3, 15)));

    // Invalid day
    assert!(!state.select_day(32));
    assert!(!state.select_day(0));
}

#[test]
fn test_select_day_respects_range() {
    let mut state = DatePickerState::new(None);
    state.view_year = 2026;
    state.view_month = 3;
    state.min_date = Some(CalendarDate::new(2026, 3, 10));
    state.max_date = Some(CalendarDate::new(2026, 3, 20));

    assert!(!state.select_day(5));  // before min
    assert!(state.select_day(15));  // in range
    assert!(!state.select_day(25)); // after max
}

#[test]
fn test_clear() {
    let mut state = DatePickerState::new(Some(CalendarDate::new(2026, 3, 13)));
    assert!(state.selected_date.is_some());
    state.clear();
    assert!(state.selected_date.is_none());
}

#[test]
fn test_calendar_grid() {
    let mut state = DatePickerState::new(None);
    state.view_year = 2026;
    state.view_month = 3; // March 2026 starts on Sunday

    let grid = state.calendar_grid();
    assert!(!grid.is_empty());

    // March 1, 2026 is a Sunday (weekday=6)
    let first_week = &grid[0];
    assert_eq!(first_week[6], Some(1)); // Sunday column
    for col in 0..6 {
        assert_eq!(first_week[col], None); // Mon-Sat empty
    }

    // Check last day (31st) exists somewhere
    let all_days: Vec<u32> = grid
        .iter()
        .flat_map(|w| w.iter().filter_map(|d| *d))
        .collect();
    assert_eq!(all_days.len(), 31);
    assert_eq!(*all_days.first().unwrap(), 1);
    assert_eq!(*all_days.last().unwrap(), 31);
}

#[test]
fn test_calendar_grid_feb_leap() {
    let mut state = DatePickerState::new(None);
    state.view_year = 2024;
    state.view_month = 2;

    let grid = state.calendar_grid();
    let all_days: Vec<u32> = grid
        .iter()
        .flat_map(|w| w.iter().filter_map(|d| *d))
        .collect();
    assert_eq!(all_days.len(), 29);
}

#[test]
fn test_formatted_output() {
    let mut state = DatePickerState::new(Some(CalendarDate::new(2026, 3, 13)));
    state.time = TimeValue::new(14, 30);

    assert_eq!(state.formatted_date(), Some("2026-03-13".to_string()));
    assert_eq!(state.formatted_time(), "14:30");
    assert_eq!(
        state.formatted_datetime(),
        Some("2026-03-13 14:30".to_string())
    );
}

#[test]
fn test_formatted_no_date() {
    let state = DatePickerState::new(None);
    assert_eq!(state.formatted_date(), None);
    assert_eq!(state.formatted_datetime(), None);
}

#[test]
fn test_month_name() {
    assert_eq!(month_name(1), "January");
    assert_eq!(month_name(12), "December");
}

#[test]
fn test_go_to_today() {
    let mut state = DatePickerState::new(None);
    state.view_year = 2020;
    state.view_month = 1;

    state.go_to_today(CalendarDate::new(2026, 3, 13));
    assert_eq!(state.view_year, 2026);
    assert_eq!(state.view_month, 3);
}

#[test]
fn test_open_navigates_to_selected() {
    let mut state = DatePickerState::new(Some(CalendarDate::new(2026, 8, 20)));
    state.view_year = 2020;
    state.view_month = 1;
    state.open();
    assert_eq!(state.view_year, 2026);
    assert_eq!(state.view_month, 8);
}


// --- further cases ---

#[test]
fn next_then_prev_month_restores_view_across_years() {
    let mut s = DatePickerState::new(Some(CalendarDate::new(2025, 12, 31)));
    s.open();
    s.next_month();
    assert_eq!((s.view_year, s.view_month), (2026, 1));
    s.prev_month();
    assert_eq!((s.view_year, s.view_month), (2025, 12));
    s.prev_month();
    s.next_month();
    assert_eq!((s.view_year, s.view_month), (2025, 12));
}

#[test]
fn hour_and_minute_steps_undo_each_other() {
    let mut t = TimeValue::new(23, 55);
    t.next_hour();
    assert_eq!(t.hour, 0);
    t.prev_hour();
    assert_eq!(t.hour, 23);
    t.next_minute(10);
    assert_eq!(t.minute, 5);
    t.prev_minute(10);
    assert_eq!(t.minute, 55);
    t.next_minute(0);
    assert_eq!(t.minute, 56);
}

#[test]
fn iso_and_time_text_read_back() {
    let d = CalendarDate::new(7, 2, 3);
    assert_eq!(d.to_iso(), "0007-02-03");
    assert_eq!(CalendarDate::parse(&d.to_iso()), Some(d));
    let t = TimeValue::new(9, 5);
    assert_eq!(TimeValue::parse(&t.to_string()), Some(t));
}

#[test]
fn consecutive_days_have_consecutive_weekdays() {
    let mut prev = CalendarDate::new(2024, 2, 27).weekday();
    for day in 28..=29 {
        let w = CalendarDate::new(2024, 2, day).weekday();
        assert_eq!(w, (prev + 1) % 7);
        prev = w;
    }
    assert_eq!(CalendarDate::new(2024, 1, 1).weekday(), 0); // a Monday
}

#[test]
fn grid_shows_each_day_once() {
    let s = DatePickerState::new(Some(CalendarDate::new(2026, 2, 1)));
    let grid = s.calendar_grid();
    let mut seen = vec![0; 29];
    for week in &grid {
        for cell in week.iter() {
            if let Some(d) = cell {
                seen[*d as usize] += 1;
            }
        }
    }
    assert!(seen[1..].iter().all(|&n| n == 1));
}

#[test]
fn weekdays_run_on_across_month_and_year_ends() {
    let pairs = [
        ((2024, 2, 29), (2024, 3, 1)),
        ((2023, 2, 28), (2023, 3, 1)),
        ((2023, 12, 31), (2024, 1, 1)),
        ((2024, 4, 30), (2024, 5, 1)),
        ((2000, 2, 29), (2000, 3, 1)),
    ];
    for ((y1, m1, d1), (y2, m2, d2)) in pairs {
        let a = CalendarDate::new(y1, m1, d1).weekday();
        let b = CalendarDate::new(y2, m2, d2).weekday();
        assert_eq!(b, (a + 1) % 7);
    }
    assert_eq!(CalendarDate::new(2023, 12, 31).weekday(), 6);
    assert_eq!(CalendarDate::new(2024, 1, 1).weekday(), 0);
}
