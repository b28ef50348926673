//! State of a date picker: calendar navigation (the month and year in view),
//! the selected date, the selected time, and whether the popup is open.
//! Date arithmetic works on the proleptic Gregorian calendar.
use vstd::prelude::*;
use crate::text::{
    chars_of, decimal, find_char, first_index_of, is_digit, lemma_split_concat, lemma_split_no_sep,
    lemma_zero_pad_value, fmt_padded, parse_i32, parse_i32_at, parse_u32, parse_u32_at, push_padded,
    push_padded_signed, split_char, split_chars, string_from_chars, trunc_div, trunc_rem, zero_pad,
};

verus! {

/// A calendar date (year, month 1-12, day 1-31).
#[derive(Debug, Clone, Copy, PartialEq, Eq, PartialOrd, Ord, Structural)]
pub struct CalendarDate {
    pub year: i32,
    pub month: u32,
    pub day: u32,
}

/// A time of day in 24-hour form.
#[derive(Debug, Clone, Copy, PartialEq, Eq, Structural)]
pub struct TimeValue {
    pub hour: u32,
    pub minute: u32,
}

/// Which part of the date picker popup is focused.
#[derive(Debug, Clone, Copy, PartialEq, Eq, Structural)]
pub enum DatePickerFocus {
    Calendar,
    HourInput,
    MinuteInput,
}

/// State for a date picker element.
#[derive(Debug, Clone, Copy)]
pub struct DatePickerState {
    /// Whether the picker popup is open.
    pub open: bool,
    /// The selected date, if any.
    pub selected_date: Option<CalendarDate>,
    /// The selected time.
    pub time: TimeValue,
    /// Year of the month shown in the calendar grid.
    pub view_year: i32,
    /// Month (1-12) shown in the calendar grid.
    pub view_month: u32,
    /// Optional earliest selectable date.
    pub min_date: Option<CalendarDate>,
    /// Optional latest selectable date.
    pub max_date: Option<CalendarDate>,
    /// Which sub-control is focused.
    pub focus: DatePickerFocus,
    /// Minute increment step.
    pub minute_step: u32,
}

// ---------------------------------------------------------------------------
// Calendar math: specifications
// ---------------------------------------------------------------------------

pub open spec fn leap(year: int) -> bool {
    (year % 4 == 0 && year % 100 != 0) || year % 400 == 0
}

pub open spec fn month_length(year: int, month: int) -> u32 {
    if month == 2 {
        if leap(year) {
            29
        } else {
            28
        }
    } else if month == 4 || month == 6 || month == 9 || month == 11 {
        30
    } else if 1 <= month <= 12 {
        31
    } else {
        0
    }
}

pub open spec fn month_label(month: int) -> Seq<char> {
    if month == 1 {
        "January"@
    } else if month == 2 {
        "February"@
    } else if month == 3 {
        "March"@
    } else if month == 4 {
        "April"@
    } else if month == 5 {
        "May"@
    } else if month == 6 {
        "June"@
    } else if month == 7 {
        "July"@
    } else if month == 8 {
        "August"@
    } else if month == 9 {
        "September"@
    } else if month == 10 {
        "October"@
    } else if month == 11 {
        "November"@
    } else if month == 12 {
        "December"@
    } else {
        "Unknown"@
    }
}

/// A date that exists on the calendar.
pub open spec fn valid_date(d: CalendarDate) -> bool {
    1 <= d.month <= 12 && 1 <= d.day <= month_length(d.year as int, d.month as int)
}

/// Strict chronological order: by year, then month, then day.
pub open spec fn date_lt(a: CalendarDate, b: CalendarDate) -> bool {
    a.year < b.year || (a.year == b.year && (a.month < b.month || (a.month == b.month && a.day
        < b.day)))
}

/// Month offsets of Sakamoto's day-of-week method.
pub open spec fn sakamoto_offset(month: int) -> int {
    if month == 1 {
        0
    } else if month == 2 {
        3
    } else if month == 3 {
        2
    } else if month == 4 {
        5
    } else if month == 5 {
        0
    } else if month == 6 {
        3
    } else if month == 7 {
        5
    } else if month == 8 {
        1
    } else if month == 9 {
        4
    } else if month == 10 {
        6
    } else if month == 11 {
        2
    } else {
        4
    }
}

/// The year Sakamoto's method counts from: January and February belong to
/// the previous year.
pub open spec fn sakamoto_year(d: CalendarDate) -> int {
    if d.month < 3 {
        d.year - 1
    } else {
        d.year as int
    }
}

/// Running sums of Sakamoto's formula, in the order Rust evaluates them.
pub open spec fn sakamoto_partials(d: CalendarDate) -> Seq<int> {
    let y = sakamoto_year(d);
    let s1 = y + trunc_div(y, 4);
    let s2 = s1 - trunc_div(y, 100);
    let s3 = s2 + trunc_div(y, 400);
    let s4 = s3 + sakamoto_offset(d.month as int);
    let s5 = s4 + (d.day as i32) as int;
    seq![y, s1, s2, s3, s4, s5]
}

/// The inputs on which the day-of-week computation stays within `i32`.
pub open spec fn weekday_computable(d: CalendarDate) -> bool {
    &&& 1 <= d.month <= 12
    &&& forall|k: int|
        0 <= k < 6 ==> i32::MIN <= #[trigger] sakamoto_partials(d)[k] <= i32::MAX
}

/// Day of the week, 0 = Monday through 6 = Sunday.
pub open spec fn weekday_of(d: CalendarDate) -> u32 {
    (trunc_rem(trunc_rem(sakamoto_partials(d)[5], 7) + 6, 7)) as u32
}

// ---------------------------------------------------------------------------
// Text forms
// ---------------------------------------------------------------------------

/// "YYYY-MM-DD" (`format!("{:04}-{:02}-{:02}", ..)`).
pub open spec fn iso_text(d: CalendarDate) -> Seq<char> {
    fmt_padded(d.year as int, 4) + seq!['-'] + zero_pad(decimal(d.month as nat), 2) + seq!['-']
        + zero_pad(decimal(d.day as nat), 2)
}

/// "HH:MM" (`format!("{:02}:{:02}", ..)`).
pub open spec fn time_text(t: TimeValue) -> Seq<char> {
    zero_pad(decimal(t.hour as nat), 2) + seq![':'] + zero_pad(decimal(t.minute as nat), 2)
}

/// The date read from "YYYY-MM-DD": three pieces between `-`, parsed as
/// integers, and a day that exists in that month.
pub open spec fn parse_date(s: Seq<char>) -> Option<CalendarDate> {
    let parts = split_char(s, '-');
    if parts.len() != 3 {
        None
    } else {
        match (parse_i32(parts[0]), parse_u32(parts[1]), parse_u32(parts[2])) {
            (Some(y), Some(m), Some(d)) => {
                let date = CalendarDate { year: y, month: m, day: d };
                if valid_date(date) {
                    Some(date)
                } else {
                    None
                }
            },
            _ => None,
        }
    }
}

/// The time read from "HH:MM": two pieces between `:`, an hour up to 23 and
/// a minute up to 59.
pub open spec fn parse_time(s: Seq<char>) -> Option<TimeValue> {
    let parts = split_char(s, ':');
    if parts.len() != 2 {
        None
    } else {
        match (parse_u32(parts[0]), parse_u32(parts[1])) {
            (Some(h), Some(m)) => if h <= 23 && m <= 59 {
                Some(TimeValue { hour: h, minute: m })
            } else {
                None
            },
            _ => None,
        }
    }
}

/// A time within the day: hour up to 23, minute up to 59.
pub open spec fn valid_time(t: TimeValue) -> bool {
    t.hour <= 23 && t.minute <= 59
}

pub open spec fn clamped_time(hour: u32, minute: u32) -> TimeValue {
    TimeValue {
        hour: if hour < 23 {
            hour
        } else {
            23
        },
        minute: if minute < 59 {
            minute
        } else {
            59
        },
    }
}

/// The minute step actually used: a step of 0 counts as 1.
pub open spec fn effective_step(step: u32) -> int {
    if step == 0 {
        1
    } else {
        step as int
    }
}

// ---------------------------------------------------------------------------
// Calendar math
// ---------------------------------------------------------------------------

/// Whether a year is a leap year.
pub fn is_leap_year(year: i32) -> (r: bool)
    ensures
        r == leap(year as int),
{
    (year % 4 == 0 && year % 100 != 0) || year % 400 == 0
}

/// Number of days in a given month (1-12) of a given year; 0 for any other month.
pub fn days_in_month(year: i32, month: u32) -> (r: u32)
    ensures
        r == month_length(year as int, month as int),
{
    match month {
        1 => 31,
        2 => if is_leap_year(year) {
            29
        } else {
            28
        },
        3 => 31,
        4 => 30,
        5 => 31,
        6 => 30,
        7 => 31,
        8 => 31,
        9 => 30,
        10 => 31,
        11 => 30,
        12 => 31,
        _ => 0,
    }
}

/// English month name from its number (1-12), or "Unknown".
pub fn month_name(month: u32) -> (r: &'static str)
    ensures
        r@ == month_label(month as int),
{
    match month {
        1 => "January",
        2 => "February",
        3 => "March",
        4 => "April",
        5 => "May",
        6 => "June",
        7 => "July",
        8 => "August",
        9 => "September",
        10 => "October",
        11 => "November",
        12 => "December",
        _ => "Unknown",
    }
}

impl CalendarDate {
    pub fn new(year: i32, month: u32, day: u32) -> (r: Self)
        ensures
            r == (CalendarDate { year, month, day }),
    {
        CalendarDate { year, month, day }
    }

    /// Format as "YYYY-MM-DD".
    pub fn to_iso(&self) -> (r: String)
        ensures
            r@ == iso_text(*self),
    {
        let mut out: Vec<char> = Vec::new();
        push_padded_signed(self.year, 4, &mut out);
        out.push('-');
        push_padded(self.month as u64, 2, &mut out);
        out.push('-');
        push_padded(self.day as u64, 2, &mut out);
        assert(out@ =~= iso_text(*self));
        string_from_chars(&out)
    }

    /// Parse from "YYYY-MM-DD".
    pub fn parse(s: &str) -> (r: Option<Self>)
        ensures
            r == parse_date(s@),
    {
        let v = chars_of(s);
        Self::parse_chars(&v)
    }

    fn parse_chars(v: &Vec<char>) -> (r: Option<Self>)
        ensures
            r == parse_date(v@),
    {
        let parts = split_chars(v, '-');
        if parts.len() != 3 {
            return None;
        }
        let p0 = &parts[0];
        let p1 = &parts[1];
        let p2 = &parts[2];
        assert(p0@.subrange(0, p0.len() as int) =~= p0@);
        assert(p1@.subrange(0, p1.len() as int) =~= p1@);
        assert(p2@.subrange(0, p2.len() as int) =~= p2@);
        let year = match parse_i32_at(p0, 0, p0.len()) {
            Some(y) => y,
            None => return None,
        };
        let month = match parse_u32_at(p1, 0, p1.len()) {
            Some(m) => m,
            None => return None,
        };
        let day = match parse_u32_at(p2, 0, p2.len()) {
            Some(d) => d,
            None => return None,
        };
        if month < 1 || month > 12 {
            return None;
        }
        let max_day = days_in_month(year, month);
        if day < 1 || day > max_day {
            return None;
        }
        Some(CalendarDate { year, month, day })
    }

    /// Day of the week: 0 = Monday, 6 = Sunday (Sakamoto's method).
    pub fn weekday(&self) -> (r: u32)
        requires
            weekday_computable(*self),
        ensures
            r == weekday_of(*self),
            r < 7,
    {
        let t: [i32; 12] = [0, 3, 2, 5, 0, 3, 5, 1, 4, 6, 2, 4];
        let ghost p = sakamoto_partials(*self);
        assert(i32::MIN <= p[0] <= i32::MAX);
        assert(i32::MIN <= p[1] <= i32::MAX);
        assert(i32::MIN <= p[2] <= i32::MAX);
        assert(i32::MIN <= p[3] <= i32::MAX);
        assert(i32::MIN <= p[4] <= i32::MAX);
        assert(i32::MIN <= p[5] <= i32::MAX);
        let mut y = self.year;
        if self.month < 3 {
            y -= 1;
        }
        let off = t[(self.month - 1) as usize];
        assert(off == sakamoto_offset(self.month as int));
        let s1 = y + y / 4;
        let s2 = s1 - y / 100;
        let s3 = s2 + y / 400;
        let s4 = s3 + off;
        let s5 = s4 + self.day as i32;
        let dow = s5 % 7;
        ((dow + 6) % 7) as u32
    }

    /// Chronological comparison: whether `self` comes before `other`.
    pub fn is_before(&self, other: &CalendarDate) -> (r: bool)
        ensures
            r == date_lt(*self, *other),
    {
        self.year < other.year || (self.year == other.year && (self.month < other.month || (
        self.month == other.month && self.day < other.day)))
    }
}

impl TimeValue {
    /// A time with hour clamped to 23 and minute clamped to 59.
    pub fn new(hour: u32, minute: u32) -> (r: Self)
        ensures
            r == clamped_time(hour, minute),
    {
        TimeValue {
            hour: if hour < 23 {
                hour
            } else {
                23
            },
            minute: if minute < 59 {
                minute
            } else {
                59
            },
        }
    }

    /// Format as "HH:MM".
    pub fn to_string(&self) -> (r: String)
        ensures
            r@ == time_text(*self),
    {
        let mut out: Vec<char> = Vec::new();
        push_padded(self.hour as u64, 2, &mut out);
        out.push(':');
        push_padded(self.minute as u64, 2, &mut out);
        assert(out@ =~= time_text(*self));
        string_from_chars(&out)
    }

    /// Parse from "HH:MM".
    pub fn parse(s: &str) -> (r: Option<Self>)
        ensures
            r == parse_time(s@),
    {
        let v = chars_of(s);
        Self::parse_chars(&v)
    }

    fn parse_chars(v: &Vec<char>) -> (r: Option<Self>)
        ensures
            r == parse_time(v@),
    {
        let parts = split_chars(v, ':');
        if parts.len() != 2 {
            return None;
        }
        let p0 = &parts[0];
        let p1 = &parts[1];
        assert(p0@.subrange(0, p0.len() as int) =~= p0@);
        assert(p1@.subrange(0, p1.len() as int) =~= p1@);
        let hour = match parse_u32_at(p0, 0, p0.len()) {
            Some(h) => h,
            None => return None,
        };
        let minute = match parse_u32_at(p1, 0, p1.len()) {
            Some(m) => m,
            None => return None,
        };
        if hour > 23 || minute > 59 {
            return None;
        }
        Some(TimeValue { hour, minute })
    }

    /// Increment the hour, wrapping at 24.
    pub fn next_hour(&mut self)
        requires
            old(self).hour < u32::MAX,
        ensures
            final(self).hour == (old(self).hour + 1) % 24,
            final(self).minute == old(self).minute,
    {
        self.hour = (self.hour + 1) % 24;
    }

    /// Decrement the hour, wrapping from 0 to 23.
    pub fn prev_hour(&mut self)
        ensures
            final(self).hour == if old(self).hour == 0 {
                23
            } else {
                old(self).hour - 1
            },
            final(self).minute == old(self).minute,
    {
        self.hour = if self.hour == 0 {
            23
        } else {
            self.hour - 1
        };
    }

    /// Increment the minute by a step (a step of 0 counts as 1), wrapping at 60.
    pub fn next_minute(&mut self, step: u32)
        requires
            old(self).minute + effective_step(step) <= u32::MAX,
        ensures
            final(self).minute == (old(self).minute + effective_step(step)) % 60,
            final(self).hour == old(self).hour,
    {
        let step = if step < 1 {
            1
        } else {
            step
        };
        self.minute = (self.minute + step) % 60;
    }

    /// Decrement the minute by a step (a step of 0 counts as 1), wrapping below 0.
    pub fn prev_minute(&mut self, step: u32)
        requires
            old(self).minute >= effective_step(step) || effective_step(step) - old(self).minute
                <= 60,
        ensures
            final(self).minute == if old(self).minute < effective_step(step) {
                60 - (effective_step(step) - old(self).minute)
            } else {
                old(self).minute - effective_step(step)
            },
            final(self).hour == old(self).hour,
    {
        let step = if step < 1 {
            1
        } else {
            step
        };
        self.minute = if self.minute < step {
            60 - (step - self.minute)
        } else {
            self.minute - step
        };
    }
}

// ---------------------------------------------------------------------------
// Picker state
// ---------------------------------------------------------------------------

/// The state a picker starts in: closed, viewing the selected date's month
/// (January 2026 when nothing is selected), time 00:00, no bounds,
/// calendar focused, minute step 1.
pub open spec fn initial_state(selected: Option<CalendarDate>) -> DatePickerState {
    DatePickerState {
        open: false,
        selected_date: selected,
        time: TimeValue { hour: 0, minute: 0 },
        view_year: match selected {
            Some(d) => d.year,
            None => 2026,
        },
        view_month: match selected {
            Some(d) => d.month,
            None => 1,
        },
        min_date: None,
        max_date: None,
        focus: DatePickerFocus::Calendar,
        minute_step: 1,
    }
}

/// The month after (year, month) in view.
pub open spec fn month_after(year: i32, month: u32) -> (int, int) {
    if month == 12 {
        (year + 1, 1)
    } else {
        (year as int, month + 1)
    }
}

/// The month before (year, month) in view.
pub open spec fn month_before(year: i32, month: u32) -> (int, int) {
    if month == 1 {
        (year - 1, 12)
    } else {
        (year as int, month - 1)
    }
}

/// Whether `date` lies within the optional bounds, both inclusive.
pub open spec fn within_bounds(
    min: Option<CalendarDate>,
    max: Option<CalendarDate>,
    date: CalendarDate,
) -> bool {
    &&& (match min {
        Some(lo) => !date_lt(date, lo),
        None => true,
    })
    &&& (match max {
        Some(hi) => !date_lt(hi, date),
        None => true,
    })
}

/// Number of week rows of a month whose first day falls on weekday `start`
/// and which has `total` days.
pub open spec fn grid_week_count(start: int, total: int) -> int {
    if start + total <= 7 {
        1
    } else {
        (start + total + 6) / 7
    }
}

/// The day shown in row `w`, column `c` (Monday first) of such a month.
pub open spec fn grid_cell(start: int, total: int, w: int, c: int) -> Option<u32> {
    let k = w * 7 + c - start + 1;
    if 1 <= k <= total {
        Some(k as u32)
    } else {
        None
    }
}

/// The date-and-time text "YYYY-MM-DD HH:MM".
pub open spec fn datetime_text(d: CalendarDate, t: TimeValue) -> Seq<char> {
    iso_text(d) + seq![' '] + time_text(t)
}

/// How "YYYY-MM-DD HH:MM" is split: the part before the first space, and
/// what follows that space, if there is one.
pub open spec fn datetime_parts(s: Seq<char>) -> (Seq<char>, Option<Seq<char>>) {
    match first_index_of(s, ' ') {
        Some(i) => (s.subrange(0, i), Some(s.subrange(i + 1, s.len() as int))),
        None => (s, None),
    }
}

/// The state read from "YYYY-MM-DD HH:MM": as `initial_state` of the date
/// part, with the time part when it reads as a time, 00:00 otherwise.
pub open spec fn datetime_state(s: Seq<char>) -> DatePickerState {
    let (dp, tp) = datetime_parts(s);
    let base = initial_state(parse_date(dp));
    DatePickerState {
        time: match tp {
            Some(t) => match parse_time(t) {
                Some(tv) => tv,
                None => TimeValue { hour: 0, minute: 0 },
            },
            None => TimeValue { hour: 0, minute: 0 },
        },
        ..base
    }
}

/// Which fields a view change leaves alone.
pub open spec fn same_but_view(a: DatePickerState, b: DatePickerState) -> bool {
    &&& a.open == b.open
    &&& a.selected_date == b.selected_date
    &&& a.time == b.time
    &&& a.min_date == b.min_date
    &&& a.max_date == b.max_date
    &&& a.focus == b.focus
    &&& a.minute_step == b.minute_step
}

fn grid_day(start: u32, total: u32, w: u32, c: u32) -> (r: Option<u32>)
    requires
        start < 7,
        total <= 31,
        w <= 8,
        c < 7,
    ensures
        r == grid_cell(start as int, total as int, w as int, c as int),
{
    let k: i64 = w as i64 * 7 + c as i64 - start as i64 + 1;
    if 1 <= k && k <= total as i64 {
        Some(k as u32)
    } else {
        None
    }
}

fn grid_row(start: u32, total: u32, w: u32) -> (r: [Option<u32>; 7])
    requires
        start < 7,
        total <= 31,
        w <= 8,
    ensures
        forall|c: int| 0 <= c < 7 ==> #[trigger] r[c] == grid_cell(start as int, total as int, w as int, c),
{
    let r = [
        grid_day(start, total, w, 0),
        grid_day(start, total, w, 1),
        grid_day(start, total, w, 2),
        grid_day(start, total, w, 3),
        grid_day(start, total, w, 4),
        grid_day(start, total, w, 5),
        grid_day(start, total, w, 6),
    ];
    assert forall|c: int| 0 <= c < 7 implies #[trigger] r[c] == grid_cell(start as int, total as int, w as int, c) by {
        if c == 0 {
        } else if c == 1 {
        } else if c == 2 {
        } else if c == 3 {
        } else if c == 4 {
        } else if c == 5 {
        } else {
        }
    }
    r
}

impl DatePickerState {
    /// Create a new state; when a date is given, view its month.
    pub fn new(selected: Option<CalendarDate>) -> (r: Self)
        ensures
            r == initial_state(selected),
    {
        let (vy, vm) = match selected {
            Some(d) => (d.year, d.month),
            None => (2026, 1),
        };
        DatePickerState {
            open: false,
            selected_date: selected,
            time: TimeValue::new(0, 0),
            view_year: vy,
            view_month: vm,
            min_date: None,
            max_date: None,
            focus: DatePickerFocus::Calendar,
            minute_step: 1,
        }
    }

    /// Create from an ISO date string ("YYYY-MM-DD").
    pub fn from_date_str(s: &str) -> (r: Self)
        ensures
            r == initial_state(parse_date(s@)),
    {
        Self::new(CalendarDate::parse(s))
    }

    /// Create from an ISO datetime string ("YYYY-MM-DD HH:MM").
    pub fn from_datetime_str(s: &str) -> (r: Self)
        ensures
            r == datetime_state(s@),
    {
        let v = chars_of(s);
        let (date, time) = match find_char(&v, ' ') {
            Some(i) => {
                let mut head: Vec<char> = Vec::new();
                let mut tail: Vec<char> = Vec::new();
                let mut k: usize = 0;
                while k < v.len()
                    invariant
                        i < v.len(),
                        k <= v.len(),
                        head@ == v@.subrange(0, if k < i { k as int } else { i as int }),
                        tail@ == v@.subrange(i + 1, if k > i + 1 { k as int } else { i + 1 }),
                    decreases v.len() - k,
                {
                    if k < i {
                        head.push(v[k]);
                    } else if k > i {
                        tail.push(v[k]);
                    }
                    k = k + 1;
                }
                assert(head@ == datetime_parts(v@).0);
                assert(tail@ == datetime_parts(v@).1->0);
                let t = match TimeValue::parse_chars(&tail) {
                    Some(t) => t,
                    None => TimeValue::new(0, 0),
                };
                (CalendarDate::parse_chars(&head), t)
            },
            None => (CalendarDate::parse_chars(&v), TimeValue::new(0, 0)),
        };
        let mut st = Self::new(date);
        st.time = time;
        assert(date == parse_date(datetime_parts(s@).0));
        st
    }

    /// Toggle the popup.
    pub fn toggle(&mut self)
        ensures
            *final(self) == (DatePickerState { open: !old(self).open, ..*old(self) }),
    {
        self.open = !self.open;
    }

    /// Open the popup; when a date is selected, view its month.
    pub fn open(&mut self)
        ensures
            *final(self) == (match old(self).selected_date {
                Some(d) => DatePickerState {
                    open: true,
                    view_year: d.year,
                    view_month: d.month,
                    ..*old(self)
                },
                None => DatePickerState { open: true, ..*old(self) },
            }),
    {
        self.open = true;
        if let Some(d) = self.selected_date {
            self.view_year = d.year;
            self.view_month = d.month;
        }
    }

    /// Close the popup.
    pub fn close(&mut self)
        ensures
            *final(self) == (DatePickerState { open: false, ..*old(self) }),
    {
        self.open = false;
    }

    /// View the next month.
    pub fn next_month(&mut self)
        requires
            old(self).view_month == 12 ==> old(self).view_year < i32::MAX,
            old(self).view_month < u32::MAX,
        ensures
            (final(self).view_year as int, final(self).view_month as int) == month_after(
                old(self).view_year,
                old(self).view_month,
            ),
            same_but_view(*final(self), *old(self)),
    {
        if self.view_month == 12 {
            self.view_month = 1;
            self.view_year += 1;
        } else {
            self.view_month += 1;
        }
    }

    /// View the previous month.
    pub fn prev_month(&mut self)
        requires
            old(self).view_month == 1 ==> old(self).view_year > i32::MIN,
            old(self).view_month > 0,
        ensures
            (final(self).view_year as int, final(self).view_month as int) == month_before(
                old(self).view_year,
                old(self).view_month,
            ),
            same_but_view(*final(self), *old(self)),
    {
        if self.view_month == 1 {
            self.view_month = 12;
            self.view_year -= 1;
        } else {
            self.view_month -= 1;
        }
    }

    /// View the same month of the next year.
    pub fn next_year(&mut self)
        requires
            old(self).view_year < i32::MAX,
        ensures
            *final(self) == (DatePickerState { view_year: (old(self).view_year + 1) as i32, ..*old(self) }),
    {
        self.view_year += 1;
    }

    /// View the same month of the previous year.
    pub fn prev_year(&mut self)
        requires
            old(self).view_year > i32::MIN,
        ensures
            *final(self) == (DatePickerState { view_year: (old(self).view_year - 1) as i32, ..*old(self) }),
    {
        self.view_year -= 1;
    }

    /// View the month of `today` (the caller supplies today's date).
    pub fn go_to_today(&mut self, today: CalendarDate)
        ensures
            *final(self) == (DatePickerState {
                view_year: today.year,
                view_month: today.month,
                ..*old(self)
            }),
    {
        self.view_year = today.year;
        self.view_month = today.month;
    }

    /// Select a day of the month in view. Returns false, changing nothing,
    /// when the day does not exist in that month or lies outside the bounds.
    pub fn select_day(&mut self, day: u32) -> (r: bool)
        ensures
            r == (1 <= day <= month_length(old(self).view_year as int, old(self).view_month as int)
                && within_bounds(
                old(self).min_date,
                old(self).max_date,
                CalendarDate { year: old(self).view_year, month: old(self).view_month, day },
            )),
            *final(self) == if r {
                DatePickerState {
                    selected_date: Some(
                        CalendarDate {
                            year: old(self).view_year,
                            month: old(self).view_month,
                            day,
                        },
                    ),
                    ..*old(self)
                }
            } else {
                *old(self)
            },
    {
        let max = days_in_month(self.view_year, self.view_month);
        if day < 1 || day > max {
            return false;
        }
        let date = CalendarDate::new(self.view_year, self.view_month, day);
        if !self.is_date_in_range(date) {
            return false;
        }
        self.selected_date = Some(date);
        true
    }

    /// Select a date and view its month. Returns false, changing nothing,
    /// when the date lies outside the bounds.
    pub fn select_date(&mut self, date: CalendarDate) -> (r: bool)
        ensures
            r == within_bounds(old(self).min_date, old(self).max_date, date),
            *final(self) == if r {
                DatePickerState {
                    selected_date: Some(date),
                    view_year: date.year,
                    view_month: date.month,
                    ..*old(self)
                }
            } else {
                *old(self)
            },
    {
        if !self.is_date_in_range(date) {
            return false;
        }
        self.selected_date = Some(date);
        self.view_year = date.year;
        self.view_month = date.month;
        true
    }

    /// Clear the selected date.
    pub fn clear(&mut self)
        ensures
            *final(self) == (DatePickerState { selected_date: None, ..*old(self) }),
    {
        self.selected_date = None;
    }

    /// Whether a date lies within the minimum and maximum, both inclusive.
    pub fn is_date_in_range(&self, date: CalendarDate) -> (r: bool)
        ensures
            r == within_bounds(self.min_date, self.max_date, date),
    {
        if let Some(min) = self.min_date {
            if date.is_before(&min) {
                return false;
            }
        }
        if let Some(max) = self.max_date {
            if max.is_before(&date) {
                return false;
            }
        }
        true
    }

    /// The days of the month in view as rows of seven slots, Monday first;
    /// slots outside the month are `None`.
    pub fn calendar_grid(&self) -> (r: Vec<[Option<u32>; 7]>)
        requires
            weekday_computable(CalendarDate { year: self.view_year, month: self.view_month, day: 1 }),
        ensures
            ({
                let start = weekday_of(
                    CalendarDate { year: self.view_year, month: self.view_month, day: 1 },
                ) as int;
                let total = month_length(self.view_year as int, self.view_month as int) as int;
                &&& r.len() == grid_week_count(start, total)
                &&& forall|w: int, c: int|
                    0 <= w < r.len() && 0 <= c < 7 ==> #[trigger] r[w][c] == grid_cell(
                        start,
                        total,
                        w,
                        c,
                    )
            }),
    {
        let total = days_in_month(self.view_year, self.view_month);
        let first = CalendarDate::new(self.view_year, self.view_month, 1);
        let start = first.weekday();
        let n: u32 = if start + total <= 7 {
            1
        } else {
            (start + total + 6) / 7
        };
        let mut weeks: Vec<[Option<u32>; 7]> = Vec::new();
        let mut w: u32 = 0;
        while w < n
            invariant
                start < 7,
                total <= 31,
                n <= 6,
                w <= n,
                weeks.len() == w,
                forall|i: int, c: int|
                    0 <= i < w && 0 <= c < 7 ==> #[trigger] weeks[i][c] == grid_cell(
                        start as int,
                        total as int,
                        i,
                        c,
                    ),
            decreases n - w,
        {
            let row = grid_row(start, total, w);
            weeks.push(row);
            w = w + 1;
        }
        weeks
    }

    /// Set the time, hour clamped to 23 and minute to 59.
    pub fn set_time(&mut self, hour: u32, minute: u32)
        ensures
            *final(self) == (DatePickerState { time: clamped_time(hour, minute), ..*old(self) }),
    {
        self.time = TimeValue::new(hour, minute);
    }

    /// The selected date as "YYYY-MM-DD", if a date is selected.
    pub fn formatted_date(&self) -> (r: Option<String>)
        ensures
            match self.selected_date {
                Some(d) => r is Some && r->0@ == iso_text(d),
                None => r is None,
            },
    {
        match self.selected_date {
            Some(d) => Some(d.to_iso()),
            None => None,
        }
    }

    /// The time as "HH:MM".
    pub fn formatted_time(&self) -> (r: String)
        ensures
            r@ == time_text(self.time),
    {
        self.time.to_string()
    }

    /// The selected date and time as "YYYY-MM-DD HH:MM", if a date is selected.
    pub fn formatted_datetime(&self) -> (r: Option<String>)
        ensures
            match self.selected_date {
                Some(d) => r is Some && r->0@ == datetime_text(d, self.time),
                None => r is None,
            },
    {
        match self.selected_date {
            Some(d) => {
                let mut out: Vec<char> = Vec::new();
                push_padded_signed(d.year, 4, &mut out);
                out.push('-');
                push_padded(d.month as u64, 2, &mut out);
                out.push('-');
                push_padded(d.day as u64, 2, &mut out);
                out.push(' ');
                push_padded(self.time.hour as u64, 2, &mut out);
                out.push(':');
                push_padded(self.time.minute as u64, 2, &mut out);
                assert(out@ =~= datetime_text(d, self.time));
                Some(string_from_chars(&out))
            },
            None => None,
        }
    }

    /// English name of the month in view.
    pub fn view_month_name(&self) -> (r: &'static str)
        ensures
            r@ == month_label(self.view_month as int),
    {
        month_name(self.view_month)
    }
}

impl Default for DatePickerState {
    fn default() -> (r: Self)
        ensures
            r == initial_state(None),
    {
        Self::new(None)
    }
}

// ---------------------------------------------------------------------------
// Laws
// ---------------------------------------------------------------------------

/// Moving the view one month forward and then one month back returns to the
/// month first in view, and so does moving back and then forward.
pub proof fn lemma_month_navigation_inverse(year: i32, month: u32)
    requires
        1 <= month <= 12,
        i32::MIN < year < i32::MAX,
    ensures
        ({
            let (y, m) = month_after(year, month);
            month_before(y as i32, m as u32) == (year as int, month as int)
        }),
        ({
            let (y, m) = month_before(year, month);
            month_after(y as i32, m as u32) == (year as int, month as int)
        }),
{
}

/// The next hour and the previous hour undo each other on the hours of a day.
pub proof fn lemma_hour_steps_inverse(hour: u32)
    requires
        hour <= 23,
    ensures
        ({
            let up = ((hour + 1) % 24) as u32;
            (if up == 0 {
                23
            } else {
                up - 1
            }) == hour
        }),
        ({
            let down = if hour == 0 {
                23
            } else {
                hour - 1
            };
            (down + 1) % 24 == hour
        }),
{
}

/// Stepping the minute forward and back by the same step (up to an hour)
/// returns to the minute first shown, in either order.
pub proof fn lemma_minute_steps_inverse(minute: u32, step: u32)
    requires
        minute <= 59,
        effective_step(step) <= 60,
    ensures
        ({
            let s = effective_step(step);
            let up = (minute + s) % 60;
            (if up < s {
                60 - (s - up)
            } else {
                up - s
            }) == minute
        }),
        ({
            let s = effective_step(step);
            let down = if minute < s {
                60 - (s - minute)
            } else {
                minute - s
            };
            (down + s) % 60 == minute
        }),
{
}

proof fn lemma_padded_reads_back(n: u32, w: nat)
    ensures
        parse_u32(zero_pad(decimal(n as nat), w)) == Some(n),
        parse_i32(zero_pad(decimal(n as nat), w)) == (if n <= i32::MAX {
            Some(n as i32)
        } else {
            None::<i32>
        }),
        forall|i: int|
            0 <= i < zero_pad(decimal(n as nat), w).len() ==> #[trigger] is_digit(
                zero_pad(decimal(n as nat), w)[i],
            ),
{
    lemma_zero_pad_value(n as nat, w);
    let p = zero_pad(decimal(n as nat), w);
    assert(is_digit(p[0]));
}

/// A time of day, written as "HH:MM", reads back as the same time.
pub proof fn lemma_time_text_roundtrip(t: TimeValue)
    requires
        valid_time(t),
    ensures
        parse_time(time_text(t)) == Some(t),
{
    let a = zero_pad(decimal(t.hour as nat), 2);
    let b = zero_pad(decimal(t.minute as nat), 2);
    lemma_padded_reads_back(t.hour, 2);
    lemma_padded_reads_back(t.minute, 2);
    assert forall|i: int| 0 <= i < a.len() implies a[i] != ':' by {
        assert(is_digit(a[i]));
    }
    assert forall|i: int| 0 <= i < b.len() implies b[i] != ':' by {
        assert(is_digit(b[i]));
    }
    lemma_split_no_sep(a, ':');
    lemma_split_no_sep(b, ':');
    lemma_split_concat(a, b, ':');
    assert(split_char(time_text(t), ':') =~= seq![a, b]);
}

/// A date of a non-negative year, written as "YYYY-MM-DD", reads back as
/// the same date. (A negative year is written with a leading '-', which
/// the reader takes for a separator.)
pub proof fn lemma_iso_text_roundtrip(d: CalendarDate)
    requires
        valid_date(d),
        d.year >= 0,
    ensures
        parse_date(iso_text(d)) == Some(d),
{
    let y = zero_pad(decimal(d.year as nat), 4);
    let m = zero_pad(decimal(d.month as nat), 2);
    let dd = zero_pad(decimal(d.day as nat), 2);
    lemma_padded_reads_back(d.year as u32, 4);
    lemma_padded_reads_back(d.month, 2);
    lemma_padded_reads_back(d.day, 2);
    assert(fmt_padded(d.year as int, 4) == y);
    assert forall|i: int| 0 <= i < y.len() implies y[i] != '-' by {
        assert(is_digit(y[i]));
    }
    assert forall|i: int| 0 <= i < m.len() implies m[i] != '-' by {
        assert(is_digit(m[i]));
    }
    assert forall|i: int| 0 <= i < dd.len() implies dd[i] != '-' by {
        assert(is_digit(dd[i]));
    }
    lemma_split_no_sep(y, '-');
    lemma_split_no_sep(m, '-');
    lemma_split_no_sep(dd, '-');
    lemma_split_concat(m, dd, '-');
    lemma_split_concat(y, m + seq!['-'] + dd, '-');
    assert(iso_text(d) =~= y + seq!['-'] + (m + seq!['-'] + dd));
    assert(split_char(iso_text(d), '-') =~= seq![y, m, dd]);
}

/// Row `w` of the grid of such a month shows at least one day.
pub open spec fn row_has_day(start: int, total: int, w: int) -> bool {
    exists|c: int| 0 <= c < 7 && (#[trigger] grid_cell(start, total, w, c)) is Some
}

/// The calendar grid has no empty week: every row holds at least one day
/// of the month, and the last row holds the month's last day, so the grid
/// has as few rows as can hold the month.
pub proof fn lemma_grid_rows_all_used(start: int, total: int)
    requires
        0 <= start < 7,
        1 <= total <= u32::MAX,
    ensures
        forall|w: int| 0 <= w < grid_week_count(start, total) ==> #[trigger] row_has_day(start, total, w),
        (total - 1 + start) / 7 == grid_week_count(start, total) - 1,
        grid_week_count(start, total) * 7 - 7 < start + total <= grid_week_count(start, total) * 7,
{
    let n = grid_week_count(start, total);
    assert(n * 7 - 7 < start + total <= n * 7 && (total - 1 + start) / 7 == n - 1) by (nonlinear_arith)
        requires
            0 <= start < 7,
            1 <= total,
            n == if start + total <= 7 { 1 } else { (start + total + 6) / 7 },
    ;
    assert forall|w: int| 0 <= w < n implies #[trigger] row_has_day(start, total, w) by {
        if w == 0 {
            assert(grid_cell(start, total, 0, start) is Some);
        } else {
            assert(w * 7 - start + 1 <= total) by (nonlinear_arith)
                requires
                    1 <= w < n,
                    n * 7 - 7 < start + total,
            ;
            assert(1 <= w * 7 - start + 1) by (nonlinear_arith)
                requires
                    1 <= w,
                    start < 7,
            ;
            assert(grid_cell(start, total, w, 0) is Some);
        }
    }
}

/// Every day of the month appears in the calendar grid, in exactly one slot:
/// day `k` sits in row `(k - 1 + start) / 7`, column `(k - 1 + start) % 7`.
pub proof fn lemma_grid_places_each_day_once(start: int, total: int, k: int)
    requires
        0 <= start < 7,
        total <= u32::MAX,
        1 <= k <= total,
    ensures
        0 <= (k - 1 + start) / 7 < grid_week_count(start, total),
        grid_cell(start, total, (k - 1 + start) / 7, (k - 1 + start) % 7) == Some(k as u32),
        forall|w: int, c: int|
            0 <= c < 7 && #[trigger] grid_cell(start, total, w, c) == Some(k as u32) ==> w == (k - 1
                + start) / 7 && c == (k - 1 + start) % 7,
{
    assert forall|w: int, c: int|
        0 <= c < 7 && #[trigger] grid_cell(start, total, w, c) == Some(k as u32) implies w == (k - 1
            + start) / 7 && c == (k - 1 + start) % 7 by {
        let j = w * 7 + c - start + 1;
        assert(1 <= j <= total);
        assert(j == k);
        assert(w * 7 + c == k - 1 + start);
        assert(w == (k - 1 + start) / 7 && c == (k - 1 + start) % 7) by (nonlinear_arith)
            requires
                w * 7 + c == k - 1 + start,
                0 <= c < 7,
        ;
    }
}

/// Consecutive days of a month fall on consecutive days of the week.
pub proof fn lemma_weekday_advances(d: CalendarDate)
    requires
        weekday_computable(d),
        weekday_computable(CalendarDate { day: (d.day + 1) as u32, ..d }),
        d.day < i32::MAX,
    ensures
        weekday_of(CalendarDate { day: (d.day + 1) as u32, ..d }) == (weekday_of(d) + 1) % 7,
{
    let e = CalendarDate { day: (d.day + 1) as u32, ..d };
    let s = sakamoto_partials(d)[5];
    assert(sakamoto_partials(e)[5] == s + 1);
    lemma_weekday_euclid(s);
    lemma_weekday_euclid(s + 1);
}

/// The calendar day after `d`: the next day of its month, else the first
/// of the next month, else the first of January of the next year.
pub open spec fn next_day(d: CalendarDate) -> CalendarDate {
    if d.day < month_length(d.year as int, d.month as int) {
        CalendarDate { day: (d.day + 1) as u32, ..d }
    } else if d.month < 12 {
        CalendarDate { month: (d.month + 1) as u32, day: 1, ..d }
    } else {
        CalendarDate { year: (d.year + 1) as i32, month: 1, day: 1 }
    }
}

/// The year part of Sakamoto's sum: `y + y/4 - y/100 + y/400`.
pub open spec fn year_sum(y: int) -> int {
    y + trunc_div(y, 4) - trunc_div(y, 100) + trunc_div(y, 400)
}

proof fn lemma_year_sum_step(year: int)
    requires
        year >= 1,
    ensures
        year_sum(year) - year_sum(year - 1) == if leap(year) {
            2int
        } else {
            1int
        },
{
    assert((year / 4) - ((year - 1) / 4) == if year % 4 == 0 { 1int } else { 0int }) by (nonlinear_arith)
        requires
            year >= 1,
    ;
    assert((year / 100) - ((year - 1) / 100) == if year % 100 == 0 { 1int } else { 0int }) by (nonlinear_arith)
        requires
            year >= 1,
    ;
    assert((year / 400) - ((year - 1) / 400) == if year % 400 == 0 { 1int } else { 0int }) by (nonlinear_arith)
        requires
            year >= 1,
    ;
    assert(year % 400 == 0 ==> year % 100 == 0 && year % 4 == 0) by (nonlinear_arith)
        requires
            year >= 1,
    ;
    assert(year % 100 == 0 ==> year % 4 == 0) by (nonlinear_arith)
        requires
            year >= 1,
    ;
}

/// Consecutive calendar days fall on consecutive days of the week, across
/// the end of a month and of a year too (for the years from 1 on, where
/// the day of the week can be computed).
pub proof fn lemma_weekday_next_day(d: CalendarDate)
    requires
        d.year >= 1,
        d.year < i32::MAX,
        valid_date(d),
        weekday_computable(d),
        weekday_computable(next_day(d)),
    ensures
        valid_date(next_day(d)),
        weekday_of(next_day(d)) == (weekday_of(d) + 1) % 7,
{
    let e = next_day(d);
    let sd = sakamoto_partials(d)[5];
    let se = sakamoto_partials(e)[5];
    let y = sakamoto_year(d);
    assert(sakamoto_partials(d)[3] == year_sum(y));
    assert(sakamoto_partials(e)[3] == year_sum(sakamoto_year(e)));
    if d.day < month_length(d.year as int, d.month as int) {
        assert(se == sd + 1);
    } else if d.month < 12 {
        if d.month == 2 {
            lemma_year_sum_step(d.year as int);
            assert(se == sd + 1 - 28);
        } else {
            assert(sakamoto_year(e) == y);
            assert(se - sd - 1 == sakamoto_offset(d.month + 1) - sakamoto_offset(d.month as int)
                - month_length(d.year as int, d.month as int));
            assert((se - sd - 1) % 7 == 0);
        }
    } else {
        assert(sakamoto_year(e) == y);
        assert(se == sd - 34);
    }
    assert((se - sd - 1) % 7 == 0);
    assert(sd >= 0 && se >= 0) by {
        assert(y >= 0);
    }
    lemma_weekday_euclid(sd);
    lemma_weekday_euclid(se);
    assert((se + 6) % 7 == ((sd + 6) % 7 + 1) % 7) by (nonlinear_arith)
        requires
            (se - sd - 1) % 7 == 0,
    ;
}

proof fn lemma_weekday_euclid(s: int)
    ensures
        trunc_rem(trunc_rem(s, 7) + 6, 7) == (s + 6) % 7,
{
}

} // verus!
