//! The date-picker widget state: display configuration with builder methods,
//! the calendar-grid layout, and the per-frame decisions (which day each grid
//! cell shows, how a day button is styled, whether the popup stays open).

use vstd::prelude::*;
use crate::date::{
    PickerDate, MIN_YEAR, MAX_YEAR, valid_ymd, days_in_month_spec, days_in_month, day_number_spec,
    dn_of, weekday_from_monday_spec, weekday_from_sunday_spec, weekday_from_monday,
    weekday_from_sunday, add_days, checked_add_days, next_day, lemma_dn_injective,
};
use crate::translation::{DateTranslation, translation_english};

verus! {

/// An RGBA color, as the host toolkit's color is handed over: plain channel
/// values.
#[derive(Clone, Copy, PartialEq, Eq, Structural, Debug)]
pub struct Color {
    pub r: u8,
    pub g: u8,
    pub b: u8,
    pub a: u8,
}

/// The date-picker widget: the selected date together with its display
/// options.
///
/// Default values of the fields are:
/// - `sunday_first`: `false`
/// - `movable`: `false`
/// - `format_string`: `"%Y-%m-%d"`
/// - `weekend_color`: opaque rgb(196, 0, 0)
/// - `highlight_weekend`: `true`
/// - `translation`: English
pub struct DatePicker {
    pub date: PickerDate,
    pub sunday_first: bool,
    pub movable: bool,
    pub format_string: String,
    pub weekend_color: Color,
    pub highlight_weekend: bool,
    pub translation: DateTranslation,
}

impl DatePicker {
    /// Create a new date picker holding the given date, with every option at
    /// its default.
    pub fn new(date: PickerDate) -> (r: DatePicker)
        requires
            date.inv(),
        ensures
            r.date == date,
            r.sunday_first == false,
            r.movable == false,
            r.format_string@ == "%Y-%m-%d"@,
            r.weekend_color == (Color { r: 196, g: 0, b: 0, a: 255 }),
            r.highlight_weekend == true,
            r.translation.month@ == seq![
                "January", "February", "March", "April", "May", "June", "July",
                "August", "September", "October", "November", "December",
            ],
            r.translation.weekday_short@ == seq![
                "Sun", "Mon", "Tue", "Wed", "Thu", "Fri", "Sat",
            ],
            r.translation.today == "Today",
    {
        DatePicker {
            date,
            sunday_first: false,
            movable: false,
            format_string: String::from_str("%Y-%m-%d"),
            weekend_color: Color { r: 196, g: 0, b: 0, a: 255 },
            highlight_weekend: true,
            translation: translation_english(),
        }
    }

    /// If the flag is true then the first day in the calendar will be Sunday,
    /// otherwise Monday. Default is false.
    #[must_use]
    pub fn sunday_first(self, flag: bool) -> (r: Self)
        ensures
            r == (DatePicker { sunday_first: flag, ..self }),
    {
        DatePicker { sunday_first: flag, ..self }
    }

    /// If the flag is true then the date-picker popup will be movable.
    /// Default is false.
    #[must_use]
    pub fn movable(self, flag: bool) -> (r: Self)
        ensures
            r == (DatePicker { movable: flag, ..self }),
    {
        DatePicker { movable: flag, ..self }
    }

    /// Set the date format (a strftime string).
    #[must_use]
    pub fn date_format(self, new_format: &str) -> (r: Self)
        ensures
            r.format_string@ == new_format@,
            r == (DatePicker { format_string: r.format_string, ..self }),
    {
        DatePicker { format_string: String::from_str(new_format), ..self }
    }

    /// If highlighting is on, weekend days are drawn in `weekend_color`
    /// instead of the default text color.
    #[must_use]
    pub fn highlight_weekend(self, highlight: bool) -> (r: Self)
        ensures
            r == (DatePicker { highlight_weekend: highlight, ..self }),
    {
        DatePicker { highlight_weekend: highlight, ..self }
    }

    /// Set the weekend highlighting color.
    #[must_use]
    pub fn highlight_weekend_color(self, color: Color) -> (r: Self)
        ensures
            r == (DatePicker { weekend_color: color, ..self }),
    {
        DatePicker { weekend_color: color, ..self }
    }

    /// Set the translation of this date picker.
    #[must_use]
    pub fn translation(self, translation: DateTranslation) -> (r: Self)
        ensures
            r.translation == translation,
            r == (DatePicker { translation: r.translation, ..self }),
    {
        DatePicker { translation, ..self }
    }
}

/// Days between the first day shown in a week row and the given date:
/// its weekday index counted from the configured first day of the week.
pub open spec fn start_offset_spec(sunday_first: bool, d: PickerDate) -> int {
    if sunday_first {
        weekday_from_sunday_spec(d.year as int, d.month as int, d.day as int)
    } else {
        weekday_from_monday_spec(d.year as int, d.month as int, d.day as int)
    }
}

/// Days needed after the last day of the month to fill its week row, given
/// the first day of the next month.
pub open spec fn end_offset_spec(sunday_first: bool, d: PickerDate) -> int {
    (7 - start_offset_spec(sunday_first, d)) % 7
}

/// The first day of the month `d` lies in.
pub open spec fn first_of_month_spec(d: PickerDate) -> PickerDate {
    PickerDate { year: d.year, month: d.month, day: 1 }
}

/// The first day of the month after the one `d` lies in.
pub open spec fn first_of_next_month_spec(d: PickerDate) -> PickerDate {
    if d.month == 12 {
        PickerDate { year: (d.year + 1) as i32, month: 1, day: 1 }
    } else {
        PickerDate { year: d.year, month: (d.month + 1) as u32, day: 1 }
    }
}

/// Number of cells in the calendar grid for the month of `d`: leading days
/// of the previous month, the month itself, trailing days of the next month.
pub open spec fn grid_len_spec(sunday_first: bool, d: PickerDate) -> int {
    start_offset_spec(sunday_first, first_of_month_spec(d)) + days_in_month_spec(
        d.year as int,
        d.month as int,
    ) + end_offset_spec(sunday_first, first_of_next_month_spec(d))
}

impl DatePicker {
    /// Get the number of days between the first day of the month and the
    /// configured first day of the week (Monday, or Sunday if `sunday_first`
    /// is set).
    pub fn get_start_offset_of_calendar(&self, first_day: &PickerDate) -> (r: u32)
        requires
            first_day.inv(),
        ensures
            r == start_offset_spec(self.sunday_first, *first_day),
            r < 7,
    {
        if self.sunday_first {
            weekday_from_sunday(first_day)
        } else {
            weekday_from_monday(first_day)
        }
    }

    /// Get the number of days between the first day of the next month and
    /// the configured first day of the week, counted so that it completes
    /// the last week row of the grid.
    pub fn get_end_offset_of_calendar(&self, first_day: &PickerDate) -> (r: u32)
        requires
            first_day.inv(),
        ensures
            r == end_offset_spec(self.sunday_first, *first_day),
            r < 7,
    {
        let so: u32 = self.get_start_offset_of_calendar(first_day);
        (7 - so) % 7
    }
}

/// A grid whose leading offset, month days and trailing offset come from the
/// weekday numbering always holds a whole number of week rows.
proof fn lemma_grid_multiple_of_7(sf: bool, f: PickerDate, fnx: PickerDate, dim: int)
    requires
        dim == dn_of(fnx) - dn_of(f),
    ensures
        (start_offset_spec(sf, f) + dim + end_offset_spec(sf, fnx)) % 7 == 0,
{
    let c: int = if sf { 6 } else { 5 };
    let a: int = dn_of(f) + c;
    let b: int = dn_of(fnx) + c;
    vstd::arithmetic::div_mod::lemma_fundamental_div_mod(a, 7);
    vstd::arithmetic::div_mod::lemma_fundamental_div_mod(b, 7);
    vstd::arithmetic::div_mod::lemma_mod_division_less_than_divisor(a, 7);
    vstd::arithmetic::div_mod::lemma_mod_division_less_than_divisor(b, 7);
    let t: int = a % 7 + dim + (7 - b % 7) % 7;
    if b % 7 == 0 {
        assert(t == 7 * (b / 7 - a / 7));
        vstd::arithmetic::div_mod::lemma_mod_multiples_vanish(b / 7 - a / 7, 0, 7);
    } else {
        vstd::arithmetic::div_mod::lemma_small_mod((7 - b % 7) as nat, 7);
        assert(t == 7 * (b / 7 - a / 7 + 1));
        vstd::arithmetic::div_mod::lemma_mod_multiples_vanish(b / 7 - a / 7 + 1, 0, 7);
    }
}

impl DatePicker {
    /// The dates of every cell of the calendar grid for the month of the
    /// selected date, in order: consecutive days starting on the week's
    /// first day, covering the whole month, ending at the end of a week row.
    pub fn calendar_days(&self) -> (r: Vec<PickerDate>)
        requires
            self.date.inv(),
            MIN_YEAR < self.date.year < MAX_YEAR,
        ensures
            r@.len() == grid_len_spec(self.sunday_first, self.date),
            r@.len() % 7 == 0,
            forall|i: int| 0 <= i < r@.len() ==> (#[trigger] r@[i]).inv(),
            forall|i: int|
                0 <= i < r@.len() ==> dn_of(#[trigger] r@[i]) == dn_of(
                    first_of_month_spec(self.date),
                ) - start_offset_spec(self.sunday_first, first_of_month_spec(self.date)) + i,
            r@[start_offset_spec(self.sunday_first, first_of_month_spec(self.date))]
                == first_of_month_spec(self.date),
            start_offset_spec(self.sunday_first, r@[0]) == 0,
    {
        let ghost y: int = self.date.year as int;
        let ghost m: int = self.date.month as int;
        let first: PickerDate = PickerDate { year: self.date.year, month: self.date.month, day: 1 };
        let so: u32 = self.get_start_offset_of_calendar(&first);
        let dim: u32 = days_in_month(self.date.year, self.date.month);
        let first_next: PickerDate = if self.date.month < 12 {
            PickerDate { year: self.date.year, month: self.date.month + 1, day: 1 }
        } else {
            PickerDate { year: self.date.year + 1, month: 1, day: 1 }
        };
        proof {
            if m < 12 {
                crate::date::lemma_month_step(y, m);
            } else {
                crate::date::lemma_year_step(y);
            }
            assert(dn_of(first_next) == dn_of(first) + dim);
            crate::date::lemma_dn_within_year(y, m, 1);
            crate::date::lemma_dby_mono(MIN_YEAR as int, y);
            crate::date::lemma_dby_mono(y + 1, MAX_YEAR as int);
            if first_next.year as int == y + 1 {
                crate::date::lemma_dn_within_year(y + 1, 1, 1);
            } else {
                crate::date::lemma_dn_within_year(y, first_next.month as int, 1);
            }
            crate::date::lemma_dby_step(MAX_YEAR as int);
            crate::date::lemma_days_before_month_13(MAX_YEAR as int);
            assert(crate::date::days_before_month_spec(MAX_YEAR as int, 13)
                == crate::date::days_before_month_spec(MAX_YEAR as int, 12) + days_in_month_spec(
                MAX_YEAR as int,
                12,
            ));
            assert(crate::date::days_before_month_spec(MIN_YEAR as int, 1) == 0);
            assert(day_number_spec(MIN_YEAR as int, 1, 1) <= dn_of(first) - so);
            assert(dn_of(first_next) + 6 <= day_number_spec(MAX_YEAR as int, 12, 31));
        }
        let eo: u32 = self.get_end_offset_of_calendar(&first_next);
        let total: u32 = so + dim + eo;
        proof {
            lemma_grid_multiple_of_7(self.sunday_first, first, first_next, dim as int);
            vstd::arithmetic::div_mod::lemma_mod_division_less_than_divisor(total as int, 7);
        }
        let start: PickerDate = add_days(&first, -(so as i64));
        let mut days: Vec<PickerDate> = Vec::new();
        let mut cur: PickerDate = start;
        let mut i: u32 = 0;
        #[verifier::loop_isolation(false)]
        while i < total
            invariant
                0 <= i <= total,
                cur.inv(),
                dn_of(cur) == dn_of(start) + i,
                days@.len() == i,
                forall|j: int| 0 <= j < i ==> (#[trigger] days@[j]).inv(),
                forall|j: int| 0 <= j < i ==> dn_of(#[trigger] days@[j]) == dn_of(start) + j,
            decreases total - i,
        {
            days.push(cur);
            proof {
                if cur.year == MAX_YEAR && cur.month == 12 && cur.day == 31 {
                    assert(dn_of(cur) == day_number_spec(MAX_YEAR as int, 12, 31));
                }
            }
            cur = next_day(&cur);
            i = i + 1;
        }
        proof {
            assert(days@[so as int].inv());
            assert(dn_of(days@[so as int]) == dn_of(first));
            lemma_dn_injective(days@[so as int], first);
            if total > 0 {
                let c: int = if self.sunday_first { 6 } else { 5 };
                assert(dn_of(days@[0]) == dn_of(first) - so);
                assert((dn_of(days@[0]) + c) % 7 == 0) by {
                    assert(dn_of(days@[0]) + c == (dn_of(first) + c) - so);
                    vstd::arithmetic::div_mod::lemma_fundamental_div_mod(dn_of(first) + c, 7);
                    vstd::arithmetic::div_mod::lemma_mod_multiples_vanish(
                        (dn_of(first) + c) / 7,
                        0,
                        7,
                    );
                }
            }
        }
        days
    }
}

/// The default weekend rule: Saturday or Sunday.
pub open spec fn is_weekend_spec(d: PickerDate) -> bool {
    weekday_from_monday_spec(d.year as int, d.month as int, d.day as int) == 5
        || weekday_from_monday_spec(d.year as int, d.month as int, d.day as int) == 6
}

/// Whether a date falls on the default weekend (Saturday or Sunday).
pub fn is_default_weekend(d: &PickerDate) -> (r: bool)
    requires
        d.inv(),
    ensures
        r == is_weekend_spec(*d),
{
    let wd: u32 = weekday_from_monday(d);
    wd == 5 || wd == 6
}

/// How one day button of the grid is drawn.
#[derive(Clone, Copy, PartialEq, Eq, Structural, Debug)]
pub struct DayCell {
    /// The button is enabled (the day is not the selected date).
    pub enabled: bool,
    /// The day belongs to the shown month (other days lose their frame).
    pub framed: bool,
    /// The day's text is drawn in the weekend color.
    pub highlighted: bool,
    /// The number shown on the button.
    pub label_day: u32,
}

impl DatePicker {
    /// How the day button for `date` is drawn: disabled when it is the
    /// selected date, frameless when it lies outside the selected month, and
    /// highlighted when weekend highlighting is on and `is_weekend` holds
    /// (the configured weekend predicate's verdict on `date`).
    pub fn day_cell(&self, date: &PickerDate, is_weekend: bool) -> (r: DayCell)
        ensures
            r.enabled == (*date != self.date),
            r.framed == (date.month == self.date.month),
            r.highlighted == (self.highlight_weekend && is_weekend),
            r.label_day == date.day,
    {
        DayCell {
            enabled: !(date.year == self.date.year && date.month == self.date.month && date.day
                == self.date.day),
            framed: date.month == self.date.month,
            highlighted: self.highlight_weekend && is_weekend,
            label_day: date.day,
        }
    }

    /// Select the given date (a day button was clicked).
    pub fn select_day(&mut self, date: PickerDate)
        requires
            date.inv(),
        ensures
            *final(self) == (DatePicker { date, ..*old(self) }),
    {
        self.date = date;
    }

    /// The short names of the week days in the order of the grid header:
    /// the calendar order, starting with Sunday when `sunday_first` is set
    /// and with Monday otherwise, matching the grid's columns.
    pub fn header_weekday_names(&self) -> (r: Vec<&'static str>)
        ensures
            r@.len() == 7,
            forall|i: int|
                0 <= i < 7 ==> #[trigger] r@[i] == self.translation.weekday_short@[
                    header_index_spec(self.sunday_first, i)],
    {
        let idx: [usize; 7] = if self.sunday_first {
            [0, 1, 2, 3, 4, 5, 6]
        } else {
            [1, 2, 3, 4, 5, 6, 0]
        };
        let mut names: Vec<&'static str> = Vec::new();
        let mut i: usize = 0;
        #[verifier::loop_isolation(false)]
        while i < 7
            invariant
                0 <= i <= 7,
                names@.len() == i,
                forall|j: int|
                    0 <= j < i ==> #[trigger] names@[j] == self.translation.weekday_short@[
                        header_index_spec(self.sunday_first, j)],
            decreases 7 - i,
        {
            names.push(self.translation.weekday_short[idx[i]]);
            i = i + 1;
        }
        names
    }

    /// The translated name of the selected date's month.
    pub fn month_label(&self) -> (r: &'static str)
        requires
            self.date.inv(),
        ensures
            r == self.translation.month@[self.date.month as int - 1],
    {
        self.translation.month[(self.date.month - 1) as usize]
    }

    /// Step the selected date by `n` days (the `<`/`>` buttons use -30/30
    /// for months and -365/365 for years). Returns whether the step stayed
    /// within the supported range; out of range, the date is unchanged.
    pub fn date_step(&mut self, n: i64) -> (r: bool)
        requires
            old(self).date.inv(),
            -10000000 <= n <= 10000000,
        ensures
            r <==> day_number_spec(MIN_YEAR as int, 1, 1) <= dn_of(old(self).date) + n
                <= day_number_spec(MAX_YEAR as int, 12, 31),
            r ==> final(self).date.inv() && dn_of(final(self).date) == dn_of(old(self).date) + n,
            !r ==> final(self).date == old(self).date,
            *final(self) == (DatePicker { date: final(self).date, ..*old(self) }),
    {
        match checked_add_days(&self.date, n) {
            Some(d) => {
                self.date = d;
                true
            },
            None => false,
        }
    }

    /// The selected date formatted with the configured format string, for
    /// the widget's button label; `None` exactly when chrono cannot format
    /// a plain date with that string.
    pub fn formatted_date(&self) -> (r: Option<String>)
        requires
            self.date.inv(),
        ensures
            r is Some <==> crate::strftime::strftime_ok(self.format_string@),
            r matches Some(s) ==> s@ == crate::strftime::strftime_of(
                self.format_string@,
                self.date.year as int,
                self.date.month as int,
                self.date.day as int,
            ),
    {
        crate::strftime::format_date(&self.date, self.format_string.as_str())
    }

    /// Replace the selected date's year (the year drag control). Returns
    /// whether the month and day exist in that year; otherwise the date is
    /// unchanged.
    pub fn set_year(&mut self, year: i32) -> (r: bool)
        ensures
            r <==> valid_ymd(year as int, old(self).date.month as int, old(self).date.day as int),
            r ==> final(self).date == (PickerDate {
                year,
                month: old(self).date.month,
                day: old(self).date.day,
            }),
            !r ==> final(self).date == old(self).date,
            *final(self) == (DatePicker { date: final(self).date, ..*old(self) }),
    {
        match self.date.with_year(year) {
            Some(d) => {
                self.date = d;
                true
            },
            None => false,
        }
    }
}

/// The weekday-name index shown in column `i` of the grid header. The name
/// table starts at Sunday, so with Sunday first the names appear in table
/// order; with Monday first every name moves one column left and Sunday
/// wraps to the last column.
pub open spec fn header_index_spec(sunday_first: bool, i: int) -> int {
    if sunday_first {
        i
    } else {
        (i + 1) % 7
    }
}

/// Whether the popup is open after one frame's events: a click on the
/// widget's button toggles it; otherwise, when it was open, pressing Escape
/// or clicking elsewhere closes it.
pub open spec fn popup_after_events_spec(
    open: bool,
    button_clicked: bool,
    escape_pressed: bool,
    clicked_elsewhere: bool,
) -> bool {
    if button_clicked {
        !open
    } else {
        open && !escape_pressed && !clicked_elsewhere
    }
}

/// The popup-open state after one frame's events.
pub fn popup_after_events(
    open: bool,
    button_clicked: bool,
    escape_pressed: bool,
    clicked_elsewhere: bool,
) -> (r: bool)
    ensures
        r == popup_after_events_spec(open, button_clicked, escape_pressed, clicked_elsewhere),
{
    let o: bool = if button_clicked {
        !open
    } else {
        open
    };
    if o && !button_clicked && (escape_pressed || clicked_elsewhere) {
        !o
    } else {
        o
    }
}

} // verus!
