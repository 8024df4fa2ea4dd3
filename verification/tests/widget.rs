use chrono::Datelike;
use egui_datepicker::date::{day_number, PickerDate};
use egui_datepicker::picker::{is_default_weekend, popup_after_events, Color, DatePicker};
use egui_datepicker::strftime::format_date;
use egui_datepicker::translation::{translation_english, translation_french};

fn d(year: i32, month: u32, day: u32) -> PickerDate {
    PickerDate::new(year, month, day).unwrap()
}

#[test]
fn new_has_documented_defaults() {
    let p = DatePicker::new(d(2021, 3, 4));
    assert_eq!(p.date, d(2021, 3, 4));
    assert!(!p.sunday_first);
    assert!(!p.movable);
    assert_eq!(p.format_string, "%Y-%m-%d");
    assert_eq!(p.weekend_color, Color { r: 196, g: 0, b: 0, a: 255 });
    assert!(p.highlight_weekend);
    assert_eq!(p.translation.today, "Today");
}

#[test]
fn builders_set_their_field() {
    let p = DatePicker::new(d(2021, 3, 4))
        .sunday_first(true)
        .movable(true)
        .date_format("%d.%m.%Y")
        .highlight_weekend(false)
        .highlight_weekend_color(Color { r: 0, g: 0, b: 200, a: 255 })
        .translation(translation_french());
    assert!(p.sunday_first);
    assert!(p.movable);
    assert_eq!(p.format_string, "%d.%m.%Y");
    assert!(!p.highlight_weekend);
    assert_eq!(p.weekend_color, Color { r: 0, g: 0, b: 200, a: 255 });
    assert_eq!(p.translation.today, "Aujourd'hui");
    assert_eq!(p.date, d(2021, 3, 4));
}

#[test]
fn start_and_end_offsets_for_march_2021() {
    // 2021-03-01 was a Monday; 2021-04-01 a Thursday.
    let p = DatePicker::new(d(2021, 3, 14));
    assert_eq!(p.get_start_offset_of_calendar(&d(2021, 3, 1)), 0);
    assert_eq!(p.get_end_offset_of_calendar(&d(2021, 4, 1)), 4);
    let q = DatePicker::new(d(2021, 3, 14)).sunday_first(true);
    assert_eq!(q.get_start_offset_of_calendar(&d(2021, 3, 1)), 1);
    assert_eq!(q.get_end_offset_of_calendar(&d(2021, 4, 1)), 3);
}

#[test]
fn offsets_agree_with_chrono() {
    for (y, m) in [(2021, 1), (2021, 2), (2020, 2), (2021, 12), (1999, 6)] {
        let first = chrono::NaiveDate::from_ymd_opt(y, m, 1).unwrap();
        let p = DatePicker::new(d(y, m, 1));
        assert_eq!(
            p.get_start_offset_of_calendar(&d(y, m, 1)),
            first.weekday().num_days_from_monday()
        );
        let q = DatePicker::new(d(y, m, 1)).sunday_first(true);
        assert_eq!(
            q.get_start_offset_of_calendar(&d(y, m, 1)),
            first.weekday().num_days_from_sunday()
        );
    }
}

#[test]
fn calendar_grid_for_may_2021() {
    // May 2021 starts on a Saturday and ends on a Monday: with Monday first
    // the grid leads with 5 days of April and trails with 6 days of June.
    let p = DatePicker::new(d(2021, 5, 20));
    let g = p.calendar_days();
    assert_eq!(g.len(), 42);
    assert_eq!(g[0], d(2021, 4, 26));
    assert_eq!(g[5], d(2021, 5, 1));
    assert_eq!(g[35], d(2021, 5, 31));
    assert_eq!(g[41], d(2021, 6, 6));
    for w in g.windows(2) {
        assert_eq!(day_number(&w[1]), day_number(&w[0]) + 1);
    }
}

#[test]
fn calendar_grid_is_whole_weeks_over_a_year() {
    for m in 1..=12u32 {
        let p = DatePicker::new(d(2021, m, 1));
        let g = p.calendar_days();
        assert_eq!(g.len() % 7, 0, "month {}", m);
        let q = DatePicker::new(d(2021, m, 1)).sunday_first(true);
        let h = q.calendar_days();
        assert_eq!(h.len() % 7, 0, "month {}", m);
        assert!(h[0].day <= 7 || h[0].month != m);
    }
}

#[test]
fn calendar_grid_agrees_with_chrono() {
    for year in [2023, 2024] {
        for month in 1..=12u32 {
            for sunday_first in [false, true] {
                let p = DatePicker::new(d(year, month, 1)).sunday_first(sunday_first);
                let g = p.calendar_days();
                let first = chrono::NaiveDate::from_ymd_opt(year, month, 1).unwrap();
                let lead = if sunday_first {
                    first.weekday().num_days_from_sunday()
                } else {
                    first.weekday().num_days_from_monday()
                } as usize;
                assert_eq!(g[lead], d(year, month, 1));
                for (i, cell) in g.iter().enumerate() {
                    let nd = first + chrono::Duration::days(i as i64 - lead as i64);
                    assert_eq!((cell.year, cell.month, cell.day), (nd.year(), nd.month(), nd.day()));
                }
                let next_first = if month == 12 {
                    chrono::NaiveDate::from_ymd_opt(year + 1, 1, 1).unwrap()
                } else {
                    chrono::NaiveDate::from_ymd_opt(year, month + 1, 1).unwrap()
                };
                let in_month = g.iter().filter(|c| c.month == month && c.year == year).count();
                assert_eq!(in_month as i64, (next_first - first).num_days());
            }
        }
    }
}

#[test]
fn calendar_grid_across_year_boundaries() {
    let p = DatePicker::new(d(2020, 12, 25));
    let g = p.calendar_days();
    // 2020-12-01 was a Tuesday; 2021-01-01 a Friday.
    assert_eq!(g[0], d(2020, 11, 30));
    assert_eq!(g[1], d(2020, 12, 1));
    assert_eq!(g[g.len() - 1], d(2021, 1, 3));
}

#[test]
fn header_names_follow_the_configured_first_day() {
    let p = DatePicker::new(d(2021, 3, 4));
    assert_eq!(
        p.header_weekday_names(),
        vec!["Mon", "Tue", "Wed", "Thu", "Fri", "Sat", "Sun"]
    );
    let q = DatePicker::new(d(2021, 3, 4)).sunday_first(true);
    assert_eq!(
        q.header_weekday_names(),
        vec!["Sun", "Mon", "Tue", "Wed", "Thu", "Fri", "Sat"]
    );
}

#[test]
fn month_label_uses_the_translation() {
    let p = DatePicker::new(d(2021, 3, 4));
    assert_eq!(p.month_label(), "March");
    let q = DatePicker::new(d(2021, 3, 4)).translation(translation_french());
    assert_eq!(q.month_label(), "mars");
    let r = DatePicker::new(d(2021, 12, 4));
    assert_eq!(r.month_label(), "December");
}

#[test]
fn day_cell_styles() {
    let p = DatePicker::new(d(2021, 3, 4));
    let selected = p.day_cell(&d(2021, 3, 4), false);
    assert!(!selected.enabled);
    assert!(selected.framed);
    assert!(!selected.highlighted);
    assert_eq!(selected.label_day, 4);
    let weekend = p.day_cell(&d(2021, 3, 6), true);
    assert!(weekend.enabled);
    assert!(weekend.highlighted);
    let outside = p.day_cell(&d(2021, 2, 28), false);
    assert!(!outside.framed);
    let no_highlight = DatePicker::new(d(2021, 3, 4)).highlight_weekend(false);
    assert!(!no_highlight.day_cell(&d(2021, 3, 6), true).highlighted);
}

#[test]
fn default_weekend_is_saturday_and_sunday() {
    assert!(is_default_weekend(&d(2021, 3, 6)));
    assert!(is_default_weekend(&d(2021, 3, 7)));
    assert!(!is_default_weekend(&d(2021, 3, 8)));
    assert!(!is_default_weekend(&d(2021, 3, 5)));
}

#[test]
fn date_step_moves_by_days() {
    let mut p = DatePicker::new(d(2021, 1, 15));
    assert!(p.date_step(30));
    assert_eq!(p.date, d(2021, 2, 14));
    assert!(p.date_step(-30));
    assert_eq!(p.date, d(2021, 1, 15));
    assert!(p.date_step(365));
    assert_eq!(p.date, d(2022, 1, 15));
    let mut q = DatePicker::new(d(9999, 12, 20));
    assert!(!q.date_step(30));
    assert_eq!(q.date, d(9999, 12, 20));
}

#[test]
fn set_year_keeps_the_rest() {
    let mut p = DatePicker::new(d(2020, 2, 29)).movable(true);
    assert!(!p.set_year(2021));
    assert_eq!(p.date, d(2020, 2, 29));
    assert!(p.set_year(2024));
    assert_eq!(p.date, d(2024, 2, 29));
    assert!(p.movable);
}

#[test]
fn select_day_replaces_the_date() {
    let mut p = DatePicker::new(d(2021, 3, 4)).sunday_first(true);
    p.select_day(d(2021, 3, 17));
    assert_eq!(p.date, d(2021, 3, 17));
    assert!(p.sunday_first);
}

#[test]
fn popup_state_after_frame_events() {
    // A click on the widget's button toggles the popup.
    assert!(popup_after_events(false, true, false, false));
    assert!(!popup_after_events(true, true, false, false));
    // Escape or a click elsewhere closes an open popup.
    assert!(!popup_after_events(true, false, true, false));
    assert!(!popup_after_events(true, false, false, true));
    assert!(popup_after_events(true, false, false, false));
    assert!(!popup_after_events(false, false, true, true));
}

#[test]
fn format_date_produces_chronos_text() {
    assert_eq!(format_date(&d(2021, 3, 4), "%Y-%m-%d").unwrap(), "2021-03-04");
    assert_eq!(format_date(&d(2021, 3, 4), "%d/%m/%Y").unwrap(), "04/03/2021");
    assert_eq!(format_date(&d(1999, 12, 31), "%B %e, %Y").unwrap(), "December 31, 1999");
    let nd = chrono::NaiveDate::from_ymd_opt(2021, 3, 4).unwrap();
    assert_eq!(format_date(&d(2021, 3, 4), "%A %j").unwrap(), nd.format("%A %j").to_string());
}

#[test]
fn format_date_refuses_bad_or_timed_formats() {
    assert!(format_date(&d(2021, 3, 4), "%!").is_none());
    assert!(format_date(&d(2021, 3, 4), "%H:%M").is_none());
    assert!(format_date(&d(2021, 3, 4), "%").is_none());
}

#[test]
fn formatted_date_uses_the_configured_format() {
    let p = DatePicker::new(d(2021, 3, 4));
    assert_eq!(p.formatted_date().unwrap(), "2021-03-04");
    let q = DatePicker::new(d(2021, 3, 4)).date_format("%d.%m.%Y");
    assert_eq!(q.formatted_date().unwrap(), "04.03.2021");
    let r = DatePicker::new(d(2021, 3, 4)).date_format("%S");
    assert!(r.formatted_date().is_none());
}

#[test]
fn translation_tables_hold_the_expected_strings() {
    let en = translation_english();
    assert_eq!(en.month[0], "January");
    assert_eq!(en.month[11], "December");
    assert_eq!(en.weekday_short[0], "Sun");
    assert_eq!(en.weekday_short[6], "Sat");
    let fr = translation_french();
    assert_eq!(fr.month[0], "janvier");
    assert_eq!(fr.month[7], "août");
    assert_eq!(fr.weekday_short[0], "dim.");
}
