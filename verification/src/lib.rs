//! Core of a date-picker widget for an immediate-mode GUI: verified calendar
//! arithmetic (days in a month, weekdays, grid offsets), a plain date value,
//! display configuration with builder methods, and translation tables for the
//! month and weekday names shown in the popup.
//!
//! Drawing and input handling belong to the host toolkit and live outside this
//! library; everything here is plain data and arithmetic with contracts.

pub mod date;
pub mod picker;
pub mod strftime;
pub mod translation;
