//! Translation tables for the strings a date picker shows: full month names,
//! short weekday names, and the label of the "today" button.

use vstd::prelude::*;

verus! {

/// A translation for the strings shown by the date picker.
pub struct DateTranslation {
    /// The full-length twelve months of a year (starting at January).
    pub month: [&'static str; 12],
    /// A shortened version of the 7 days of the week (starting at Sunday).
    pub weekday_short: [&'static str; 7],
    /// Translation of the "today" button, which sets the date to the current
    /// date when clicked.
    pub today: &'static str,
}

/// The English translation table.
pub fn translation_english() -> (r: DateTranslation)
    ensures
        r.month@ == seq![
            "January", "February", "March", "April", "May", "June", "July",
            "August", "September", "October", "November", "December",
        ],
        r.weekday_short@ == seq!["Sun", "Mon", "Tue", "Wed", "Thu", "Fri", "Sat"],
        r.today == "Today",
{
    DateTranslation {
        month: [
            "January", "February", "March", "April", "May", "June", "July",
            "August", "September", "October", "November", "December",
        ],
        weekday_short: ["Sun", "Mon", "Tue", "Wed", "Thu", "Fri", "Sat"],
        today: "Today",
    }
}

/// The French translation table.
pub fn translation_french() -> (r: DateTranslation)
    ensures
        r.month@ == seq![
            "janvier", "février", "mars", "avril", "mai", "juin", "juillet",
            "août", "septembre", "octobre", "novembre", "décembre",
        ],
        r.weekday_short@ == seq!["dim.", "lun.", "mar.", "mer.", "jeu.", "ven.", "sam."],
        r.today == "Aujourd'hui",
{
    DateTranslation {
        month: [
            "janvier", "février", "mars", "avril", "mai", "juin", "juillet",
            "août", "septembre", "octobre", "novembre", "décembre",
        ],
        weekday_short: ["dim.", "lun.", "mar.", "mer.", "jeu.", "ven.", "sam."],
        today: "Aujourd'hui",
    }
}

} // verus!
