use vstd::prelude::*;

verus! {

/// Everything that can go wrong inside the library's own logic.  Every
/// condition is fatal to a run of the browser: the caller reports the
/// diagnostic and exits with a failure status.
#[derive(Clone, Copy, Debug, PartialEq, Eq, Structural)]
pub enum TrashError {
    /// A listing line holds fewer than the 19 characters of a timestamp.
    ShortLine,
    /// The first 19 characters of a listing line are not a date and time
    /// of the form `YYYY-MM-DD HH:MM:SS`.
    BadTimestamp,
    /// A deletion timestamp lies outside the range that can be rendered
    /// as a calendar date.
    TimestampOutOfRange,
    /// A menu selection holds no tab delimiter, or nothing after the icon.
    MalformedSelection,
}

impl TrashError {
    /// A human-readable diagnostic for the condition.
    pub fn message(&self) -> (r: &'static str)
        ensures
            *self == TrashError::ShortLine ==> r@ == "listing line is shorter than a timestamp"@,
            *self == TrashError::BadTimestamp ==> r@ == "listing line does not start with a valid date and time"@,
            *self == TrashError::TimestampOutOfRange ==> r@ == "deletion timestamp cannot be rendered as a date"@,
            *self == TrashError::MalformedSelection ==> r@ == "menu selection is not a display line"@,
    {
        match self {
            TrashError::ShortLine => "listing line is shorter than a timestamp",
            TrashError::BadTimestamp => "listing line does not start with a valid date and time",
            TrashError::TimestampOutOfRange => "deletion timestamp cannot be rendered as a date",
            TrashError::MalformedSelection => "menu selection is not a display line",
        }
    }
}

} // verus!
