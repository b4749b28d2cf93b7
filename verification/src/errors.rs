use vstd::prelude::*;

verus! {

/// The failure taxonomy of the calendar engine.
#[derive(Clone, Copy, Debug, PartialEq, Eq, Structural)]
pub enum CalendarError {
    /// An instant earlier than the fictional epoch was handed to a conversion.
    ConversionError,
    /// A required data source (base events or elections) was absent.
    DataUnavailable,
    /// A recurrence query was made on an event that has no recurrence.
    PreconditionViolation,
}

} // verus!
