//! What can go wrong while the cache is filled.

use vstd::prelude::*;

verus! {

/// The two classes of fatal error. Either one aborts the fill and leaves
/// the cache empty, so that a later call can try again.
#[derive(Clone, Copy, Debug, PartialEq, Eq, Structural)]
pub enum ErrorKind {
    /// A capacity of the cache is exceeded, or the source cannot serve it.
    Configuration,
    /// The rows handed in contradict each other or lack a value.
    DataIntegrity,
}

/// Why a fill failed.
#[derive(Clone, Copy, Debug, PartialEq, Eq, Structural)]
pub enum CacheError {
    /// The source does not hold the tables the cache is filled from.
    IncompatibleSchema,
    /// More calendars than `MAX_CALENDARS`.
    TooManyCalendars,
    /// An external key longer than `CALENDAR_XUID_MAX_LEN` bytes.
    KeyTooLong,
    /// More dates in one calendar than `MAX_ENTRIES_PER_CALENDAR`.
    TooManyEntries,
    /// A calendar spanning more pages than `MAX_PAGES_PER_CALENDAR`.
    TooManyPages,
    /// A page size that is not positive.
    DegeneratePageSize,
    /// A row without one of its values.
    MissingField,
    /// Two calendars with the same id.
    DuplicateCalendar,
    /// Two calendars with the same external key.
    DuplicateKey,
    /// A date for a calendar that was not announced.
    UnknownCalendar,
    /// A date that does not come after the one before it in its calendar.
    UnorderedDates,
    /// Fewer or more dates than the calendars announced.
    CountMismatch,
}

impl CacheError {
    /// The class this error belongs to.
    pub open spec fn kind_of(self) -> ErrorKind {
        match self {
            CacheError::IncompatibleSchema
            | CacheError::TooManyCalendars
            | CacheError::KeyTooLong
            | CacheError::TooManyEntries
            | CacheError::TooManyPages
            | CacheError::DegeneratePageSize => ErrorKind::Configuration,
            CacheError::MissingField
            | CacheError::DuplicateCalendar
            | CacheError::DuplicateKey
            | CacheError::UnknownCalendar
            | CacheError::UnorderedDates
            | CacheError::CountMismatch => ErrorKind::DataIntegrity,
        }
    }

    /// The class this error belongs to.
    pub fn kind(&self) -> (kind: ErrorKind)
        ensures
            kind == self.kind_of(),
    {
        match self {
            CacheError::IncompatibleSchema
            | CacheError::TooManyCalendars
            | CacheError::KeyTooLong
            | CacheError::TooManyEntries
            | CacheError::TooManyPages
            | CacheError::DegeneratePageSize => ErrorKind::Configuration,
            CacheError::MissingField
            | CacheError::DuplicateCalendar
            | CacheError::DuplicateKey
            | CacheError::UnknownCalendar
            | CacheError::UnorderedDates
            | CacheError::CountMismatch => ErrorKind::DataIntegrity,
        }
    }
}

} // verus!
