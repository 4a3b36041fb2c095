//! The cache: the calendars together with the state that says whether
//! they can be used.
//!
//! The cache works on values alone. Whoever shares it between callers keeps
//! it behind a lock: a lookup and `next_step` need shared access, every
//! method that changes the cache needs exclusive access. Reading the source
//! is left to the caller as well, who hands the rows to `populate`.

use vstd::prelude::*;
use crate::control::{
    after_begin, step_for, wins_fill, CacheState, CalendarControl, FillStep,
};
use crate::error::CacheError;
use crate::math::{add_calendar_days, stepped_date};
use crate::source::{
    fill_outcome, has_id, has_key, slot_of_id, slot_of_key, total_entries, CalendarRow, EntryRow,
    StoredCalendar,
};
use crate::store::{CalendarInfo, CalendarStore};
use crate::paging::{page_map_of, page_size_of};

verus! {

/// What a cache is, seen from outside.
pub struct CacheModel {
    pub state: CacheState,
    pub calendar_count: nat,
    pub entry_count: nat,
    pub calendars: Seq<StoredCalendar>,
}

/// The cache that holds nothing.
pub open spec fn empty_cache() -> CacheModel {
    CacheModel {
        state: CacheState::Empty,
        calendar_count: 0,
        entry_count: 0,
        calendars: Seq::empty(),
    }
}

/// The cache that holds these calendars.
pub open spec fn filled_cache(calendars: Seq<StoredCalendar>) -> CacheModel {
    CacheModel {
        state: CacheState::Filled,
        calendar_count: calendars.len(),
        entry_count: total_entries(calendars),
        calendars,
    }
}

/// The cache after `populate`: a filled cache stays as it is, any other
/// cache holds what the rows load to, or nothing if they cannot be loaded.
pub open spec fn populated(
    before: CacheModel,
    schema_compatible: Option<bool>,
    calendar_rows: Seq<CalendarRow>,
    entry_rows: Seq<EntryRow>,
) -> CacheModel {
    if before.state == CacheState::Filled {
        before
    } else {
        match fill_outcome(schema_compatible, calendar_rows, entry_rows) {
            Ok(calendars) => filled_cache(calendars),
            Err(_) => empty_cache(),
        }
    }
}

/// The cache after `invalidate`.
pub open spec fn invalidated(before: CacheModel) -> CacheModel {
    empty_cache()
}

/// What a lookup by id answers.
pub open spec fn lookup_result(
    calendars: Seq<StoredCalendar>,
    calendar_id: i64,
    input_date: i32,
    interval: i32,
) -> Option<int> {
    if has_id(calendars, calendar_id) {
        Some(
            stepped_date(
                calendars[slot_of_id(calendars, calendar_id)].dates,
                input_date as int,
                interval as int,
            ),
        )
    } else {
        None
    }
}

/// What a lookup by external key answers.
pub open spec fn lookup_xuid_result(
    calendars: Seq<StoredCalendar>,
    xuid: Seq<char>,
    input_date: i32,
    interval: i32,
) -> Option<int> {
    if has_key(calendars, xuid) {
        Some(
            stepped_date(
                calendars[slot_of_key(calendars, xuid)].dates,
                input_date as int,
                interval as int,
            ),
        )
    } else {
        None
    }
}

/// Judges the answer of the source to the question whether its schema is
/// compatible: only a plain yes lets the fill go on.
pub fn validate_compatible_db(found: Option<bool>) -> (r: Result<(), CacheError>)
    ensures
        r is Ok <==> found == Some(true),
        r is Err ==> r == Err::<(), CacheError>(CacheError::IncompatibleSchema),
{
    match found {
        Some(true) => Ok(()),
        _ => Err(CacheError::IncompatibleSchema),
    }
}

/// The calendars and the state of their cache.
pub struct CalendarCache {
    control: CalendarControl,
    store: CalendarStore,
}

impl View for CalendarCache {
    type V = CacheModel;

    closed spec fn view(&self) -> CacheModel {
        CacheModel {
            state: self.control@.state,
            calendar_count: self.control@.calendar_count,
            entry_count: self.control@.entry_count,
            calendars: self.store@,
        }
    }
}

impl CalendarCache {
    #[verifier::type_invariant]
    spec fn well_formed(self) -> bool {
        if self.control@.state == CacheState::Filled {
            &&& self.control@.calendar_count == self.store@.len()
            &&& self.control@.entry_count == total_entries(self.store@)
        } else {
            &&& self.control@.calendar_count == 0
            &&& self.control@.entry_count == 0
            &&& self.store@ == Seq::<StoredCalendar>::empty()
        }
    }

    /// A cache that holds nothing.
    pub fn new() -> (cache: CalendarCache)
        ensures
            cache@ == empty_cache(),
    {
        CalendarCache { control: CalendarControl::new(), store: CalendarStore::new() }
    }

    /// Where the cache stands.
    pub fn state(&self) -> (state: CacheState)
        ensures
            state == self@.state,
    {
        self.control.state()
    }

    /// What a caller that needs a filled cache does next: go on when the
    /// cache is filled, wait while another caller fills it, and otherwise
    /// take exclusive access and call `begin_fill`.
    pub fn next_step(&self) -> (step: FillStep)
        ensures
            step == step_for(self@.state),
    {
        self.control.next_step()
    }

    /// The published state: a copy of the control record.
    pub fn control(&self) -> (control: CalendarControl)
        ensures
            control@.state == self@.state,
            control@.calendar_count == self@.calendar_count,
            control@.entry_count == self@.entry_count,
    {
        self.control
    }

    /// How many calendars and how many dates the cache holds, and whether
    /// it is filled. A cache that is not filled holds none.
    pub fn stats(&self) -> (stats: (usize, usize, bool))
        ensures
            stats.0 == self@.calendar_count,
            stats.1 == self@.entry_count,
            stats.2 == (self@.state == CacheState::Filled),
            self@.state == CacheState::Filled ==> stats.0 == self@.calendars.len() && stats.1
                == total_entries(self@.calendars),
            self@.state != CacheState::Filled ==> stats.0 == 0 && stats.1 == 0
                && self@.calendars.len() == 0,
    {
        proof {
            use_type_invariant(self);
        }
        let filled = match self.control.state() {
            CacheState::Filled => true,
            _ => false,
        };
        (self.control.calendar_count(), self.control.entry_count(), filled)
    }

    /// The calendars the cache holds.
    pub fn store(&self) -> (store: &CalendarStore)
        ensures
            store@ == self@.calendars,
    {
        &self.store
    }

    /// Tries to become the one caller that fills the cache. Only a caller
    /// that finds the cache empty wins, and the cache is then marked as
    /// being filled; on any other cache nothing changes.
    pub fn begin_fill(&mut self) -> (won: bool)
        ensures
            won == wins_fill(old(self)@.state),
            final(self)@.state == after_begin(old(self)@.state),
            final(self)@.calendar_count == old(self)@.calendar_count,
            final(self)@.entry_count == old(self)@.entry_count,
            final(self)@.calendars == old(self)@.calendars,
    {
        proof {
            use_type_invariant(&*self);
        }
        match self.control.state() {
            CacheState::Empty => {
                self.control = CalendarControl::filling();
                true
            },
            _ => false,
        }
    }

    /// Gives up a fill that was begun, so that a later caller can try
    /// again: a cache that is being filled becomes empty, any other cache
    /// stays as it is.
    pub fn abort_fill(&mut self)
        ensures
            final(self)@ == if old(self)@.state == CacheState::Filling {
                empty_cache()
            } else {
                old(self)@
            },
    {
        proof {
            use_type_invariant(&*self);
        }
        match self.control.state() {
            CacheState::Filling => {
                self.control = CalendarControl::new();
            },
            _ => {},
        }
    }

    /// Fills the cache from the rows of the source, unless it is filled
    /// already. The rows are loaded as a whole: on an error the cache is
    /// left empty and the error is returned.
    pub fn ensure_cache_populated(
        &mut self,
        schema_compatible: Option<bool>,
        calendar_rows: &[CalendarRow],
        entry_rows: &[EntryRow],
    ) -> (r: Result<(), CacheError>)
        ensures
            final(self)@ == populated(old(self)@, schema_compatible, calendar_rows@, entry_rows@),
            old(self)@.state == CacheState::Filled ==> r is Ok,
            old(self)@.state != CacheState::Filled ==> match r {
                Ok(_) => fill_outcome(schema_compatible, calendar_rows@, entry_rows@) is Ok,
                Err(e) => fill_outcome(schema_compatible, calendar_rows@, entry_rows@) matches Err(
                    refused,
                ) && refused == e,
            },
    {
        proof {
            use_type_invariant(&*self);
        }
        match self.control.state() {
            CacheState::Filled => {
                return Ok(());
            },
            _ => {},
        }
        let loaded = match validate_compatible_db(schema_compatible) {
            Ok(_) => CalendarStore::load(calendar_rows, entry_rows),
            Err(e) => Err(e),
        };
        match loaded {
            Ok(store) => {
                let control = CalendarControl::filled(store.len(), entry_rows.len());
                *self = CalendarCache { control, store };
                Ok(())
            },
            Err(e) => {
                *self = CalendarCache::new();
                Err(e)
            },
        }
    }

    /// Empties the cache, whatever it holds.
    pub fn invalidate(&mut self)
        ensures
            final(self)@ == invalidated(old(self)@),
    {
        *self = CalendarCache::new();
    }

    /// The date `interval` calendar days from `input_date` in the calendar
    /// with this id, or `None` if the cache holds no such calendar.
    pub fn add_days(&self, input_date: i32, interval: i32, calendar_id: i64) -> (r: Option<i32>)
        ensures
            match r {
                Some(date) => lookup_result(self@.calendars, calendar_id, input_date, interval)
                    == Some(date as int),
                None => lookup_result(self@.calendars, calendar_id, input_date, interval) is None,
            },
    {
        match self.store.find(calendar_id) {
            Some(calendar) => Some(add_calendar_days(calendar, input_date, interval)),
            None => None,
        }
    }

    /// The date `interval` calendar days from `input_date` in the calendar
    /// with this external key, or `None` if the cache holds no such
    /// calendar.
    pub fn add_days_xuid(&self, input_date: i32, interval: i32, calendar_xuid: &str) -> (r: Option<
        i32,
    >)
        ensures
            match r {
                Some(date) => lookup_xuid_result(self@.calendars, calendar_xuid@, input_date, interval)
                    == Some(date as int),
                None => lookup_xuid_result(self@.calendars, calendar_xuid@, input_date, interval)
                    is None,
            },
    {
        match self.store.find_by_xuid(calendar_xuid) {
            Some(calendar) => Some(add_calendar_days(calendar, input_date, interval)),
            None => None,
        }
    }

    /// One line for each calendar, in the order in which they were announced.
    pub fn list_calendars(&self) -> (infos: Vec<CalendarInfo>)
        ensures
            infos@.len() == self@.calendars.len(),
            forall|i: int|
                0 <= i < infos@.len() ==> {
                    &&& (#[trigger] infos@[i]).id == self@.calendars[i].id
                    &&& infos@[i].xuid@ == self@.calendars[i].xuid
                    &&& infos@[i].entries == self@.calendars[i].dates.len()
                    &&& infos@[i].page_size == page_size_of(self@.calendars[i].dates)
                    &&& infos@[i].page_map_entries == page_map_of(self@.calendars[i].dates).len()
                },
    {
        self.store.get_calendars_info()
    }
}

/// Emptying a cache and filling it again gives what filling a new cache
/// from the same rows gives, whatever the cache held before.
pub proof fn law_refill(
    before: CacheModel,
    schema_compatible: Option<bool>,
    calendar_rows: Seq<CalendarRow>,
    entry_rows: Seq<EntryRow>,
)
    ensures
        populated(invalidated(before), schema_compatible, calendar_rows, entry_rows) == populated(
            empty_cache(),
            schema_compatible,
            calendar_rows,
            entry_rows,
        ),
        populated(empty_cache(), schema_compatible, calendar_rows, entry_rows).state
            == CacheState::Filled ==> populated(
            populated(empty_cache(), schema_compatible, calendar_rows, entry_rows),
            schema_compatible,
            calendar_rows,
            entry_rows,
        ) == populated(empty_cache(), schema_compatible, calendar_rows, entry_rows),
{
}

} // verus!
