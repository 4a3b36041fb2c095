//! The rows a cache is filled from, and what filling from them gives.
//!
//! The source hands over one row for each calendar, and then one row for
//! each date of each calendar. A value that the source could not give is
//! `None`. The rows are taken in order; the first row that cannot be taken
//! decides the error.

use vstd::prelude::*;
use crate::error::CacheError;
use crate::fixed::utf8_len;
use crate::limits::{
    CALENDAR_XUID_MAX_LEN, MAX_CALENDARS, MAX_ENTRIES_PER_CALENDAR, MAX_PAGES_PER_CALENDAR,
};
use crate::paging::page_count_of;

verus! {

/// A row that announces a calendar.
#[derive(Clone, Debug)]
pub struct CalendarRow {
    /// The calendar's id.
    pub id: Option<i64>,
    /// The calendar's external key.
    pub xuid: Option<String>,
    /// How many dates the source holds for the calendar.
    pub entry_count: Option<i64>,
}

/// A row that gives one date of a calendar.
#[derive(Clone, Copy, Debug)]
pub struct EntryRow {
    /// The id of the calendar the date belongs to.
    pub calendar_id: Option<i64>,
    /// The date, as an epoch day.
    pub date: Option<i32>,
}

/// A calendar as the cache holds it: id, external key and dates.
pub struct StoredCalendar {
    pub id: i64,
    pub xuid: Seq<char>,
    pub dates: Seq<i32>,
}

/// The calendars announced so far and the number of dates they announce.
pub struct Announced {
    pub calendars: Seq<StoredCalendar>,
    pub expected: int,
}

/// Whether one of the calendars has this id.
pub open spec fn has_id(calendars: Seq<StoredCalendar>, id: i64) -> bool {
    exists|i: int| 0 <= i < calendars.len() && (#[trigger] calendars[i]).id == id
}

/// Whether one of the calendars has this external key.
pub open spec fn has_key(calendars: Seq<StoredCalendar>, key: Seq<char>) -> bool {
    exists|i: int| 0 <= i < calendars.len() && (#[trigger] calendars[i]).xuid == key
}

/// The position of a calendar with this id.
pub open spec fn slot_of_id(calendars: Seq<StoredCalendar>, id: i64) -> int {
    choose|i: int| 0 <= i < calendars.len() && (#[trigger] calendars[i]).id == id
}

/// The position of a calendar with this external key.
pub open spec fn slot_of_key(calendars: Seq<StoredCalendar>, key: Seq<char>) -> int {
    choose|i: int| 0 <= i < calendars.len() && (#[trigger] calendars[i]).xuid == key
}

/// No two calendars share an id.
pub open spec fn distinct_ids(calendars: Seq<StoredCalendar>) -> bool {
    forall|i: int, j: int|
        0 <= i < j < calendars.len() ==> (#[trigger] calendars[i]).id != (
        #[trigger] calendars[j]).id
}

/// No two calendars share an external key.
pub open spec fn distinct_keys(calendars: Seq<StoredCalendar>) -> bool {
    forall|i: int, j: int|
        0 <= i < j < calendars.len() ==> (#[trigger] calendars[i]).xuid != (
        #[trigger] calendars[j]).xuid
}

/// How many dates the calendars hold together.
pub open spec fn total_entries(calendars: Seq<StoredCalendar>) -> nat
    decreases calendars.len(),
{
    if calendars.len() == 0 {
        0
    } else {
        total_entries(calendars.drop_last()) + calendars.last().dates.len()
    }
}

/// Takes one announcing row.
///
/// The row needs all three values, a key within the length bound, an id
/// that is new, room for one more calendar, and a key that is new, and is
/// tested for them in this order.
pub open spec fn announce(so_far: Announced, row: CalendarRow) -> Result<Announced, CacheError> {
    if row.id is None || row.xuid is None || row.entry_count is None {
        Err(CacheError::MissingField)
    } else if utf8_len(row.xuid->0@) > CALENDAR_XUID_MAX_LEN {
        Err(CacheError::KeyTooLong)
    } else if has_id(so_far.calendars, row.id->0) {
        Err(CacheError::DuplicateCalendar)
    } else if so_far.calendars.len() >= MAX_CALENDARS {
        Err(CacheError::TooManyCalendars)
    } else if has_key(so_far.calendars, row.xuid->0@) {
        Err(CacheError::DuplicateKey)
    } else {
        Ok(
            Announced {
                calendars: so_far.calendars.push(
                    StoredCalendar { id: row.id->0, xuid: row.xuid->0@, dates: Seq::empty() },
                ),
                expected: so_far.expected + row.entry_count->0,
            },
        )
    }
}

/// Takes the first `n` announcing rows, one after the other.
pub open spec fn announce_first(rows: Seq<CalendarRow>, n: nat) -> Result<Announced, CacheError>
    decreases n,
{
    if n == 0 {
        Ok(Announced { calendars: Seq::empty(), expected: 0 })
    } else {
        match announce_first(rows, (n - 1) as nat) {
            Ok(so_far) => announce(so_far, rows[n - 1]),
            Err(e) => Err(e),
        }
    }
}

/// Takes one date row.
///
/// The row needs both values and the id of an announced calendar. The date
/// has to come after the last date that calendar holds, and the calendar
/// needs room for it: the row is tested for these in this order.
pub open spec fn accept(calendars: Seq<StoredCalendar>, row: EntryRow) -> Result<
    Seq<StoredCalendar>,
    CacheError,
> {
    if row.calendar_id is None || row.date is None {
        Err(CacheError::MissingField)
    } else if !has_id(calendars, row.calendar_id->0) {
        Err(CacheError::UnknownCalendar)
    } else {
        let at = slot_of_id(calendars, row.calendar_id->0);
        let held = calendars[at].dates;
        if held.len() > 0 && row.date->0 <= held.last() {
            Err(CacheError::UnorderedDates)
        } else if held.len() >= MAX_ENTRIES_PER_CALENDAR {
            Err(CacheError::TooManyEntries)
        } else {
            Ok(
                calendars.update(
                    at,
                    StoredCalendar {
                        id: calendars[at].id,
                        xuid: calendars[at].xuid,
                        dates: held.push(row.date->0),
                    },
                ),
            )
        }
    }
}

/// Takes the first `n` date rows, one after the other.
pub open spec fn accept_first(calendars: Seq<StoredCalendar>, rows: Seq<EntryRow>, n: nat) -> Result<
    Seq<StoredCalendar>,
    CacheError,
>
    decreases n,
{
    if n == 0 {
        Ok(calendars)
    } else {
        match accept_first(calendars, rows, (n - 1) as nat) {
            Ok(so_far) => accept(so_far, rows[n - 1]),
            Err(e) => Err(e),
        }
    }
}

/// Whether one of the calendars spans more pages than a page map can hold.
pub open spec fn overflows_pages(calendars: Seq<StoredCalendar>) -> bool {
    exists|i: int|
        0 <= i < calendars.len() && page_count_of((#[trigger] calendars[i]).dates)
            > MAX_PAGES_PER_CALENDAR
}

/// What the rows of a source load to: the calendars in the order they were
/// announced, each with the dates given for it, or the first error.
///
/// The announcing rows are taken first, then the date rows. After that
/// every calendar must fit its page map, and the dates taken must be as
/// many as the calendars announced.
pub open spec fn load_outcome(calendar_rows: Seq<CalendarRow>, entry_rows: Seq<EntryRow>) -> Result<
    Seq<StoredCalendar>,
    CacheError,
> {
    match announce_first(calendar_rows, calendar_rows.len()) {
        Err(e) => Err(e),
        Ok(announced) => match accept_first(announced.calendars, entry_rows, entry_rows.len()) {
            Err(e) => Err(e),
            Ok(calendars) => if overflows_pages(calendars) {
                Err(CacheError::TooManyPages)
            } else if announced.expected != entry_rows.len() {
                Err(CacheError::CountMismatch)
            } else {
                Ok(calendars)
            },
        },
    }
}

/// What a fill gives: nothing is loaded from a source whose schema was not
/// found compatible.
pub open spec fn fill_outcome(
    schema_compatible: Option<bool>,
    calendar_rows: Seq<CalendarRow>,
    entry_rows: Seq<EntryRow>,
) -> Result<Seq<StoredCalendar>, CacheError> {
    if schema_compatible != Some(true) {
        Err(CacheError::IncompatibleSchema)
    } else {
        load_outcome(calendar_rows, entry_rows)
    }
}

/// An announcing row that is refused decides the outcome of all the rows.
pub proof fn lemma_announce_error_stays(rows: Seq<CalendarRow>, n: nat, m: nat)
    requires
        n <= m,
        announce_first(rows, n) is Err,
    ensures
        announce_first(rows, m) == announce_first(rows, n),
    decreases m,
{
    if n < m {
        lemma_announce_error_stays(rows, n, (m - 1) as nat);
    }
}

/// A date row that is refused decides the outcome of all the rows.
pub proof fn lemma_accept_error_stays(
    calendars: Seq<StoredCalendar>,
    rows: Seq<EntryRow>,
    n: nat,
    m: nat,
)
    requires
        n <= m,
        accept_first(calendars, rows, n) is Err,
    ensures
        accept_first(calendars, rows, m) == accept_first(calendars, rows, n),
    decreases m,
{
    if n < m {
        lemma_accept_error_stays(calendars, rows, n, (m - 1) as nat);
    }
}

/// Among calendars with distinct ids, the position of an id is the one
/// place that holds it.
pub proof fn lemma_slot_of_id(calendars: Seq<StoredCalendar>, id: i64, at: int)
    requires
        distinct_ids(calendars),
        0 <= at < calendars.len(),
        calendars[at].id == id,
    ensures
        has_id(calendars, id),
        slot_of_id(calendars, id) == at,
{
    let chosen = slot_of_id(calendars, id);
    assert(calendars[chosen].id == id);
    if chosen < at {
        assert(calendars[chosen].id != calendars[at].id);
    } else if at < chosen {
        assert(calendars[at].id != calendars[chosen].id);
    }
}

/// Among calendars with distinct keys, the position of a key is the one
/// place that holds it.
pub proof fn lemma_slot_of_key(calendars: Seq<StoredCalendar>, key: Seq<char>, at: int)
    requires
        distinct_keys(calendars),
        0 <= at < calendars.len(),
        calendars[at].xuid == key,
    ensures
        has_key(calendars, key),
        slot_of_key(calendars, key) == at,
{
    let chosen = slot_of_key(calendars, key);
    assert(calendars[chosen].xuid == key);
    if chosen < at {
        assert(calendars[chosen].xuid != calendars[at].xuid);
    } else if at < chosen {
        assert(calendars[at].xuid != calendars[chosen].xuid);
    }
}

/// The dates that the first `n` date rows give for the calendar `id`, in
/// the order of the rows.
pub open spec fn dates_for(rows: Seq<EntryRow>, id: i64, n: nat) -> Seq<i32>
    decreases n,
{
    if n == 0 {
        Seq::empty()
    } else if rows[n - 1].calendar_id == Some(id) && rows[n - 1].date is Some {
        dates_for(rows, id, (n - 1) as nat).push(rows[n - 1].date->0)
    } else {
        dates_for(rows, id, (n - 1) as nat)
    }
}

/// Announcing rows that are all taken gives one calendar for each row, in
/// the order of the rows, with the row's id and key and without dates; the
/// ids differ from each other, and so do the keys.
pub proof fn law_announced(rows: Seq<CalendarRow>, n: nat)
    requires
        n <= rows.len(),
        announce_first(rows, n) is Ok,
    ensures
        announce_first(rows, n)->Ok_0.calendars.len() == n,
        n <= MAX_CALENDARS,
        distinct_ids(announce_first(rows, n)->Ok_0.calendars),
        distinct_keys(announce_first(rows, n)->Ok_0.calendars),
        forall|i: int|
            0 <= i < n ==> {
                let held = #[trigger] announce_first(rows, n)->Ok_0.calendars[i];
                &&& rows[i].id == Some(held.id)
                &&& rows[i].xuid is Some
                &&& rows[i].xuid->0@ == held.xuid
                &&& rows[i].entry_count is Some
                &&& utf8_len(held.xuid) <= CALENDAR_XUID_MAX_LEN
                &&& held.dates.len() == 0
            },
    decreases n,
{
    if n > 0 {
        let before = announce_first(rows, (n - 1) as nat);
        assert(before is Ok);
        law_announced(rows, (n - 1) as nat);
        let old_calendars = before->Ok_0.calendars;
        let new_calendars = announce_first(rows, n)->Ok_0.calendars;
        let row = rows[n - 1];
        assert(new_calendars == old_calendars.push(
            StoredCalendar { id: row.id->0, xuid: row.xuid->0@, dates: Seq::empty() },
        ));
        assert forall|i: int, j: int| 0 <= i < j < new_calendars.len() implies (
        #[trigger] new_calendars[i]).id != (#[trigger] new_calendars[j]).id && new_calendars[i].xuid
            != new_calendars[j].xuid by {
            assert(new_calendars[i] == old_calendars[i]);
            if j < n - 1 {
                assert(new_calendars[j] == old_calendars[j]);
            }
        }
        assert forall|i: int| 0 <= i < n implies {
            let held = #[trigger] new_calendars[i];
            &&& rows[i].id == Some(held.id)
            &&& rows[i].xuid is Some
            &&& rows[i].xuid->0@ == held.xuid
            &&& rows[i].entry_count is Some
            &&& utf8_len(held.xuid) <= CALENDAR_XUID_MAX_LEN
            &&& held.dates.len() == 0
        } by {
            if i < n - 1 {
                assert(new_calendars[i] == old_calendars[i]);
            }
        }
    }
}

/// Date rows that are all taken leave the calendars in place, with their
/// ids and keys, and add to each calendar the dates that the rows give for
/// its id, in the order of the rows.
pub proof fn law_accepted(start: Seq<StoredCalendar>, rows: Seq<EntryRow>, n: nat)
    requires
        distinct_ids(start),
        n <= rows.len(),
        accept_first(start, rows, n) is Ok,
    ensures
        accept_first(start, rows, n)->Ok_0.len() == start.len(),
        forall|i: int|
            0 <= i < start.len() ==> {
                let held = #[trigger] accept_first(start, rows, n)->Ok_0[i];
                &&& held.id == start[i].id
                &&& held.xuid == start[i].xuid
                &&& held.dates == start[i].dates + dates_for(rows, start[i].id, n)
            },
        forall|k: int|
            0 <= k < n ==> (#[trigger] rows[k]).calendar_id is Some && rows[k].date is Some
                && has_id(start, rows[k].calendar_id->0),
    decreases n,
{
    if n == 0 {
        assert forall|i: int| 0 <= i < start.len() implies (#[trigger] start[i]).dates
            == start[i].dates + dates_for(rows, start[i].id, 0) by {
            assert(start[i].dates + Seq::<i32>::empty() =~= start[i].dates);
        }
    } else {
        let before = accept_first(start, rows, (n - 1) as nat);
        assert(before is Ok);
        law_accepted(start, rows, (n - 1) as nat);
        let held = before->Ok_0;
        let after = accept_first(start, rows, n)->Ok_0;
        let row = rows[n - 1];
        let id = row.calendar_id->0;
        let at = slot_of_id(held, id);
        assert(0 <= at < held.len() && held[at].id == id);
        assert(start[at].id == id);
        assert(has_id(start, id));
        assert forall|i: int, j: int| 0 <= i < j < held.len() implies (#[trigger] held[i]).id != (
        #[trigger] held[j]).id by {
            assert(start[i].id != start[j].id);
        }
        assert forall|i: int| 0 <= i < start.len() implies {
            let now = #[trigger] after[i];
            &&& now.id == start[i].id
            &&& now.xuid == start[i].xuid
            &&& now.dates == start[i].dates + dates_for(rows, start[i].id, n)
        } by {
            assert(held[i].id == start[i].id);
            if i == at {
                assert(after[i].dates =~= start[i].dates + dates_for(rows, start[i].id, n));
            } else {
                assert(held[i].id != held[at].id) by {
                    if i < at {
                        assert(held[i].id != held[at].id);
                    } else {
                        assert(held[at].id != held[i].id);
                    }
                }
                assert(after[i] == held[i]);
            }
        }
    }
}

/// What a successful load holds. There is one calendar for each
/// announcing row, in the order of the rows, with the row's id and key. Its
/// dates are the dates that the date rows give for its id, in the order of
/// the rows. Every date row belongs to one of the calendars, and the
/// calendars announced as many dates as there are date rows.
pub proof fn law_loaded(calendar_rows: Seq<CalendarRow>, entry_rows: Seq<EntryRow>)
    requires
        load_outcome(calendar_rows, entry_rows) is Ok,
    ensures
        load_outcome(calendar_rows, entry_rows)->Ok_0.len() == calendar_rows.len(),
        calendar_rows.len() <= MAX_CALENDARS,
        distinct_ids(load_outcome(calendar_rows, entry_rows)->Ok_0),
        distinct_keys(load_outcome(calendar_rows, entry_rows)->Ok_0),
        forall|i: int|
            0 <= i < calendar_rows.len() ==> {
                let held = #[trigger] load_outcome(calendar_rows, entry_rows)->Ok_0[i];
                &&& calendar_rows[i].id == Some(held.id)
                &&& calendar_rows[i].xuid is Some
                &&& calendar_rows[i].xuid->0@ == held.xuid
                &&& held.dates == dates_for(entry_rows, held.id, entry_rows.len())
                &&& page_count_of(held.dates) <= MAX_PAGES_PER_CALENDAR
            },
        forall|k: int|
            0 <= k < entry_rows.len() ==> (#[trigger] entry_rows[k]).calendar_id is Some
                && entry_rows[k].date is Some && has_id(
                load_outcome(calendar_rows, entry_rows)->Ok_0,
                entry_rows[k].calendar_id->0,
            ),
        announce_first(calendar_rows, calendar_rows.len())->Ok_0.expected == entry_rows.len(),
{
    let announced = announce_first(calendar_rows, calendar_rows.len())->Ok_0;
    let loaded = load_outcome(calendar_rows, entry_rows)->Ok_0;
    law_announced(calendar_rows, calendar_rows.len());
    law_accepted(announced.calendars, entry_rows, entry_rows.len());
    assert forall|i: int| 0 <= i < calendar_rows.len() implies {
        let held = #[trigger] loaded[i];
        &&& calendar_rows[i].id == Some(held.id)
        &&& calendar_rows[i].xuid is Some
        &&& calendar_rows[i].xuid->0@ == held.xuid
        &&& held.dates == dates_for(entry_rows, held.id, entry_rows.len())
        &&& page_count_of(held.dates) <= MAX_PAGES_PER_CALENDAR
    } by {
        let first = announced.calendars[i];
        assert(first.dates + dates_for(entry_rows, first.id, entry_rows.len()) =~= dates_for(
            entry_rows,
            first.id,
            entry_rows.len(),
        ));
    }
    assert forall|i: int, j: int| 0 <= i < j < loaded.len() implies (#[trigger] loaded[i]).id != (
    #[trigger] loaded[j]).id && loaded[i].xuid != loaded[j].xuid by {
        assert(announced.calendars[i].id != announced.calendars[j].id);
        assert(announced.calendars[i].xuid != announced.calendars[j].xuid);
    }
    assert forall|k: int| 0 <= k < entry_rows.len() implies has_id(
        loaded,
        (#[trigger] entry_rows[k]).calendar_id->0,
    ) by {
        let id = entry_rows[k].calendar_id->0;
        assert(has_id(announced.calendars, id));
        let at = slot_of_id(announced.calendars, id);
        assert(loaded[at].id == id);
    }
}

} // verus!
