//! Listings of everything the calendars hold, for inspection.

use vstd::prelude::*;
use crate::limits::MAX_ENTRIES_PER_CALENDAR;
use crate::paging::page_map_of;
use crate::source::StoredCalendar;
use crate::store::CalendarStore;

verus! {

/// One row for each date of a calendar: its id, its key and the date.
pub open spec fn dates_of(calendar: StoredCalendar) -> Seq<(i64, Seq<char>, i32)> {
    Seq::new(
        calendar.dates.len(),
        |j: int| (calendar.id, calendar.xuid, calendar.dates[j]),
    )
}

/// The rows of all dates, calendar after calendar.
pub open spec fn all_dates(calendars: Seq<StoredCalendar>) -> Seq<(i64, Seq<char>, i32)>
    decreases calendars.len(),
{
    if calendars.len() == 0 {
        Seq::empty()
    } else {
        all_dates(calendars.drop_last()) + dates_of(calendars.last())
    }
}

/// One row for each entry of a calendar's page map: the calendar's id, its
/// key and the entry.
pub open spec fn pages_of(calendar: StoredCalendar) -> Seq<(i64, Seq<char>, int)> {
    Seq::new(
        page_map_of(calendar.dates).len(),
        |k: int| (calendar.id, calendar.xuid, page_map_of(calendar.dates)[k]),
    )
}

/// The rows of all page maps, calendar after calendar.
pub open spec fn all_pages(calendars: Seq<StoredCalendar>) -> Seq<(i64, Seq<char>, int)>
    decreases calendars.len(),
{
    if calendars.len() == 0 {
        Seq::empty()
    } else {
        all_pages(calendars.drop_last()) + pages_of(calendars.last())
    }
}

/// What the rows of a date listing say.
pub open spec fn shown_dates(rows: Seq<(i64, String, i32)>) -> Seq<(i64, Seq<char>, i32)> {
    Seq::new(rows.len(), |k: int| (rows[k].0, rows[k].1@, rows[k].2))
}

/// What the rows of a page map listing say.
pub open spec fn shown_pages(rows: Seq<(i64, String, i64)>) -> Seq<(i64, Seq<char>, int)> {
    Seq::new(rows.len(), |k: int| (rows[k].0, rows[k].1@, rows[k].2 as int))
}

/// Lists every date of every calendar, in the order the store holds them.
pub fn display_cache(store: &CalendarStore) -> (rows: Vec<(i64, String, i32)>)
    ensures
        shown_dates(rows@) == all_dates(store@),
{
    let infos = store.get_calendars_info();
    let mut rows: Vec<(i64, String, i32)> = Vec::new();
    let mut i: usize = 0;
    while i < store.len()
        invariant
            0 <= i <= store@.len(),
            infos@.len() == store@.len(),
            forall|k: int| 0 <= k < infos@.len() ==> (#[trigger] infos@[k]).xuid@ == store@[k].xuid,
            shown_dates(rows@) == all_dates(store@.take(i as int)),
        decreases store@.len() - i,
    {
        let ghost done = all_dates(store@.take(i as int));
        let ghost current = store@[i as int];
        match store.get(i) {
            Some(calendar) => {
                let dates = calendar.dates();
                let mut j: usize = 0;
                while j < dates.len()
                    invariant
                        0 <= j <= dates@.len(),
                        i < store@.len(),
                        current == store@[i as int],
                        dates@ == current.dates,
                        calendar@.id == current.id,
                        i < infos@.len(),
                        infos@[i as int].xuid@ == current.xuid,
                        shown_dates(rows@) == done + dates_of(current).take(j as int),
                    decreases dates@.len() - j,
                {
                    let ghost before = rows@;
                    rows.push((calendar.id(), infos[i].xuid.clone(), dates[j]));
                    proof {
                        assert(shown_dates(rows@) =~= shown_dates(before).push(
                            (current.id, current.xuid, current.dates[j as int]),
                        ));
                        assert(dates_of(current).take(j as int + 1) =~= dates_of(current).take(
                            j as int,
                        ).push(dates_of(current)[j as int]));
                        assert(shown_dates(rows@) =~= done + dates_of(current).take(j as int + 1));
                    }
                    j = j + 1;
                }
                proof {
                    assert(dates_of(current).take(j as int) =~= dates_of(current));
                }
            },
            None => {},
        }
        proof {
            let next = store@.take(i as int + 1);
            assert(next.drop_last() =~= store@.take(i as int));
            assert(next.last() == current);
        }
        i = i + 1;
    }
    proof {
        assert(store@.take(i as int) =~= store@);
    }
    rows
}

/// Lists every entry of every page map, in the order the store holds them.
pub fn display_page_map(store: &CalendarStore) -> (rows: Vec<(i64, String, i64)>)
    ensures
        shown_pages(rows@) == all_pages(store@),
{
    let infos = store.get_calendars_info();
    let mut rows: Vec<(i64, String, i64)> = Vec::new();
    let mut i: usize = 0;
    while i < store.len()
        invariant
            0 <= i <= store@.len(),
            infos@.len() == store@.len(),
            forall|k: int| 0 <= k < infos@.len() ==> (#[trigger] infos@[k]).xuid@ == store@[k].xuid,
            shown_pages(rows@) == all_pages(store@.take(i as int)),
        decreases store@.len() - i,
    {
        let ghost done = all_pages(store@.take(i as int));
        let ghost current = store@[i as int];
        match store.get(i) {
            Some(calendar) => {
                let pages = calendar.page_map();
                let mut j: usize = 0;
                while j < pages.len()
                    invariant
                        0 <= j <= pages@.len(),
                        i < store@.len(),
                        current == store@[i as int],
                        calendar@.id == current.id,
                        calendar@.dates == current.dates,
                        pages@.len() == page_map_of(current.dates).len(),
                        forall|k: int| 0 <= k < pages@.len() ==> #[trigger] pages@[k]
                            <= MAX_ENTRIES_PER_CALENDAR,
                        forall|k: int|
                            0 <= k < pages@.len() ==> #[trigger] pages@[k] == page_map_of(
                                current.dates,
                            )[k],
                        i < infos@.len(),
                        infos@[i as int].xuid@ == current.xuid,
                        shown_pages(rows@) == done + pages_of(current).take(j as int),
                    decreases pages@.len() - j,
                {
                    let ghost before = rows@;
                    let ghost entry = pages@[j as int];
                    assert(entry == page_map_of(current.dates)[j as int]);
                    rows.push((calendar.id(), infos[i].xuid.clone(), pages[j] as i64));
                    proof {
                        assert(shown_pages(rows@) =~= shown_pages(before).push(
                            (current.id, current.xuid, entry as int),
                        ));
                        assert(pages_of(current).take(j as int + 1) =~= pages_of(current).take(
                            j as int,
                        ).push(pages_of(current)[j as int]));
                        assert(shown_pages(rows@) =~= done + pages_of(current).take(j as int + 1));
                    }
                    j = j + 1;
                }
                proof {
                    assert(pages_of(current).take(j as int) =~= pages_of(current));
                }
            },
            None => {},
        }
        proof {
            let next = store@.take(i as int + 1);
            assert(next.drop_last() =~= store@.take(i as int));
            assert(next.last() == current);
        }
        i = i + 1;
    }
    proof {
        assert(store@.take(i as int) =~= store@);
    }
    rows
}

} // verus!
