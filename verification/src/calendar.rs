//! One calendar: its dates and the page index built over them.

use vstd::prelude::*;
use crate::error::CacheError;
use crate::fixed::{
    date_entries, dates_as_slice, new_dates, new_page_map, page_entries, page_map_as_slice,
    push_date, push_page, DateVec, PageVec,
};
use crate::limits::{MAX_ENTRIES_PER_CALENDAR, MAX_PAGES_PER_CALENDAR};
use crate::paging::{
    calculate_page_size, first_page_of, first_reaching, law_page_map_shape,
    lemma_first_reaching_is,
    lemma_page_index_monotone, page_count_of, page_index_of, page_map_of, page_number,
    page_size_of, strictly_ascending,
};

verus! {

/// What a calendar is, seen from outside: its id and its dates. The page
/// size, the first page and the page map all follow from the dates.
pub struct CalendarModel {
    pub id: i64,
    pub dates: Seq<i32>,
}

/// A calendar: a strictly ascending run of epoch days, indexed by page.
///
/// The dates and the index are built together and never change afterwards.
#[derive(Debug)]
pub struct Calendar {
    id: i64,
    dates: DateVec,
    page_size: i32,
    first_page_offset: i32,
    page_map: PageVec,
}

impl View for Calendar {
    type V = CalendarModel;

    closed spec fn view(&self) -> CalendarModel {
        CalendarModel { id: self.id, dates: date_entries(self.dates) }
    }
}

/// Why `dates` cannot become a calendar, or `None` if they can.
///
/// The dates are taken one by one: the first date that does not come after
/// its predecessor is refused as out of order, and a strictly ascending run
/// is refused once it outgrows the capacity. Dates that were all taken are
/// refused if they span more pages than the page map can hold.
pub open spec fn build_failure(dates: Seq<i32>) -> Option<CacheError> {
    let taken = if dates.len() > MAX_ENTRIES_PER_CALENDAR {
        dates.take(MAX_ENTRIES_PER_CALENDAR + 1)
    } else {
        dates
    };
    if !strictly_ascending(taken) {
        Some(CacheError::UnorderedDates)
    } else if dates.len() > MAX_ENTRIES_PER_CALENDAR {
        Some(CacheError::TooManyEntries)
    } else if page_count_of(dates) > MAX_PAGES_PER_CALENDAR {
        Some(CacheError::TooManyPages)
    } else {
        None
    }
}

/// Refuses a page size that is not positive.
pub fn check_page_size(page_size: i32) -> (r: Result<(), CacheError>)
    ensures
        r == if page_size > 0 {
            Ok::<(), CacheError>(())
        } else {
            Err::<(), CacheError>(CacheError::DegeneratePageSize)
        },
{
    if page_size > 0 {
        Ok(())
    } else {
        Err(CacheError::DegeneratePageSize)
    }
}

impl Calendar {
    #[verifier::type_invariant]
    spec fn well_formed(self) -> bool {
        let dates = date_entries(self.dates);
        let pages = page_entries(self.page_map);
        &&& dates.len() <= MAX_ENTRIES_PER_CALENDAR
        &&& strictly_ascending(dates)
        &&& self.page_size == page_size_of(dates)
        &&& self.first_page_offset == first_page_of(dates)
        &&& page_count_of(dates) <= MAX_PAGES_PER_CALENDAR
        &&& pages.len() == page_map_of(dates).len()
        &&& forall|k: int| 0 <= k < pages.len() ==> #[trigger] pages[k] == page_map_of(dates)[k]
    }

    /// A calendar without dates.
    pub fn empty(id: i64) -> (calendar: Calendar)
        ensures
            calendar@ == (CalendarModel { id, dates: Seq::empty() }),
    {
        Calendar {
            id,
            dates: new_dates(),
            page_size: 0,
            first_page_offset: 0,
            page_map: new_page_map(),
        }
    }

    /// Builds the page index over dates that are already in place.
    pub(crate) fn index(id: i64, dates: DateVec) -> (r: Result<Calendar, CacheError>)
        requires
            strictly_ascending(date_entries(dates)),
            date_entries(dates).len() <= MAX_ENTRIES_PER_CALENDAR,
        ensures
            match r {
                Ok(calendar) => page_count_of(date_entries(dates)) <= MAX_PAGES_PER_CALENDAR
                    && calendar@ == (CalendarModel { id, dates: date_entries(dates) }),
                Err(e) => page_count_of(date_entries(dates)) > MAX_PAGES_PER_CALENDAR
                    && e == CacheError::TooManyPages,
            },
    {
        let ghost all = date_entries(dates);
        let slice = dates_as_slice(&dates);
        let n = slice.len();
        if n == 0 {
            return Ok(
                Calendar {
                    id,
                    dates,
                    page_size: 0,
                    first_page_offset: 0,
                    page_map: new_page_map(),
                },
            );
        }
        let first = slice[0];
        let last = slice[n - 1];
        let page_size = calculate_page_size(first, last, n as i64);
        match check_page_size(page_size) {
            Ok(_) => {},
            Err(e) => {
                return Err(e);
            },
        }
        let first_page_offset = page_number(first, page_size);
        let mut page_map = new_page_map();
        proof {
            lemma_page_index_monotone(all, 0, all.len() - 1);
            lemma_first_reaching_is(all, 0, 0, 0);
        }
        match push_page(&mut page_map, 0) {
            Ok(_) => {},
            Err(_) => {
                return Err(CacheError::TooManyPages);
            },
        }
        let mut prev_page: i64 = 0;
        let mut i: usize = 0;
        while i < n
            invariant
                all == date_entries(dates),
                slice@ == all,
                n == all.len(),
                0 < n <= MAX_ENTRIES_PER_CALENDAR,
                strictly_ascending(all),
                page_size == page_size_of(all),
                page_size > 0,
                first_page_offset == first_page_of(all),
                0 <= i <= n,
                prev_page == page_index_of(all, all[if i == 0 { 0 } else { i - 1 }] as int),
                page_entries(page_map).len() == prev_page + 1,
                page_entries(page_map).len() <= MAX_PAGES_PER_CALENDAR,
                forall|k: int|
                    0 <= k < page_entries(page_map).len() ==> #[trigger] page_entries(
                        page_map,
                    )[k] == first_reaching(all, k, 0),
            decreases n - i,
        {
            let page = page_number(slice[i], page_size) as i64 - first_page_offset as i64;
            proof {
                lemma_page_index_monotone(all, if i == 0 { 0 } else { i - 1 }, i as int);
                lemma_page_index_monotone(all, i as int, all.len() - 1);
            }
            while prev_page < page
                invariant
                    all == date_entries(dates),
                    n == all.len(),
                    0 <= i < n,
                    strictly_ascending(all),
                    page == page_index_of(all, all[i as int] as int),
                    page < page_count_of(all),
                    page_index_of(all, all[if i == 0 { 0 } else { i - 1 }] as int) <= prev_page
                        <= page,
                    page_entries(page_map).len() == prev_page + 1,
                    page_entries(page_map).len() <= MAX_PAGES_PER_CALENDAR,
                    forall|k: int|
                        0 <= k < page_entries(page_map).len() ==> #[trigger] page_entries(
                            page_map,
                        )[k] == first_reaching(all, k, 0),
                decreases page - prev_page,
            {
                prev_page = prev_page + 1;
                proof {
                    assert forall|j: int| 0 <= j < i implies page_index_of(
                        all,
                        #[trigger] all[j] as int,
                    ) < prev_page by {
                        lemma_page_index_monotone(all, j, i - 1);
                    }
                    lemma_first_reaching_is(all, prev_page as int, 0, i as int);
                }
                match push_page(&mut page_map, i) {
                    Ok(_) => {},
                    Err(_) => {
                        return Err(CacheError::TooManyPages);
                    },
                }
            }
            i = i + 1;
        }
        proof {
            assert(page_entries(page_map).len() == page_count_of(all));
        }
        Ok(Calendar { id, dates, page_size, first_page_offset, page_map })
    }

    /// Builds a calendar from its dates, which must be strictly ascending
    /// and fit the capacities.
    pub fn from_dates(id: i64, dates: &[i32]) -> (r: Result<Calendar, CacheError>)
        ensures
            match r {
                Ok(calendar) => build_failure(dates@) is None
                    && calendar@ == (CalendarModel { id, dates: dates@ }),
                Err(e) => build_failure(dates@) == Some(e),
            },
    {
        let mut held = new_dates();
        let mut i: usize = 0;
        while i < dates.len()
            invariant
                0 <= i <= dates.len(),
                i <= MAX_ENTRIES_PER_CALENDAR,
                date_entries(held) == dates@.take(i as int),
                strictly_ascending(dates@.take(i as int)),
            decreases dates.len() - i,
        {
            let date = dates[i];
            let ghost seen = dates@.take(i as int + 1);
            if i > 0 && date <= dates[i - 1] {
                proof {
                    assert(seen[i as int - 1] >= seen[i as int]);
                    if dates.len() > MAX_ENTRIES_PER_CALENDAR {
                        let taken = dates@.take(MAX_ENTRIES_PER_CALENDAR + 1);
                        assert(taken[i as int - 1] >= taken[i as int]);
                    }
                }
                return Err(CacheError::UnorderedDates);
            }
            proof {
                assert forall|a: int, b: int| 0 <= a < b < seen.len() implies seen[a] < seen[b] by {
                    let before = dates@.take(i as int);
                    if b < i {
                        assert(before[a] < before[b]);
                    } else if a < i - 1 {
                        assert(before[a] < before[i as int - 1]);
                    }
                }
            }
            match push_date(&mut held, date) {
                Ok(_) => {},
                Err(_) => {
                    proof {
                        assert(dates@.take(MAX_ENTRIES_PER_CALENDAR + 1) == seen);
                    }
                    return Err(CacheError::TooManyEntries);
                },
            }
            proof {
                assert(dates@.take(i as int).push(date) == seen);
            }
            i = i + 1;
        }
        proof {
            assert(dates@.take(i as int) == dates@);
        }
        Calendar::index(id, held)
    }

    /// The calendar's id.
    pub fn id(&self) -> (id: i64)
        ensures
            id == self@.id,
    {
        self.id
    }

    /// The calendar's dates: strictly ascending, within the capacity.
    pub fn dates(&self) -> (dates: &[i32])
        ensures
            dates@ == self@.dates,
            strictly_ascending(dates@),
            dates@.len() <= MAX_ENTRIES_PER_CALENDAR,
    {
        proof {
            use_type_invariant(self);
        }
        dates_as_slice(&self.dates)
    }

    /// How many dates the calendar holds.
    pub fn len(&self) -> (len: usize)
        ensures
            len == self@.dates.len(),
    {
        dates_as_slice(&self.dates).len()
    }

    /// Whether the calendar holds no date.
    pub fn is_empty(&self) -> (empty: bool)
        ensures
            empty == (self@.dates.len() == 0),
    {
        dates_as_slice(&self.dates).len() == 0
    }

    /// The page size: 0 without dates, else one of the two sizes.
    pub fn page_size(&self) -> (size: i32)
        ensures
            size == page_size_of(self@.dates),
    {
        proof {
            use_type_invariant(self);
        }
        self.page_size
    }

    /// The page of the first date.
    pub fn first_page_offset(&self) -> (page: i32)
        ensures
            page == first_page_of(self@.dates),
    {
        proof {
            use_type_invariant(self);
        }
        self.first_page_offset
    }

    /// The page map: for each page the index of the first date that reaches it.
    pub fn page_map(&self) -> (pages: &[usize])
        ensures
            pages@.len() == page_map_of(self@.dates).len(),
            pages@.len() <= MAX_PAGES_PER_CALENDAR,
            forall|k: int| 0 <= k < pages@.len() ==> #[trigger] pages@[k] == page_map_of(
                self@.dates,
            )[k],
            forall|k: int| 0 <= k < pages@.len() ==> #[trigger] pages@[k] < self@.dates.len(),
            self@.dates.len() <= MAX_ENTRIES_PER_CALENDAR,
    {
        proof {
            use_type_invariant(self);
            if self@.dates.len() > 0 {
                law_page_map_shape(self@.dates);
            }
        }
        page_map_as_slice(&self.page_map)
    }
}

impl Default for Calendar {
    /// A calendar without dates, with id 0.
    fn default() -> (calendar: Calendar)
        ensures
            calendar@ == (CalendarModel { id: 0, dates: Seq::empty() }),
    {
        Calendar::empty(0)
    }
}

} // verus!
