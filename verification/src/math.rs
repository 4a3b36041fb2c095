//! Date arithmetic on a calendar: the floor search and stepping by
//! calendar days.

use vstd::prelude::*;
use crate::calendar::Calendar;
use crate::paging::{
    first_reaching, lemma_first_reaching, lemma_page_index_monotone, lemma_page_of_monotone,
    lemma_page_size_positive, page_count_of, page_index_of, page_map_of, page_number, page_of,
    page_size_of, strictly_ascending,
};

verus! {

/// The date returned for a step that ends before the calendar: 1970-01-01,
/// in days since 2000-01-01.
pub const DATE_PAST: i32 = -10957;

/// The date returned for a step that ends after the calendar: 2199-01-01,
/// in days since 2000-01-01.
pub const DATE_FUTURE: i32 = 72684;

/// The largest index whose date is `date` or earlier, or -1 if every date
/// is later.
pub open spec fn floor_index(dates: Seq<i32>, date: int) -> int
    decreases dates.len(),
{
    if dates.len() == 0 {
        -1
    } else if dates.last() <= date {
        dates.len() - 1
    } else {
        floor_index(dates.drop_last(), date)
    }
}

/// What the floor search answers for `date`.
///
/// A date on a page after the calendar's last page is marked by the
/// negative `-(len) - 1`, a date on a page before its first page by -1.
/// Any other date gets the index of the closest date at or before it, which
/// is -1 when there is none. A calendar without dates answers -1.
pub open spec fn closest_index(dates: Seq<i32>, date: int) -> int {
    if dates.len() == 0 {
        -1
    } else if page_index_of(dates, date) >= page_count_of(dates) {
        -(dates.len() as int) - 1
    } else if page_index_of(dates, date) < 0 {
        -1
    } else {
        floor_index(dates, date)
    }
}

/// The sum of two 32-bit numbers, wrapped around into 32 bits.
pub open spec fn wrapped_sum(a: int, b: int) -> int {
    if a + b > i32::MAX {
        a + b - 0x1_0000_0000
    } else if a + b < i32::MIN {
        a + b + 0x1_0000_0000
    } else {
        a + b
    }
}

/// The date `interval` calendar days from `input_date`.
///
/// A calendar without dates adds the two numbers. Otherwise the step starts
/// at the closest date at or before `input_date` and moves `interval`
/// places through the dates. A start that the floor search marks with a
/// negative index, or a step to before the first date, gives `DATE_PAST`; a
/// step to after the last date gives `DATE_FUTURE`.
pub open spec fn stepped_date(dates: Seq<i32>, input_date: int, interval: int) -> int {
    if dates.len() == 0 {
        wrapped_sum(input_date, interval)
    } else {
        let start = closest_index(dates, input_date);
        if start < 0 || start + interval < 0 {
            DATE_PAST as int
        } else if start + interval >= dates.len() {
            DATE_FUTURE as int
        } else {
            dates[start + interval] as int
        }
    }
}

/// The dates from `lo` to `hi`, both included, are strictly ascending.
pub open spec fn ascending_between(dates: Seq<i32>, lo: int, hi: int) -> bool {
    forall|i: int, j: int| lo <= i < j <= hi ==> dates[i] < dates[j]
}

/// `floor_index` returns an index that splits the dates: its own date is at
/// or before `date`, and every date after it is later than `date`.
pub proof fn lemma_floor_index(dates: Seq<i32>, date: int)
    ensures
        -1 <= floor_index(dates, date) < dates.len(),
        floor_index(dates, date) >= 0 ==> dates[floor_index(dates, date)] <= date,
        forall|j: int| floor_index(dates, date) < j < dates.len() ==> #[trigger] dates[j] > date,
    decreases dates.len(),
{
    if dates.len() > 0 && dates.last() > date {
        lemma_floor_index(dates.drop_last(), date);
        assert forall|j: int| floor_index(dates, date) < j < dates.len() implies #[trigger] dates[j]
            > date by {
            if j < dates.len() - 1 {
                assert(dates.drop_last()[j] > date);
            }
        }
    }
}

/// An index that splits the dates as `floor_index` does is the one it returns.
pub proof fn lemma_floor_index_is(dates: Seq<i32>, date: int, at: int)
    requires
        -1 <= at < dates.len(),
        at >= 0 ==> dates[at] <= date,
        forall|j: int| at < j < dates.len() ==> #[trigger] dates[j] > date,
    ensures
        floor_index(dates, date) == at,
    decreases dates.len(),
{
    if dates.len() > 0 && at < dates.len() - 1 {
        assert(dates[dates.len() - 1] > date);
        let rest = dates.drop_last();
        assert forall|j: int| at < j < rest.len() implies #[trigger] rest[j] > date by {
            assert(dates[j] > date);
        }
        lemma_floor_index_is(rest, date, at);
    }
}

/// A later page is first reached no earlier than a page before it.
pub proof fn lemma_first_reaching_monotone(dates: Seq<i32>, page: int, later: int)
    requires
        page <= later,
    ensures
        first_reaching(dates, page, 0) <= first_reaching(dates, later, 0),
{
    lemma_first_reaching(dates, page, 0);
    lemma_first_reaching(dates, later, 0);
    let a = first_reaching(dates, page, 0);
    let b = first_reaching(dates, later, 0);
    if b < a {
        assert(page_index_of(dates, dates[b] as int) < page);
    }
}

/// Searches `arr[left..=right]` for the last position whose value is at
/// most `value`.
///
/// The answer lies between `left - 1` and `right`. Where the searched part
/// is strictly ascending, every value up to the answer is at most `value`
/// and every value after it is greater, so `left - 1` says that all of them
/// are greater.
pub fn left_binary_search(arr: &[i32], left: i32, right: i32, value: i32) -> (found: i32)
    requires
        0 <= left,
        left <= right + 1,
        right < arr@.len(),
    ensures
        left - 1 <= found <= right,
        ascending_between(arr@, left as int, right as int) ==> (forall|j: int|
            left <= j <= found ==> #[trigger] arr@[j] <= value),
        ascending_between(arr@, left as int, right as int) ==> (forall|j: int|
            found < j <= right ==> #[trigger] arr@[j] > value),
{
    let mut lo: i64 = left as i64;
    let mut hi: i64 = right as i64;
    while lo <= hi
        invariant
            0 <= left <= lo,
            lo <= hi + 1,
            hi <= right < arr@.len(),
            ascending_between(arr@, left as int, right as int) ==> (forall|j: int|
                left <= j < lo ==> #[trigger] arr@[j] < value),
            ascending_between(arr@, left as int, right as int) ==> (forall|j: int|
                hi < j <= right ==> #[trigger] arr@[j] > value),
        decreases hi - lo + 1,
    {
        let mid = lo + (hi - lo) / 2;
        let probe = arr[mid as usize];
        if probe < value {
            proof {
                if ascending_between(arr@, left as int, right as int) {
                    assert forall|j: int| left <= j < mid + 1 implies #[trigger] arr@[j]
                        < value by {
                        if j < mid {
                            assert(arr@[j] < arr@[mid as int]);
                        }
                    }
                }
            }
            lo = mid + 1;
        } else if probe > value {
            proof {
                if ascending_between(arr@, left as int, right as int) {
                    assert forall|j: int| mid - 1 < j <= right implies #[trigger] arr@[j]
                        > value by {
                        if j > mid {
                            assert(arr@[mid as int] < arr@[j]);
                        }
                    }
                }
            }
            hi = mid - 1;
        } else {
            proof {
                if ascending_between(arr@, left as int, right as int) {
                    assert forall|j: int| left <= j <= mid implies #[trigger] arr@[j]
                        <= value by {
                        if j < mid {
                            assert(arr@[j] < arr@[mid as int]);
                        }
                    }
                    assert forall|j: int| mid < j <= right implies #[trigger] arr@[j]
                        > value by {
                        assert(arr@[mid as int] < arr@[j]);
                    }
                }
            }
            return mid as i32;
        }
    }
    (lo - 1) as i32
}

/// The floor search: the index of the closest date at or before `date`, or
/// one of the two negative marks for a date outside the calendar's pages.
pub fn get_closest_index_from_left(date: i32, calendar: &Calendar) -> (index: i32)
    ensures
        index == closest_index(calendar@.dates, date as int),
{
    let dates = calendar.dates();
    let pages = calendar.page_map();
    let ghost all = calendar@.dates;
    if dates.len() == 0 {
        return -1;
    }
    proof {
        lemma_page_size_positive(all);
        lemma_page_index_monotone(all, 0, all.len() - 1);
    }
    let page = page_number(date, calendar.page_size()) as i64
        - calendar.first_page_offset() as i64;
    if page >= pages.len() as i64 {
        return -(dates.len() as i32) - 1;
    } else if page < 0 {
        return -1;
    }
    let start = pages[page as usize];
    let end = if page < pages.len() as i64 - 1 {
        pages[page as usize + 1]
    } else {
        dates.len()
    };
    proof {
        assert(start == page_map_of(all)[page as int]);
        lemma_first_reaching(all, page as int, 0);
        lemma_first_reaching(all, page + 1, 0);
        lemma_first_reaching_monotone(all, page as int, page + 1);
        if start >= all.len() {
            assert(page_index_of(all, all[all.len() - 1] as int) < page);
        }
        if page < pages.len() as i64 - 1 {
            assert(end == page_map_of(all)[page + 1]);
            if end == 0 {
                assert(page_index_of(all, all[0] as int) >= page + 1);
            }
        }
        assert forall|i: int, j: int| 0 <= i < j < all.len() implies all[i] < all[j] by {}
    }
    let found = left_binary_search(dates, start as i32, (end - 1) as i32, date);
    proof {
        let size = page_size_of(all);
        assert(ascending_between(all, start as int, end - 1));
        assert forall|j: int| found < j < all.len() implies #[trigger] all[j] > date by {
            if j >= end {
                lemma_page_index_monotone(all, end as int, j);
                if all[j] <= date {
                    lemma_page_of_monotone(all[j] as int, date as int, size);
                }
            }
        }
        if found >= 0 {
            if found < start {
                assert(page_index_of(all, all[found as int] as int) < page);
                if all[found as int] > date {
                    lemma_page_of_monotone(date as int, all[found as int] as int, size);
                }
            }
        }
        lemma_floor_index_is(all, date as int, found as int);
    }
    found
}

/// Steps `interval` calendar days from `input_date` through the calendar.
pub fn add_calendar_days(calendar: &Calendar, input_date: i32, interval: i32) -> (date: i32)
    ensures
        date == stepped_date(calendar@.dates, input_date as int, interval as int),
{
    if calendar.is_empty() {
        return input_date.wrapping_add(interval);
    }
    let dates = calendar.dates();
    let start = get_closest_index_from_left(input_date, calendar);
    proof {
        lemma_floor_index(calendar@.dates, input_date as int);
    }
    let target: i64 = start as i64 + interval as i64;
    if start < 0 || target < 0 {
        return DATE_PAST;
    }
    if target >= dates.len() as i64 {
        return DATE_FUTURE;
    }
    dates[target as usize]
}

/// The floor search inside the calendar. For a date from the first date
/// to the last, the search returns the largest index whose date is at or
/// before it.
pub proof fn law_floor_search(dates: Seq<i32>, date: int)
    requires
        strictly_ascending(dates),
        dates.len() > 0,
        dates[0] <= date <= dates.last(),
    ensures
        0 <= closest_index(dates, date) < dates.len(),
        dates[closest_index(dates, date)] <= date,
        forall|j: int| closest_index(dates, date) < j < dates.len() ==> #[trigger] dates[j] > date,
{
    let size = page_size_of(dates);
    lemma_page_of_monotone(dates[0] as int, date, size);
    lemma_page_of_monotone(date, dates.last() as int, size);
    lemma_floor_index(dates, date);
    if floor_index(dates, date) < 0 {
        assert(dates[0] > date);
    }
}

/// The mark for a date before the calendar. Every date earlier than the
/// first date is answered with -1.
pub proof fn law_before_first_date(dates: Seq<i32>, date: int)
    requires
        strictly_ascending(dates),
        dates.len() > 0,
        date < dates[0],
    ensures
        closest_index(dates, date) == -1,
{
    let size = page_size_of(dates);
    lemma_page_of_monotone(date, dates[0] as int, size);
    lemma_page_index_monotone(dates, 0, dates.len() - 1);
    assert forall|j: int| -1 < j < dates.len() implies #[trigger] dates[j] > date by {
        if j > 0 {
            assert(dates[0] < dates[j]);
        }
    }
    lemma_floor_index_is(dates, date, -1);
}

/// The mark for a date after the calendar. Every date on a page after the
/// page of the last date is answered with `-(len) - 1`.
pub proof fn law_after_last_page(dates: Seq<i32>, date: int)
    requires
        strictly_ascending(dates),
        dates.len() > 0,
        date > dates.last(),
        page_of(date, page_size_of(dates)) > page_of(dates.last() as int, page_size_of(dates)),
    ensures
        closest_index(dates, date) == -(dates.len() as int) - 1,
{
}

/// A date after the last date that shares its page is answered with the
/// index of the last date.
pub proof fn law_after_last_date_on_its_page(dates: Seq<i32>, date: int)
    requires
        strictly_ascending(dates),
        dates.len() > 0,
        date > dates.last(),
        page_of(date, page_size_of(dates)) == page_of(dates.last() as int, page_size_of(dates)),
    ensures
        closest_index(dates, date) == dates.len() - 1,
{
    lemma_page_index_monotone(dates, 0, dates.len() - 1);
    lemma_floor_index_is(dates, date, dates.len() - 1);
}

/// A step of zero days from a date of the calendar stays on that date.
pub proof fn law_zero_step(dates: Seq<i32>, i: int)
    requires
        strictly_ascending(dates),
        0 <= i < dates.len(),
    ensures
        stepped_date(dates, dates[i] as int, 0) == dates[i],
{
    let date = dates[i] as int;
    lemma_page_index_monotone(dates, 0, i);
    lemma_page_index_monotone(dates, i, dates.len() - 1);
    assert forall|j: int| i < j < dates.len() implies #[trigger] dates[j] > date by {
        assert(dates[i] < dates[j]);
    }
    lemma_floor_index_is(dates, date, i);
}

/// Steps saturate. On a calendar with dates, whatever the start and the
/// number of days, the result is `DATE_PAST`, `DATE_FUTURE`, or one of the
/// calendar's own dates, and so lies from the first date to the last.
pub proof fn law_saturation(dates: Seq<i32>, input_date: int, interval: int)
    requires
        strictly_ascending(dates),
        dates.len() > 0,
    ensures
        stepped_date(dates, input_date, interval) == DATE_PAST || stepped_date(
            dates,
            input_date,
            interval,
        ) == DATE_FUTURE || (exists|i: int|
            0 <= i < dates.len() && #[trigger] dates[i] == stepped_date(
                dates,
                input_date,
                interval,
            )),
        stepped_date(dates, input_date, interval) == DATE_PAST || stepped_date(
            dates,
            input_date,
            interval,
        ) == DATE_FUTURE || dates[0] <= stepped_date(dates, input_date, interval) <= dates.last(),
{
    let start = closest_index(dates, input_date);
    lemma_floor_index(dates, input_date);
    let at = start + interval;
    if start >= 0 && 0 <= at < dates.len() {
        assert(dates[at] == stepped_date(dates, input_date, interval));
        if at > 0 {
            assert(dates[0] < dates[at]);
        }
        if at < dates.len() - 1 {
            assert(dates[at] < dates[dates.len() - 1]);
        }
    }
}

} // verus!
