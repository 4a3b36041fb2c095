//! The page index over a calendar's dates.
//!
//! Dates are epoch days. A page is a run of `page_size` consecutive days, and
//! the page map of a calendar records, page by page, the first date that
//! reaches the page. A lookup then searches one page instead of the whole
//! calendar.

use vstd::prelude::*;
use vstd::arithmetic::div_mod::{lemma_div_is_ordered, lemma_div_pos_is_pos};

verus! {

/// Page size chosen for calendars with more than one entry per week on average.
pub const WEEKLY_PAGE_SIZE: i32 = 16;

/// Page size chosen for sparser calendars.
pub const MONTHLY_PAGE_SIZE: i32 = 32;

/// Each date comes after the one before it: ascending, no date twice.
pub open spec fn strictly_ascending(dates: Seq<i32>) -> bool {
    forall|i: int, j: int| 0 <= i < j < dates.len() ==> dates[i] < dates[j]
}

/// The page size for a calendar spanning `first_date..=last_date` with
/// `entry_count` entries: the fine size when the entries outnumber the
/// weeks spanned, the coarse size otherwise.
pub open spec fn page_size_for(first_date: int, last_date: int, entry_count: int) -> int {
    if 7 * entry_count > last_date - first_date {
        WEEKLY_PAGE_SIZE as int
    } else {
        MONTHLY_PAGE_SIZE as int
    }
}

/// The page a date falls on: the quotient of the date by the page size,
/// rounded toward zero.
pub open spec fn page_of(date: int, page_size: int) -> int {
    if date >= 0 {
        date / page_size
    } else {
        -((-date) / page_size)
    }
}

/// The page size of a calendar with these dates; 0 for a calendar without dates.
pub open spec fn page_size_of(dates: Seq<i32>) -> int {
    if dates.len() == 0 {
        0
    } else {
        page_size_for(dates[0] as int, dates.last() as int, dates.len() as int)
    }
}

/// The page of the first date; 0 for a calendar without dates.
pub open spec fn first_page_of(dates: Seq<i32>) -> int {
    if dates.len() == 0 {
        0
    } else {
        page_of(dates[0] as int, page_size_of(dates))
    }
}

/// The page of `date`, counted from the page of the calendar's first date.
pub open spec fn page_index_of(dates: Seq<i32>, date: int) -> int {
    page_of(date, page_size_of(dates)) - first_page_of(dates)
}

/// How many pages the calendar spans, from the page of its first date to
/// the page of its last.
pub open spec fn page_count_of(dates: Seq<i32>) -> int {
    if dates.len() == 0 {
        0
    } else {
        page_index_of(dates, dates.last() as int) + 1
    }
}

/// The smallest index at or after `from` whose date lies on page `page` or
/// later, or the number of dates where there is none.
pub open spec fn first_reaching(dates: Seq<i32>, page: int, from: int) -> int
    decreases dates.len() - from,
{
    if 0 <= from < dates.len() {
        if page_index_of(dates, dates[from] as int) >= page {
            from
        } else {
            first_reaching(dates, page, from + 1)
        }
    } else {
        dates.len() as int
    }
}

/// The page map of a calendar: entry `k` is the index of the first date
/// that lies on page `k` or later.
pub open spec fn page_map_of(dates: Seq<i32>) -> Seq<int> {
    Seq::new(
        if page_count_of(dates) > 0 {
            page_count_of(dates) as nat
        } else {
            0
        },
        |k: int| first_reaching(dates, k, 0),
    )
}

/// Picks the page size from the density of a calendar.
pub fn calculate_page_size(first_date: i32, last_date: i32, entry_count: i64) -> (size: i32)
    ensures
        size == page_size_for(first_date as int, last_date as int, entry_count as int),
{
    let span: i128 = last_date as i128 - first_date as i128;
    let weighted: i128 = 7 * (entry_count as i128);
    if weighted > span {
        WEEKLY_PAGE_SIZE
    } else {
        MONTHLY_PAGE_SIZE
    }
}

/// The page of `date` for a positive page size, as executable code.
pub fn page_number(date: i32, page_size: i32) -> (page: i32)
    requires
        page_size > 0,
    ensures
        page == page_of(date as int, page_size as int),
{
    date / page_size
}

/// Later dates never fall on earlier pages.
pub proof fn lemma_page_of_monotone(a: int, b: int, page_size: int)
    requires
        page_size > 0,
        a <= b,
    ensures
        page_of(a, page_size) <= page_of(b, page_size),
{
    if a >= 0 {
        lemma_div_is_ordered(a, b, page_size);
    } else if b < 0 {
        lemma_div_is_ordered(-b, -a, page_size);
    } else {
        lemma_div_pos_is_pos(-a, page_size);
        lemma_div_pos_is_pos(b, page_size);
    }
}

/// A calendar with dates has one of the two page sizes.
pub proof fn lemma_page_size_positive(dates: Seq<i32>)
    requires
        dates.len() > 0,
    ensures
        page_size_of(dates) == WEEKLY_PAGE_SIZE || page_size_of(dates) == MONTHLY_PAGE_SIZE,
        page_size_of(dates) > 0,
{
}

/// In an ascending calendar the page index grows with the position.
pub proof fn lemma_page_index_monotone(dates: Seq<i32>, i: int, j: int)
    requires
        strictly_ascending(dates),
        0 <= i <= j < dates.len(),
    ensures
        0 <= page_index_of(dates, dates[i] as int) <= page_index_of(dates, dates[j] as int),
        page_index_of(dates, dates[j] as int) < page_count_of(dates),
{
    let size = page_size_of(dates);
    lemma_page_of_monotone(dates[0] as int, dates[i] as int, size);
    lemma_page_of_monotone(dates[i] as int, dates[j] as int, size);
    lemma_page_of_monotone(dates[j] as int, dates.last() as int, size);
}

/// What `first_reaching` returns is the first index at or after `from`
/// that reaches the page.
pub proof fn lemma_first_reaching(dates: Seq<i32>, page: int, from: int)
    requires
        0 <= from <= dates.len(),
    ensures
        from <= first_reaching(dates, page, from) <= dates.len(),
        forall|j: int|
            from <= j < first_reaching(dates, page, from) ==> page_index_of(
                dates,
                #[trigger] dates[j] as int,
            ) < page,
        first_reaching(dates, page, from) < dates.len() ==> page_index_of(
            dates,
            dates[first_reaching(dates, page, from)] as int,
        ) >= page,
    decreases dates.len() - from,
{
    if from < dates.len() && page_index_of(dates, dates[from] as int) < page {
        lemma_first_reaching(dates, page, from + 1);
    }
}

/// An index that reaches the page, after dates that all fall short of it,
/// is the one `first_reaching` returns.
pub proof fn lemma_first_reaching_is(dates: Seq<i32>, page: int, from: int, at: int)
    requires
        0 <= from <= at <= dates.len(),
        forall|j: int| from <= j < at ==> page_index_of(dates, #[trigger] dates[j] as int) < page,
        at < dates.len() ==> page_index_of(dates, dates[at] as int) >= page,
    ensures
        first_reaching(dates, page, from) == at,
    decreases at - from,
{
    if from < at {
        assert(page_index_of(dates, dates[from] as int) < page);
        lemma_first_reaching_is(dates, page, from + 1, at);
    }
}

/// The shape of a page map. For a calendar with dates, the page map has
/// one entry for each page from the first date's to the last date's, it
/// starts with index 0, it never decreases, and entry `k` is the index of
/// the first date that lies on page `k` after the first page, or later:
/// the date at that index reaches the page and no date before it does.
pub proof fn law_page_map_shape(dates: Seq<i32>)
    requires
        strictly_ascending(dates),
        dates.len() > 0,
    ensures
        page_map_of(dates).len() == page_count_of(dates),
        page_count_of(dates) >= 1,
        page_map_of(dates)[0] == 0,
        forall|k: int, m: int|
            0 <= k <= m < page_map_of(dates).len() ==> #[trigger] page_map_of(dates)[k]
                <= #[trigger] page_map_of(dates)[m],
        forall|k: int|
            0 <= k < page_map_of(dates).len() ==> 0 <= #[trigger] page_map_of(dates)[k]
                < dates.len(),
        forall|k: int|
            0 <= k < page_map_of(dates).len() ==> page_of(
                dates[#[trigger] page_map_of(dates)[k]] as int,
                page_size_of(dates),
            ) >= first_page_of(dates) + k,
        forall|k: int, j: int|
            0 <= k < page_map_of(dates).len() && 0 <= j < #[trigger] page_map_of(dates)[k]
                ==> page_of(#[trigger] dates[j] as int, page_size_of(dates)) < first_page_of(dates)
                + k,
{
    let map = page_map_of(dates);
    lemma_page_index_monotone(dates, 0, dates.len() - 1);
    lemma_first_reaching_is(dates, 0, 0, 0);
    assert forall|k: int| 0 <= k < map.len() implies 0 <= #[trigger] map[k] < dates.len()
        && page_of(dates[map[k]] as int, page_size_of(dates)) >= first_page_of(dates) + k by {
        lemma_first_reaching(dates, k, 0);
        if map[k] >= dates.len() {
            assert(page_index_of(dates, dates[dates.len() - 1] as int) < k);
        }
    }
    assert forall|k: int, j: int| 0 <= k < map.len() && 0 <= j < #[trigger] map[k] implies page_of(
        #[trigger] dates[j] as int,
        page_size_of(dates),
    ) < first_page_of(dates) + k by {
        lemma_first_reaching(dates, k, 0);
        assert(page_index_of(dates, dates[j] as int) < k);
    }
    assert forall|k: int, m: int| 0 <= k <= m < map.len() implies #[trigger] map[k]
        <= #[trigger] map[m] by {
        lemma_first_reaching(dates, k, 0);
        lemma_first_reaching(dates, m, 0);
        if map[m] < map[k] {
            assert(page_index_of(dates, dates[map[m]] as int) < k);
        }
    }
}

} // verus!
