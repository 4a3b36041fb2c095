//! Page sizes and page maps.

use kq_cx::calendar::{check_page_size, Calendar};
use kq_cx::error::{CacheError, ErrorKind};
use kq_cx::limits::{MAX_ENTRIES_PER_CALENDAR, MAX_PAGES_PER_CALENDAR};
use kq_cx::paging::{calculate_page_size, page_number, MONTHLY_PAGE_SIZE, WEEKLY_PAGE_SIZE};

// Days since 2000-01-01 of the first of each month, January to June 2024.
const MONTHLY: [i32; 6] = [8766, 8797, 8826, 8857, 8887, 8918];

#[test]
fn page_size_is_fine_when_entries_outnumber_weeks() {
    assert_eq!(calculate_page_size(0, 69, 10), 16);
    assert_eq!(calculate_page_size(0, 35, 6), WEEKLY_PAGE_SIZE);
}

#[test]
fn page_size_is_coarse_at_exactly_one_entry_per_week() {
    assert_eq!(calculate_page_size(0, 70, 10), 32);
    assert_eq!(calculate_page_size(0, 71, 10), MONTHLY_PAGE_SIZE);
}

#[test]
fn page_size_of_a_single_date_is_fine() {
    assert_eq!(calculate_page_size(500, 500, 1), 16);
}

#[test]
fn page_size_takes_the_widest_span_without_overflow() {
    assert_eq!(calculate_page_size(i32::MIN, i32::MAX, 2), 32);
    assert_eq!(calculate_page_size(i32::MAX, i32::MIN, 0), 16);
    assert_eq!(calculate_page_size(0, 10, i64::MAX), 16);
    assert_eq!(calculate_page_size(0, 10, i64::MIN), 32);
}

#[test]
fn page_number_rounds_toward_zero() {
    assert_eq!(page_number(31, 32), 0);
    assert_eq!(page_number(32, 32), 1);
    assert_eq!(page_number(-1, 32), 0);
    assert_eq!(page_number(-31, 32), 0);
    assert_eq!(page_number(-32, 32), -1);
    assert_eq!(page_number(-33, 16), -2);
    assert_eq!(page_number(8766, 32), 273);
}

#[test]
fn degenerate_page_size_is_refused() {
    assert_eq!(check_page_size(0), Err(CacheError::DegeneratePageSize));
    assert_eq!(check_page_size(-16), Err(CacheError::DegeneratePageSize));
    assert_eq!(check_page_size(16), Ok(()));
    assert_eq!(CacheError::DegeneratePageSize.kind(), ErrorKind::Configuration);
}

#[test]
fn monthly_calendar_gets_one_page_per_month() {
    let calendar = Calendar::from_dates(1, &MONTHLY).unwrap();
    assert_eq!(calendar.id(), 1);
    assert_eq!(calendar.dates(), &MONTHLY);
    assert_eq!(calendar.len(), 6);
    assert!(!calendar.is_empty());
    assert_eq!(calendar.page_size(), 32);
    assert_eq!(calendar.first_page_offset(), 273);
    assert_eq!(calendar.page_map(), &[0, 1, 2, 3, 4, 5]);
}

#[test]
fn weekly_calendar_shares_pages() {
    let calendar = Calendar::from_dates(2, &[0, 7, 14, 21, 28, 35]).unwrap();
    assert_eq!(calendar.page_size(), 16);
    assert_eq!(calendar.first_page_offset(), 0);
    assert_eq!(calendar.page_map(), &[0, 3, 5]);
}

#[test]
fn page_map_repeats_an_index_over_empty_pages() {
    let calendar = Calendar::from_dates(3, &[0, 100]).unwrap();
    assert_eq!(calendar.page_size(), 32);
    assert_eq!(calendar.page_map(), &[0, 1, 1, 1]);
}

#[test]
fn page_map_of_negative_dates() {
    let calendar = Calendar::from_dates(4, &[-40, -20, -1, 5, 20]).unwrap();
    assert_eq!(calendar.page_size(), 32);
    assert_eq!(calendar.first_page_offset(), -1);
    assert_eq!(calendar.page_map(), &[0, 1]);
}

#[test]
fn page_map_is_monotone_and_marks_first_reaching_dates() {
    let dates: Vec<i32> = (0..400).map(|i| i * 5 - 700).collect();
    let calendar = Calendar::from_dates(5, &dates).unwrap();
    let size = calendar.page_size();
    let offset = calendar.first_page_offset();
    let map = calendar.page_map();
    assert_eq!(map[0], 0);
    for k in 0..map.len() {
        if k > 0 {
            assert!(map[k - 1] <= map[k]);
        }
        let page = offset + k as i32;
        assert!(dates[map[k]] / size >= page);
        for j in 0..map[k] {
            assert!(dates[j] / size < page);
        }
    }
    assert_eq!(map.len() as i32, dates[399] / size - offset + 1);
}

#[test]
fn empty_calendar_has_no_index() {
    let calendar = Calendar::empty(9);
    assert_eq!(calendar.id(), 9);
    assert!(calendar.is_empty());
    assert_eq!(calendar.len(), 0);
    assert_eq!(calendar.page_size(), 0);
    assert_eq!(calendar.first_page_offset(), 0);
    assert!(calendar.page_map().is_empty());
    let built = Calendar::from_dates(9, &[]).unwrap();
    assert!(built.is_empty());
    assert_eq!(built.page_size(), 0);
    let default = Calendar::default();
    assert_eq!(default.id(), 0);
    assert!(default.is_empty());
}

#[test]
fn unordered_dates_are_refused() {
    assert_eq!(Calendar::from_dates(1, &[1, 3, 2]).err(), Some(CacheError::UnorderedDates));
    assert_eq!(Calendar::from_dates(1, &[1, 1]).err(), Some(CacheError::UnorderedDates));
    assert_eq!(CacheError::UnorderedDates.kind(), ErrorKind::DataIntegrity);
}

#[test]
fn too_many_entries_are_refused() {
    let full: Vec<i32> = (0..MAX_ENTRIES_PER_CALENDAR as i32).collect();
    let calendar = Calendar::from_dates(1, &full).unwrap();
    assert_eq!(calendar.len(), MAX_ENTRIES_PER_CALENDAR);
    assert_eq!(calendar.page_map().len(), 512);
    let over: Vec<i32> = (0..MAX_ENTRIES_PER_CALENDAR as i32 + 1).collect();
    assert_eq!(Calendar::from_dates(1, &over).err(), Some(CacheError::TooManyEntries));
    assert_eq!(CacheError::TooManyEntries.kind(), ErrorKind::Configuration);
}

#[test]
fn disorder_is_found_before_the_capacity_runs_out() {
    let mut dates: Vec<i32> = (0..MAX_ENTRIES_PER_CALENDAR as i32 + 1).collect();
    dates[MAX_ENTRIES_PER_CALENDAR] = 0;
    assert_eq!(Calendar::from_dates(1, &dates).err(), Some(CacheError::UnorderedDates));
    let mut late: Vec<i32> = (0..MAX_ENTRIES_PER_CALENDAR as i32 + 2).collect();
    late[MAX_ENTRIES_PER_CALENDAR + 1] = 0;
    assert_eq!(Calendar::from_dates(1, &late).err(), Some(CacheError::TooManyEntries));
}

#[test]
fn too_many_pages_are_refused() {
    let last_fitting = 32 * (MAX_PAGES_PER_CALENDAR as i32 - 1);
    let calendar = Calendar::from_dates(1, &[0, last_fitting]).unwrap();
    assert_eq!(calendar.page_map().len(), MAX_PAGES_PER_CALENDAR);
    let result = Calendar::from_dates(1, &[0, last_fitting + 32]);
    assert_eq!(result.err(), Some(CacheError::TooManyPages));
    assert_eq!(
        Calendar::from_dates(1, &[i32::MIN, i32::MAX]).err(),
        Some(CacheError::TooManyPages)
    );
    assert_eq!(CacheError::TooManyPages.kind(), ErrorKind::Configuration);
}
