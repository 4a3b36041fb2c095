//! The floor search and stepping by calendar days.

use kq_cx::calendar::Calendar;
use kq_cx::math::{
    add_calendar_days, get_closest_index_from_left, left_binary_search, DATE_FUTURE, DATE_PAST,
};

// Days since 2000-01-01 of the first of each month, January to June 2024.
const MONTHLY: [i32; 6] = [8766, 8797, 8826, 8857, 8887, 8918];

// 2024-01-15, in days since 2000-01-01.
const MID_JANUARY: i32 = 8780;

fn monthly() -> Calendar {
    Calendar::from_dates(1, &MONTHLY).unwrap()
}

fn floor(dates: &[i32], date: i32) -> i32 {
    let mut found = -1;
    for (i, d) in dates.iter().enumerate() {
        if *d <= date {
            found = i as i32;
        }
    }
    found
}

#[test]
fn sentinel_dates_are_1970_and_2199() {
    assert_eq!(DATE_PAST, -10957);
    assert_eq!(DATE_FUTURE, 72684);
}

#[test]
fn binary_search_finds_exact_and_floor() {
    let arr = [10, 20, 30, 40, 50];
    assert_eq!(left_binary_search(&arr, 0, 4, 30), 2);
    assert_eq!(left_binary_search(&arr, 0, 4, 35), 2);
    assert_eq!(left_binary_search(&arr, 0, 4, 10), 0);
    assert_eq!(left_binary_search(&arr, 0, 4, 9), -1);
    assert_eq!(left_binary_search(&arr, 0, 4, 50), 4);
    assert_eq!(left_binary_search(&arr, 0, 4, 1000), 4);
}

#[test]
fn binary_search_stays_inside_its_window() {
    let arr = [10, 20, 30, 40, 50];
    assert_eq!(left_binary_search(&arr, 2, 3, 5), 1);
    assert_eq!(left_binary_search(&arr, 2, 3, 45), 3);
    assert_eq!(left_binary_search(&arr, 2, 3, 100), 3);
    assert_eq!(left_binary_search(&arr, 3, 2, 40), 2);
    assert_eq!(left_binary_search(&arr, 0, -1, 40), -1);
}

#[test]
fn floor_search_inside_the_calendar() {
    let calendar = monthly();
    assert_eq!(get_closest_index_from_left(MID_JANUARY, &calendar), 0);
    assert_eq!(get_closest_index_from_left(8766, &calendar), 0);
    assert_eq!(get_closest_index_from_left(8796, &calendar), 0);
    assert_eq!(get_closest_index_from_left(8797, &calendar), 1);
    assert_eq!(get_closest_index_from_left(8900, &calendar), 4);
    assert_eq!(get_closest_index_from_left(8918, &calendar), 5);
}

#[test]
fn floor_search_agrees_with_a_linear_scan() {
    let dates: Vec<i32> = (0..300).map(|i| i * 7 - 1000 + (i % 3)).collect();
    let calendar = Calendar::from_dates(1, &dates).unwrap();
    for date in dates[0]..=dates[299] {
        assert_eq!(get_closest_index_from_left(date, &calendar), floor(&dates, date));
    }
}

#[test]
fn floor_search_before_the_first_date() {
    let calendar = monthly();
    assert_eq!(get_closest_index_from_left(8765, &calendar), -1);
    assert_eq!(get_closest_index_from_left(8736, &calendar), -1);
    assert_eq!(get_closest_index_from_left(8735, &calendar), -1);
    assert_eq!(get_closest_index_from_left(0, &calendar), -1);
    assert_eq!(get_closest_index_from_left(i32::MIN, &calendar), -1);
}

#[test]
fn floor_search_after_the_last_page() {
    let calendar = monthly();
    assert_eq!(get_closest_index_from_left(8928, &calendar), -7);
    assert_eq!(get_closest_index_from_left(i32::MAX, &calendar), -7);
}

#[test]
fn floor_search_after_the_last_date_on_its_page() {
    let calendar = monthly();
    assert_eq!(get_closest_index_from_left(8919, &calendar), 5);
    assert_eq!(get_closest_index_from_left(8927, &calendar), 5);
}

#[test]
fn floor_search_with_negative_dates() {
    let calendar = Calendar::from_dates(4, &[-40, -20, -1, 5, 20]).unwrap();
    assert_eq!(get_closest_index_from_left(-33, &calendar), 0);
    assert_eq!(get_closest_index_from_left(-41, &calendar), -1);
    assert_eq!(get_closest_index_from_left(-64, &calendar), -1);
    assert_eq!(get_closest_index_from_left(-2, &calendar), 1);
    assert_eq!(get_closest_index_from_left(31, &calendar), 4);
    assert_eq!(get_closest_index_from_left(32, &calendar), -6);
}

#[test]
fn floor_search_on_an_empty_calendar() {
    let calendar = Calendar::empty(1);
    assert_eq!(get_closest_index_from_left(0, &calendar), -1);
    assert_eq!(get_closest_index_from_left(i32::MAX, &calendar), -1);
}

#[test]
fn test_add_calendar_days() {
    let calendar = monthly();
    assert_eq!(add_calendar_days(&calendar, 8766, 1), 8797);
}

#[test]
fn step_from_mid_january_lands_on_february() {
    let calendar = monthly();
    assert_eq!(add_calendar_days(&calendar, MID_JANUARY, 1), 8797);
    assert_eq!(add_calendar_days(&calendar, MID_JANUARY, 0), 8766);
    assert_eq!(add_calendar_days(&calendar, MID_JANUARY, 5), 8918);
}

#[test]
fn step_backwards() {
    let calendar = monthly();
    assert_eq!(add_calendar_days(&calendar, 8900, -4), 8766);
    assert_eq!(add_calendar_days(&calendar, 8900, -5), DATE_PAST);
}

#[test]
fn zero_step_from_a_date_of_the_calendar_is_that_date() {
    let calendar = monthly();
    for date in MONTHLY {
        assert_eq!(add_calendar_days(&calendar, date, 0), date);
    }
}

#[test]
fn steps_saturate() {
    let calendar = monthly();
    assert_eq!(add_calendar_days(&calendar, MID_JANUARY, 6), DATE_FUTURE);
    assert_eq!(add_calendar_days(&calendar, MID_JANUARY, i32::MAX), DATE_FUTURE);
    assert_eq!(add_calendar_days(&calendar, MID_JANUARY, -1), DATE_PAST);
    assert_eq!(add_calendar_days(&calendar, MID_JANUARY, i32::MIN), DATE_PAST);
    assert_eq!(add_calendar_days(&calendar, 8918, i32::MAX), DATE_FUTURE);
}

#[test]
fn steps_never_leave_the_calendar() {
    let calendar = monthly();
    for date in 8700..9000 {
        for interval in -8..8 {
            let result = add_calendar_days(&calendar, date, interval);
            assert!(result == DATE_PAST || result == DATE_FUTURE || MONTHLY.contains(&result));
        }
    }
}

#[test]
fn step_from_outside_the_pages_gives_the_distant_past() {
    let calendar = monthly();
    assert_eq!(add_calendar_days(&calendar, 8000, 3), DATE_PAST);
    assert_eq!(add_calendar_days(&calendar, 8765, 1), DATE_PAST);
    assert_eq!(add_calendar_days(&calendar, 8928, 0), DATE_PAST);
    assert_eq!(add_calendar_days(&calendar, 8928, -1), DATE_PAST);
    assert_eq!(add_calendar_days(&calendar, 8920, 0), 8918);
}

#[test]
fn empty_calendar_adds_the_numbers() {
    let calendar = Calendar::empty(1);
    assert_eq!(add_calendar_days(&calendar, 8766, 10), 8776);
    assert_eq!(add_calendar_days(&calendar, 8766, -10), 8756);
    assert_eq!(add_calendar_days(&calendar, -5, 5), 0);
}

#[test]
fn empty_calendar_wraps_the_sum() {
    let calendar = Calendar::empty(1);
    assert_eq!(add_calendar_days(&calendar, i32::MAX, 1), i32::MIN);
    assert_eq!(add_calendar_days(&calendar, i32::MIN, -1), i32::MAX);
}
