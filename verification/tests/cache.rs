//! Filling, emptying and querying the cache.

use kq_cx::cache::{validate_compatible_db, CalendarCache};
use kq_cx::control::{CacheState, CalendarControl, FillStep};
use kq_cx::error::{CacheError, ErrorKind};
use kq_cx::limits::{CALENDAR_XUID_MAX_LEN, MAX_CALENDARS, MAX_ENTRIES_PER_CALENDAR};
use kq_cx::math::{DATE_FUTURE, DATE_PAST};
use kq_cx::source::{CalendarRow, EntryRow};
use kq_cx::store::CalendarStore;

fn calendar_row(id: i64, xuid: &str, entry_count: i64) -> CalendarRow {
    CalendarRow { id: Some(id), xuid: Some(xuid.to_string()), entry_count: Some(entry_count) }
}

fn entry_row(calendar_id: i64, date: i32) -> EntryRow {
    EntryRow { calendar_id: Some(calendar_id), date: Some(date) }
}

fn sample_calendars() -> Vec<CalendarRow> {
    vec![calendar_row(1, "monthly", 6), calendar_row(7, "weekly", 4), calendar_row(3, "none", 0)]
}

fn sample_entries() -> Vec<EntryRow> {
    let mut rows = Vec::new();
    for date in [8766, 8797, 8826, 8857, 8887, 8918] {
        rows.push(entry_row(1, date));
    }
    for date in [0, 7, 14, 21] {
        rows.push(entry_row(7, date));
    }
    rows
}

fn filled() -> CalendarCache {
    let mut cache = CalendarCache::new();
    cache.ensure_cache_populated(Some(true), &sample_calendars(), &sample_entries()).unwrap();
    cache
}

fn load_error(calendars: &[CalendarRow], entries: &[EntryRow]) -> Option<CacheError> {
    CalendarStore::load(calendars, entries).err()
}

#[test]
fn new_cache_is_empty() {
    let cache = CalendarCache::new();
    assert_eq!(cache.state(), CacheState::Empty);
    assert_eq!(cache.stats(), (0, 0, false));
    assert_eq!(cache.next_step(), FillStep::Acquire);
    assert!(cache.list_calendars().is_empty());
    assert_eq!(cache.add_days(8766, 1, 1), None);
    assert_eq!(cache.store().len(), 0);
}

#[test]
fn test_populate_cache() {
    let mut cache = CalendarCache::new();
    assert!(cache.list_calendars().is_empty());
    let result = cache.ensure_cache_populated(Some(true), &sample_calendars(), &sample_entries());
    assert_eq!(result, Ok(()));
    assert_eq!(cache.state(), CacheState::Filled);
    assert_eq!(cache.stats(), (3, 10, true));
    assert_eq!(cache.next_step(), FillStep::Done);
    assert_eq!(cache.list_calendars().len(), 3);
}

#[test]
fn control_follows_the_cache() {
    let control = filled().control();
    assert_eq!(control.state(), CacheState::Filled);
    assert_eq!(control.calendar_count(), 3);
    assert_eq!(control.entry_count(), 10);
    assert_eq!(control.next_step(), FillStep::Done);
    let fresh = CalendarControl::default();
    assert_eq!(fresh.state(), CacheState::Empty);
    assert_eq!(fresh.calendar_count(), 0);
    assert_eq!(fresh.entry_count(), 0);
    assert_eq!(CalendarControl::new().next_step(), FillStep::Acquire);
    assert_eq!(CalendarControl::filling().state(), CacheState::Filling);
    assert_eq!(CalendarControl::filling().next_step(), FillStep::Wait);
    assert_eq!(CalendarControl::filled(2, 5).entry_count(), 5);
}

#[test]
fn listing_keeps_the_order_of_announcement() {
    let infos = filled().list_calendars();
    assert_eq!(infos.len(), 3);
    assert_eq!((infos[0].id, infos[0].xuid.as_str()), (1, "monthly"));
    assert_eq!((infos[0].entries, infos[0].page_size, infos[0].page_map_entries), (6, 32, 6));
    assert_eq!((infos[1].id, infos[1].xuid.as_str()), (7, "weekly"));
    assert_eq!((infos[1].entries, infos[1].page_size, infos[1].page_map_entries), (4, 16, 2));
    assert_eq!((infos[2].id, infos[2].xuid.as_str()), (3, "none"));
    assert_eq!((infos[2].entries, infos[2].page_size, infos[2].page_map_entries), (0, 0, 0));
}

#[test]
fn lookup_by_id() {
    let cache = filled();
    assert_eq!(cache.add_days(8780, 1, 1), Some(8797));
    assert_eq!(cache.add_days(8, 2, 7), Some(21));
    assert_eq!(cache.add_days(8, 3, 7), Some(DATE_FUTURE));
    assert_eq!(cache.add_days(8, -2, 7), Some(DATE_PAST));
    assert_eq!(cache.add_days(100, 5, 3), Some(105));
}

#[test]
fn lookup_by_id_not_found() {
    let cache = filled();
    assert_eq!(cache.add_days(8780, 1, 2), None);
    assert_eq!(cache.add_days(8780, 1, 0), None);
    assert_eq!(cache.stats(), (3, 10, true));
}

#[test]
fn lookup_by_external_key() {
    let cache = filled();
    assert_eq!(cache.add_days_xuid(8780, 1, "monthly"), Some(8797));
    assert_eq!(cache.add_days_xuid(8, 2, "weekly"), Some(21));
    assert_eq!(cache.add_days_xuid(100, 5, "none"), Some(105));
}

#[test]
fn lookup_by_unknown_external_key_is_not_found() {
    let cache = filled();
    assert_eq!(cache.add_days_xuid(8780, 1, "yearly"), None);
    assert_eq!(cache.add_days_xuid(8780, 1, ""), None);
    assert_eq!(cache.add_days_xuid(8780, 1, "Monthly"), None);
    let long = "x".repeat(CALENDAR_XUID_MAX_LEN + 1);
    assert_eq!(cache.add_days_xuid(8780, 1, &long), None);
    assert_eq!(cache.state(), CacheState::Filled);
    assert_eq!(cache.stats(), (3, 10, true));
    assert_eq!(cache.list_calendars().len(), 3);
    assert_eq!(cache.add_days_xuid(8780, 1, "monthly"), Some(8797));
}

#[test]
fn store_finds_calendars_both_ways() {
    let cache = filled();
    let store = cache.store();
    assert_eq!(store.len(), 3);
    assert_eq!(store.find(7).unwrap().dates(), &[0, 7, 14, 21]);
    assert_eq!(store.find(7).unwrap().id(), 7);
    assert!(store.find(8).is_none());
    assert_eq!(store.id_of("weekly"), Some(7));
    assert_eq!(store.id_of("monthly"), Some(1));
    assert_eq!(store.id_of("7"), None);
    assert_eq!(store.find_by_xuid("monthly").unwrap().id(), 1);
    assert_eq!(store.find_by_xuid("monthly").unwrap().len(), 6);
    assert!(store.find_by_xuid("daily").is_none());
    assert_eq!(store.get(1).unwrap().id(), 7);
    assert_eq!(store.get(2).unwrap().len(), 0);
    assert!(store.get(3).is_none());
}

#[test]
fn external_key_of_an_id() {
    let cache = filled();
    let store = cache.store();
    assert_eq!(store.get_calendar_xuid_from_id(1), Some("monthly".to_string()));
    assert_eq!(store.get_calendar_xuid_from_id(7), Some("weekly".to_string()));
    assert_eq!(store.get_calendar_xuid_from_id(3), Some("none".to_string()));
    assert_eq!(store.get_calendar_xuid_from_id(2), None);
}

#[test]
fn external_keys_may_use_all_their_bytes() {
    let key = "k".repeat(CALENDAR_XUID_MAX_LEN);
    let accented = "é".repeat(CALENDAR_XUID_MAX_LEN / 2);
    let calendars = vec![calendar_row(1, &key, 0), calendar_row(2, &accented, 0)];
    let store = CalendarStore::load(&calendars, &[]).unwrap();
    assert_eq!(store.id_of(&key), Some(1));
    assert_eq!(store.id_of(&accented), Some(2));
    assert_eq!(store.get_calendar_xuid_from_id(2), Some(accented));
}

#[test]
fn populate_is_idempotent() {
    let mut cache = filled();
    let other = vec![calendar_row(50, "other", 0)];
    assert_eq!(cache.ensure_cache_populated(Some(true), &other, &[]), Ok(()));
    assert_eq!(cache.stats(), (3, 10, true));
    assert_eq!(cache.add_days(8780, 1, 50), None);
    assert_eq!(cache.ensure_cache_populated(None, &[], &[entry_row(9, 9)]), Ok(()));
    assert_eq!(cache.stats(), (3, 10, true));
}

#[test]
fn only_one_caller_begins_a_fill() {
    let mut cache = CalendarCache::new();
    assert_eq!(cache.next_step(), FillStep::Acquire);
    assert!(cache.begin_fill());
    assert_eq!(cache.state(), CacheState::Filling);
    for _ in 0..5 {
        assert_eq!(cache.next_step(), FillStep::Wait);
        assert!(!cache.begin_fill());
        assert_eq!(cache.state(), CacheState::Filling);
    }
    assert_eq!(cache.stats(), (0, 0, false));
    assert_eq!(cache.add_days(8780, 1, 1), None);
    cache.ensure_cache_populated(Some(true), &sample_calendars(), &sample_entries()).unwrap();
    for _ in 0..5 {
        assert_eq!(cache.next_step(), FillStep::Done);
        assert!(!cache.begin_fill());
        assert_eq!(cache.state(), CacheState::Filled);
    }
    assert_eq!(cache.stats(), (3, 10, true));
}

#[test]
fn aborted_fill_can_be_tried_again() {
    let mut cache = CalendarCache::new();
    cache.abort_fill();
    assert_eq!(cache.state(), CacheState::Empty);
    assert!(cache.begin_fill());
    cache.abort_fill();
    assert_eq!(cache.state(), CacheState::Empty);
    assert!(cache.begin_fill());
    cache.ensure_cache_populated(Some(true), &sample_calendars(), &sample_entries()).unwrap();
    cache.abort_fill();
    assert_eq!(cache.stats(), (3, 10, true));
}

#[test]
fn failed_fill_leaves_the_cache_empty() {
    let mut cache = CalendarCache::new();
    assert!(cache.begin_fill());
    let entries = vec![entry_row(99, 5)];
    let result = cache.ensure_cache_populated(Some(true), &sample_calendars(), &entries);
    assert_eq!(result, Err(CacheError::UnknownCalendar));
    assert_eq!(cache.state(), CacheState::Empty);
    assert_eq!(cache.stats(), (0, 0, false));
    assert!(cache.list_calendars().is_empty());
    assert_eq!(cache.next_step(), FillStep::Acquire);
    assert!(cache.begin_fill());
    cache.ensure_cache_populated(Some(true), &sample_calendars(), &sample_entries()).unwrap();
    assert_eq!(cache.stats(), (3, 10, true));
}

#[test]
fn invalidate_empties_the_cache() {
    let mut cache = filled();
    cache.invalidate();
    assert_eq!(cache.state(), CacheState::Empty);
    assert_eq!(cache.stats(), (0, 0, false));
    assert!(cache.list_calendars().is_empty());
    assert_eq!(cache.add_days(8780, 1, 1), None);
    assert_eq!(cache.add_days_xuid(8780, 1, "monthly"), None);
    cache.invalidate();
    assert_eq!(cache.state(), CacheState::Empty);
    let mut filling = CalendarCache::new();
    assert!(filling.begin_fill());
    filling.invalidate();
    assert_eq!(filling.state(), CacheState::Empty);
}

#[test]
fn refill_gives_the_same_cache() {
    let fresh = filled();
    let mut cache = CalendarCache::new();
    let other = vec![calendar_row(50, "other", 1)];
    cache.ensure_cache_populated(Some(true), &other, &[entry_row(50, 1)]).unwrap();
    assert_eq!(cache.stats(), (1, 1, true));
    cache.invalidate();
    cache.ensure_cache_populated(Some(true), &sample_calendars(), &sample_entries()).unwrap();
    assert_eq!(cache.stats(), fresh.stats());
    let (a, b) = (cache.list_calendars(), fresh.list_calendars());
    assert_eq!(a.len(), b.len());
    for i in 0..a.len() {
        assert_eq!(a[i].id, b[i].id);
        assert_eq!(a[i].xuid, b[i].xuid);
        assert_eq!(a[i].entries, b[i].entries);
        assert_eq!(a[i].page_size, b[i].page_size);
        assert_eq!(a[i].page_map_entries, b[i].page_map_entries);
        let (x, y) = (cache.store().get(i).unwrap(), fresh.store().get(i).unwrap());
        assert_eq!(x.dates(), y.dates());
        assert_eq!(x.page_map(), y.page_map());
        assert_eq!(x.first_page_offset(), y.first_page_offset());
    }
    assert_eq!(cache.add_days(8780, 1, 50), None);
    assert_eq!(cache.add_days(8780, 1, 1), Some(8797));
}

#[test]
fn entries_may_come_in_any_order_of_calendars() {
    let entries = vec![entry_row(7, 0), entry_row(1, 8766), entry_row(7, 7), entry_row(1, 8797)];
    let calendars = vec![calendar_row(1, "a", 2), calendar_row(7, "b", 2)];
    let store = CalendarStore::load(&calendars, &entries).unwrap();
    assert_eq!(store.find(1).unwrap().dates(), &[8766, 8797]);
    assert_eq!(store.find(7).unwrap().dates(), &[0, 7]);
}

#[test]
fn schema_must_be_found_compatible() {
    assert_eq!(validate_compatible_db(Some(true)), Ok(()));
    assert_eq!(validate_compatible_db(Some(false)), Err(CacheError::IncompatibleSchema));
    assert_eq!(validate_compatible_db(None), Err(CacheError::IncompatibleSchema));
    assert_eq!(CacheError::IncompatibleSchema.kind(), ErrorKind::Configuration);
    let mut cache = CalendarCache::new();
    let result = cache.ensure_cache_populated(Some(false), &sample_calendars(), &sample_entries());
    assert_eq!(result, Err(CacheError::IncompatibleSchema));
    assert_eq!(cache.state(), CacheState::Empty);
    let result = cache.ensure_cache_populated(None, &sample_calendars(), &sample_entries());
    assert_eq!(result, Err(CacheError::IncompatibleSchema));
}

#[test]
fn missing_values_are_refused() {
    let mut row = calendar_row(1, "a", 0);
    row.id = None;
    assert_eq!(load_error(&[row], &[]), Some(CacheError::MissingField));
    let mut row = calendar_row(1, "a", 0);
    row.xuid = None;
    assert_eq!(load_error(&[row], &[]), Some(CacheError::MissingField));
    let mut row = calendar_row(1, "a", 0);
    row.entry_count = None;
    assert_eq!(load_error(&[row], &[]), Some(CacheError::MissingField));
    let calendars = vec![calendar_row(1, "a", 1)];
    let entry = EntryRow { calendar_id: None, date: Some(1) };
    assert_eq!(load_error(&calendars, &[entry]), Some(CacheError::MissingField));
    let entry = EntryRow { calendar_id: Some(1), date: None };
    assert_eq!(load_error(&calendars, &[entry]), Some(CacheError::MissingField));
    assert_eq!(CacheError::MissingField.kind(), ErrorKind::DataIntegrity);
}

#[test]
fn too_many_calendars_are_refused() {
    let mut calendars: Vec<CalendarRow> =
        (0..MAX_CALENDARS as i64).map(|i| calendar_row(i, &format!("c{}", i), 0)).collect();
    let store = CalendarStore::load(&calendars, &[]).unwrap();
    assert_eq!(store.len(), MAX_CALENDARS);
    assert_eq!(store.id_of("c63"), Some(63));
    assert_eq!(store.find(63).unwrap().id(), 63);
    calendars.push(calendar_row(64, "c64", 0));
    assert_eq!(load_error(&calendars, &[]), Some(CacheError::TooManyCalendars));
    assert_eq!(CacheError::TooManyCalendars.kind(), ErrorKind::Configuration);
}

#[test]
fn long_external_key_is_refused() {
    let long = "x".repeat(CALENDAR_XUID_MAX_LEN + 1);
    assert_eq!(load_error(&[calendar_row(1, &long, 0)], &[]), Some(CacheError::KeyTooLong));
    let accented = "é".repeat(CALENDAR_XUID_MAX_LEN / 2 + 1);
    assert_eq!(load_error(&[calendar_row(1, &accented, 0)], &[]), Some(CacheError::KeyTooLong));
    assert_eq!(CacheError::KeyTooLong.kind(), ErrorKind::Configuration);
}

#[test]
fn duplicate_calendars_are_refused() {
    let calendars = vec![calendar_row(1, "a", 0), calendar_row(1, "b", 0)];
    assert_eq!(load_error(&calendars, &[]), Some(CacheError::DuplicateCalendar));
    let calendars = vec![calendar_row(1, "a", 0), calendar_row(2, "a", 0)];
    assert_eq!(load_error(&calendars, &[]), Some(CacheError::DuplicateKey));
    assert_eq!(CacheError::DuplicateCalendar.kind(), ErrorKind::DataIntegrity);
    assert_eq!(CacheError::DuplicateKey.kind(), ErrorKind::DataIntegrity);
}

#[test]
fn duplicate_id_is_found_before_the_capacity_runs_out() {
    let mut calendars: Vec<CalendarRow> =
        (0..MAX_CALENDARS as i64).map(|i| calendar_row(i, &format!("c{}", i), 0)).collect();
    calendars.push(calendar_row(5, "again", 0));
    assert_eq!(load_error(&calendars, &[]), Some(CacheError::DuplicateCalendar));
}

#[test]
fn entry_of_an_unknown_calendar_is_refused() {
    let calendars = vec![calendar_row(1, "a", 1)];
    assert_eq!(load_error(&calendars, &[entry_row(2, 5)]), Some(CacheError::UnknownCalendar));
    assert_eq!(load_error(&[], &[entry_row(2, 5)]), Some(CacheError::UnknownCalendar));
    assert_eq!(CacheError::UnknownCalendar.kind(), ErrorKind::DataIntegrity);
}

#[test]
fn unordered_entries_are_refused() {
    let calendars = vec![calendar_row(1, "a", 2)];
    let entries = vec![entry_row(1, 5), entry_row(1, 4)];
    assert_eq!(load_error(&calendars, &entries), Some(CacheError::UnorderedDates));
    let entries = vec![entry_row(1, 5), entry_row(1, 5)];
    assert_eq!(load_error(&calendars, &entries), Some(CacheError::UnorderedDates));
}

#[test]
fn overfull_calendar_is_refused() {
    let count = MAX_ENTRIES_PER_CALENDAR as i32 + 1;
    let calendars = vec![calendar_row(1, "a", count as i64)];
    let entries: Vec<EntryRow> = (0..count).map(|d| entry_row(1, d)).collect();
    assert_eq!(load_error(&calendars, &entries), Some(CacheError::TooManyEntries));
    let full = &entries[..MAX_ENTRIES_PER_CALENDAR];
    let calendars = vec![calendar_row(1, "a", MAX_ENTRIES_PER_CALENDAR as i64)];
    let store = CalendarStore::load(&calendars, full).unwrap();
    assert_eq!(store.find(1).unwrap().len(), MAX_ENTRIES_PER_CALENDAR);
}

#[test]
fn calendar_with_too_many_pages_is_refused() {
    let calendars = vec![calendar_row(1, "a", 2)];
    let entries = vec![entry_row(1, 0), entry_row(1, 32 * 512)];
    assert_eq!(load_error(&calendars, &entries), Some(CacheError::TooManyPages));
}

#[test]
fn count_mismatch_is_refused() {
    let calendars = vec![calendar_row(1, "a", 3)];
    let entries = vec![entry_row(1, 1), entry_row(1, 2)];
    assert_eq!(load_error(&calendars, &entries), Some(CacheError::CountMismatch));
    let calendars = vec![calendar_row(1, "a", 1), calendar_row(2, "b", 1)];
    let store = CalendarStore::load(&calendars, &entries).unwrap();
    assert_eq!(store.find(1).unwrap().len(), 2);
    let calendars = vec![calendar_row(1, "a", i64::MAX), calendar_row(2, "b", i64::MAX)];
    assert_eq!(load_error(&calendars, &entries), Some(CacheError::CountMismatch));
    let calendars = vec![calendar_row(1, "a", -1)];
    assert_eq!(load_error(&calendars, &[]), Some(CacheError::CountMismatch));
    assert_eq!(CacheError::CountMismatch.kind(), ErrorKind::DataIntegrity);
}

#[test]
fn page_errors_come_before_count_errors() {
    let calendars = vec![calendar_row(1, "a", 5)];
    let entries = vec![entry_row(1, 0), entry_row(1, 32 * 512)];
    assert_eq!(load_error(&calendars, &entries), Some(CacheError::TooManyPages));
}

#[test]
fn empty_source_fills_an_empty_cache() {
    let mut cache = CalendarCache::new();
    assert_eq!(cache.ensure_cache_populated(Some(true), &[], &[]), Ok(()));
    assert_eq!(cache.stats(), (0, 0, true));
    assert_eq!(cache.state(), CacheState::Filled);
    assert!(cache.list_calendars().is_empty());
}

#[test]
fn listing_of_all_dates() {
    let cache = filled();
    let rows = kq_cx::listing::display_cache(cache.store());
    assert_eq!(rows.len(), 10);
    assert_eq!(rows[0], (1, "monthly".to_string(), 8766));
    assert_eq!(rows[5], (1, "monthly".to_string(), 8918));
    assert_eq!(rows[6], (7, "weekly".to_string(), 0));
    assert_eq!(rows[9], (7, "weekly".to_string(), 21));
    assert!(kq_cx::listing::display_cache(CalendarCache::new().store()).is_empty());
}

#[test]
fn listing_of_all_page_maps() {
    let cache = filled();
    let rows = kq_cx::listing::display_page_map(cache.store());
    assert_eq!(rows.len(), 8);
    for k in 0..6 {
        assert_eq!(rows[k], (1, "monthly".to_string(), k as i64));
    }
    assert_eq!(rows[6], (7, "weekly".to_string(), 0));
    assert_eq!(rows[7], (7, "weekly".to_string(), 3));
}

#[test]
fn query_text_is_put_on_one_line() {
    let text = b"SELECT id,\n  xuid\nFROM plan.calendar\n";
    let flat = kq_cx::query::flatten_query(text);
    assert_eq!(flat, b"SELECT id,   xuid FROM plan.calendar ".to_vec());
    assert_eq!(kq_cx::query::flatten_query(b""), Vec::<u8>::new());
    assert_eq!(kq_cx::query::flatten_query(b"\n\n"), b"  ".to_vec());
    assert_eq!(kq_cx::query::flatten_query(b"a\r\nb"), b"a\r b".to_vec());
}
