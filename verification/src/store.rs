//! The table of calendars, found by id or by external key.
//!
//! The calendars stand in the order in which they were announced. Two
//! indexes lead to them: one from the id to the calendar's place, one from
//! the external key to the id. The three are built together by `load` and
//! never change afterwards.

use vstd::prelude::*;
use crate::calendar::{Calendar, CalendarModel};
use crate::error::CacheError;
use crate::fixed::{
    date_entries, dates_as_slice, find_key, find_slot, insert_key, insert_slot, key_entries,
    key_from_str, key_pairs, new_dates, new_key_index, new_slot_index, push_date, slot_entries,
    utf8_len, DateVec, KeyIndex, SlotIndex,
};
use crate::limits::{
    CALENDAR_XUID_MAX_LEN, MAX_CALENDARS, MAX_ENTRIES_PER_CALENDAR, MAX_PAGES_PER_CALENDAR,
};
use crate::paging::{page_count_of, page_map_of, page_size_of, strictly_ascending};
use crate::source::{
    accept, accept_first, announce, announce_first, distinct_ids, distinct_keys, has_id, has_key,
    lemma_accept_error_stays, lemma_announce_error_stays, lemma_slot_of_id, lemma_slot_of_key,
    load_outcome, overflows_pages, slot_of_id, slot_of_key, total_entries, Announced,
    CalendarRow, EntryRow, StoredCalendar,
};

verus! {

/// One line of a listing of the calendars.
#[derive(Clone, Debug)]
pub struct CalendarInfo {
    /// The calendar's id.
    pub id: i64,
    /// The calendar's external key.
    pub xuid: String,
    /// How many dates the calendar holds.
    pub entries: i64,
    /// The calendar's page size.
    pub page_size: i32,
    /// How many entries the calendar's page map has.
    pub page_map_entries: i64,
}

/// A calendar while its dates are still coming in.
struct Draft {
    id: i64,
    dates: DateVec,
}

/// The calendars of a cache.
pub struct CalendarStore {
    calendars: Vec<Calendar>,
    slots: SlotIndex,
    keys: KeyIndex,
}

impl View for CalendarStore {
    type V = Seq<StoredCalendar>;

    closed spec fn view(&self) -> Seq<StoredCalendar> {
        Seq::new(
            self.calendars@.len(),
            |i: int|
                StoredCalendar {
                    id: self.calendars@[i]@.id,
                    xuid: key_entries(self.keys)[i].0,
                    dates: self.calendars@[i]@.dates,
                },
        )
    }
}

/// The drafts and the index of their places hold these calendars.
spec fn drafts_hold(drafts: Seq<Draft>, slots: SlotIndex, calendars: Seq<StoredCalendar>) -> bool {
    &&& drafts.len() == calendars.len()
    &&& calendars.len() <= MAX_CALENDARS
    &&& slot_entries(slots).len() == calendars.len()
    &&& distinct_ids(calendars)
    &&& forall|i: int|
        0 <= i < calendars.len() ==> {
            &&& drafts[i].id == (#[trigger] calendars[i]).id
            &&& date_entries(drafts[i].dates) == calendars[i].dates
            &&& slot_entries(slots)[i] == (calendars[i].id, i as usize)
            &&& strictly_ascending(calendars[i].dates)
            &&& calendars[i].dates.len() <= MAX_ENTRIES_PER_CALENDAR
        }
}

/// The index of keys holds the keys of these calendars.
spec fn keys_hold(keys: KeyIndex, calendars: Seq<StoredCalendar>) -> bool {
    &&& key_entries(keys).len() == calendars.len()
    &&& distinct_keys(calendars)
    &&& forall|i: int|
        0 <= i < calendars.len() ==> {
            &&& key_entries(keys)[i] == ((#[trigger] calendars[i]).xuid, calendars[i].id)
            &&& utf8_len(calendars[i].xuid) <= CALENDAR_XUID_MAX_LEN
        }
}

/// The calendars differ from `before` in their dates at most.
spec fn same_calendars(before: Seq<StoredCalendar>, after: Seq<StoredCalendar>) -> bool {
    &&& after.len() == before.len()
    &&& forall|i: int|
        0 <= i < before.len() ==> (#[trigger] after[i]).id == before[i].id && after[i].xuid
            == before[i].xuid
}

/// Replacing one calendar changes the total by the change in its dates.
proof fn lemma_total_entries_update(
    calendars: Seq<StoredCalendar>,
    at: int,
    replaced: StoredCalendar,
)
    requires
        0 <= at < calendars.len(),
    ensures
        total_entries(calendars.update(at, replaced)) == total_entries(calendars)
            - calendars[at].dates.len() + replaced.dates.len(),
    decreases calendars.len(),
{
    let updated = calendars.update(at, replaced);
    if at == calendars.len() - 1 {
        assert(updated.drop_last() == calendars.drop_last());
    } else {
        assert(updated.drop_last() == calendars.drop_last().update(at, replaced));
        lemma_total_entries_update(calendars.drop_last(), at, replaced);
    }
}

/// A calendar without dates adds nothing to the total.
proof fn lemma_total_entries_push(calendars: Seq<StoredCalendar>, added: StoredCalendar)
    ensures
        total_entries(calendars.push(added)) == total_entries(calendars) + added.dates.len(),
{
    assert(calendars.push(added).drop_last() == calendars);
}

/// Takes the announcing rows: a draft for each calendar, and the two indexes.
fn announce_rows(rows: &[CalendarRow]) -> (r: Result<
    (Vec<Draft>, SlotIndex, KeyIndex, i128),
    CacheError,
>)
    ensures
        match r {
            Ok(staged) => announce_first(rows@, rows@.len()) matches Ok(announced) && drafts_hold(
                staged.0@,
                staged.1,
                announced.calendars,
            ) && keys_hold(staged.2, announced.calendars) && staged.3 == announced.expected
                && total_entries(announced.calendars) == 0,
            Err(e) => announce_first(rows@, rows@.len()) matches Err(refused) && refused == e,
        },
{
    let mut drafts: Vec<Draft> = Vec::new();
    let mut slots = new_slot_index();
    let mut keys = new_key_index();
    let mut expected: i128 = 0;
    let ghost mut model = Announced { calendars: Seq::empty(), expected: 0 };
    let mut i: usize = 0;
    while i < rows.len()
        invariant
            0 <= i <= rows.len(),
            announce_first(rows@, i as nat) == Ok::<Announced, CacheError>(model),
            model.calendars.len() == i,
            drafts_hold(drafts@, slots, model.calendars),
            keys_hold(keys, model.calendars),
            expected == model.expected,
            -(i * 0x8000_0000_0000_0000) <= expected <= i * 0x8000_0000_0000_0000,
            total_entries(model.calendars) == 0,
        decreases rows.len() - i,
    {
        let row = &rows[i];
        let ghost outcome = announce(model, rows@[i as int]);
        proof {
            assert(announce_first(rows@, (i + 1) as nat) == outcome);
            if outcome is Err {
                lemma_announce_error_stays(rows@, (i + 1) as nat, rows@.len());
            }
        }
        let id = match row.id {
            Some(id) => id,
            None => {
                return Err(CacheError::MissingField);
            },
        };
        let xuid = match &row.xuid {
            Some(xuid) => xuid.as_str(),
            None => {
                return Err(CacheError::MissingField);
            },
        };
        let count = match row.entry_count {
            Some(count) => count,
            None => {
                return Err(CacheError::MissingField);
            },
        };
        if xuid.as_bytes().len() > CALENDAR_XUID_MAX_LEN {
            return Err(CacheError::KeyTooLong);
        }
        let ghost held_slots = slot_entries(slots);
        let ghost held_keys = key_entries(keys);
        match insert_slot(&mut slots, id, i) {
            Ok(None) => {
                proof {
                    assert forall|k: int| 0 <= k < model.calendars.len() implies (
                    #[trigger] model.calendars[k]).id != id by {
                        assert(held_slots[k].0 != id);
                    }
                }
            },
            Ok(Some(_)) => {
                proof {
                    let k = choose|k: int|
                        0 <= k < held_slots.len() && (#[trigger] held_slots[k]).0 == id;
                    assert(model.calendars[k].id == id);
                }
                return Err(CacheError::DuplicateCalendar);
            },
            Err(_) => {
                proof {
                    assert forall|k: int| 0 <= k < model.calendars.len() implies (
                    #[trigger] model.calendars[k]).id != id by {
                        assert(held_slots[k].0 != id);
                    }
                }
                return Err(CacheError::TooManyCalendars);
            },
        }
        let key = key_from_str(xuid);
        match insert_key(&mut keys, key, id) {
            Ok(None) => {
                proof {
                    assert forall|k: int| 0 <= k < model.calendars.len() implies (
                    #[trigger] model.calendars[k]).xuid != xuid@ by {
                        assert(held_keys[k].0 != xuid@);
                    }
                }
            },
            Ok(Some(_)) => {
                proof {
                    let k = choose|k: int|
                        0 <= k < held_keys.len() && (#[trigger] held_keys[k]).0 == xuid@;
                    assert(model.calendars[k].xuid == xuid@);
                }
                return Err(CacheError::DuplicateKey);
            },
            Err(_) => {
                return Err(CacheError::TooManyCalendars);
            },
        }
        drafts.push(Draft { id, dates: new_dates() });
        expected = expected + count as i128;
        proof {
            let added = StoredCalendar { id, xuid: xuid@, dates: Seq::empty() };
            let grown = model.calendars.push(added);
            lemma_total_entries_push(model.calendars, added);
            assert forall|a: int, b: int| 0 <= a < b < grown.len() implies (#[trigger] grown[a]).id
                != (#[trigger] grown[b]).id && grown[a].xuid != grown[b].xuid by {
                assert(grown[a] == model.calendars[a]);
                if b < model.calendars.len() {
                    assert(grown[b] == model.calendars[b]);
                }
            }
            assert forall|k: int| 0 <= k < grown.len() implies {
                &&& drafts@[k].id == (#[trigger] grown[k]).id
                &&& date_entries(drafts@[k].dates) == grown[k].dates
                &&& slot_entries(slots)[k] == (grown[k].id, k as usize)
                &&& strictly_ascending(grown[k].dates)
                &&& grown[k].dates.len() <= MAX_ENTRIES_PER_CALENDAR
                &&& key_entries(keys)[k] == (grown[k].xuid, grown[k].id)
                &&& utf8_len(grown[k].xuid) <= CALENDAR_XUID_MAX_LEN
            } by {
                if k < model.calendars.len() {
                    assert(grown[k] == model.calendars[k]);
                }
            }
            model = Announced { calendars: grown, expected: model.expected + count };
        }
        i = i + 1;
    }
    Ok((drafts, slots, keys, expected))
}

/// Takes the date rows: each date goes to the draft of its calendar.
fn accept_rows(
    rows: &[EntryRow],
    drafts: &mut Vec<Draft>,
    slots: &SlotIndex,
    Ghost(start): Ghost<Seq<StoredCalendar>>,
) -> (r: Result<(), CacheError>)
    requires
        drafts_hold(old(drafts)@, *slots, start),
    ensures
        match r {
            Ok(_) => accept_first(start, rows@, rows@.len()) matches Ok(calendars) && drafts_hold(
                final(drafts)@,
                *slots,
                calendars,
            ) && same_calendars(start, calendars) && total_entries(calendars) == total_entries(
                start,
            ) + rows@.len(),
            Err(e) => accept_first(start, rows@, rows@.len()) matches Err(refused) && refused == e,
        },
{
    let ghost mut model = start;
    let mut i: usize = 0;
    while i < rows.len()
        invariant
            0 <= i <= rows.len(),
            accept_first(start, rows@, i as nat) == Ok::<Seq<StoredCalendar>, CacheError>(model),
            drafts_hold(drafts@, *slots, model),
            same_calendars(start, model),
            total_entries(model) == total_entries(start) + i,
        decreases rows.len() - i,
    {
        let row = rows[i];
        let ghost outcome = accept(model, rows@[i as int]);
        proof {
            assert(accept_first(start, rows@, (i + 1) as nat) == outcome);
            if outcome is Err {
                lemma_accept_error_stays(start, rows@, (i + 1) as nat, rows@.len());
            }
        }
        let id = match row.calendar_id {
            Some(id) => id,
            None => {
                return Err(CacheError::MissingField);
            },
        };
        let date = match row.date {
            Some(date) => date,
            None => {
                return Err(CacheError::MissingField);
            },
        };
        let slot = match find_slot(slots, id) {
            Some(slot) => slot,
            None => {
                proof {
                    assert forall|k: int| 0 <= k < model.len() implies (#[trigger] model[k]).id
                        != id by {
                        assert(slot_entries(*slots)[k].0 != id);
                    }
                }
                return Err(CacheError::UnknownCalendar);
            },
        };
        proof {
            let k = choose|k: int|
                0 <= k < slot_entries(*slots).len() && slot_entries(*slots)[k] == (id, slot);
            assert(model[k].id == id);
            lemma_slot_of_id(model, id, slot as int);
        }
        let held = dates_as_slice(&drafts[slot].dates);
        let n = held.len();
        if n > 0 && date <= held[n - 1] {
            return Err(CacheError::UnorderedDates);
        }
        let ghost before = drafts@;
        match push_date(&mut drafts[slot].dates, date) {
            Ok(_) => {},
            Err(_) => {
                return Err(CacheError::TooManyEntries);
            },
        }
        proof {
            let grown = StoredCalendar {
                id: model[slot as int].id,
                xuid: model[slot as int].xuid,
                dates: model[slot as int].dates.push(date),
            };
            let next = model.update(slot as int, grown);
            lemma_total_entries_update(model, slot as int, grown);
            assert forall|a: int, b: int| 0 <= a < b < grown.dates.len() implies grown.dates[a]
                < grown.dates[b] by {
                let old_dates = model[slot as int].dates;
                if b < old_dates.len() {
                    assert(old_dates[a] < old_dates[b]);
                } else if a < old_dates.len() - 1 {
                    assert(old_dates[a] < old_dates[old_dates.len() - 1]);
                }
            }
            assert forall|k: int| 0 <= k < next.len() implies {
                &&& drafts@[k].id == (#[trigger] next[k]).id
                &&& date_entries(drafts@[k].dates) == next[k].dates
                &&& slot_entries(*slots)[k] == (next[k].id, k as usize)
                &&& strictly_ascending(next[k].dates)
                &&& next[k].dates.len() <= MAX_ENTRIES_PER_CALENDAR
                &&& next[k].id == start[k].id
                &&& next[k].xuid == start[k].xuid
            } by {
                assert(model[k].id == start[k].id);
                if k != slot {
                    assert(next[k] == model[k]);
                    assert(drafts@[k] == before[k]);
                }
            }
            assert forall|a: int, b: int| 0 <= a < b < next.len() implies (#[trigger] next[a]).id
                != (#[trigger] next[b]).id by {
                assert(model[a].id != model[b].id);
            }
            model = next;
        }
        i = i + 1;
    }
    Ok(())
}

/// Builds the page index of every draft.
fn index_drafts(drafts: Vec<Draft>, Ghost(model): Ghost<Seq<StoredCalendar>>) -> (r: Result<
    Vec<Calendar>,
    CacheError,
>)
    requires
        drafts@.len() == model.len(),
        forall|i: int|
            0 <= i < model.len() ==> {
                &&& drafts@[i].id == (#[trigger] model[i]).id
                &&& date_entries(drafts@[i].dates) == model[i].dates
                &&& strictly_ascending(model[i].dates)
                &&& model[i].dates.len() <= MAX_ENTRIES_PER_CALENDAR
            },
    ensures
        match r {
            Ok(calendars) => !overflows_pages(model) && calendars@.len() == model.len()
                && forall|i: int|
                0 <= i < model.len() ==> (#[trigger] calendars@[i])@ == (CalendarModel {
                    id: model[i].id,
                    dates: model[i].dates,
                }),
            Err(e) => overflows_pages(model) && e == CacheError::TooManyPages,
        },
{
    let mut drafts = drafts;
    let mut calendars: Vec<Calendar> = Vec::new();
    let mut i: usize = 0;
    while i < drafts.len()
        invariant
            0 <= i <= drafts@.len(),
            drafts@.len() == model.len(),
            calendars@.len() == i,
            forall|k: int|
                i <= k < model.len() ==> {
                    &&& drafts@[k].id == (#[trigger] model[k]).id
                    &&& date_entries(drafts@[k].dates) == model[k].dates
                    &&& strictly_ascending(model[k].dates)
                    &&& model[k].dates.len() <= MAX_ENTRIES_PER_CALENDAR
                },
            forall|k: int|
                0 <= k < i ==> (#[trigger] calendars@[k])@ == (CalendarModel {
                    id: model[k].id,
                    dates: model[k].dates,
                }),
            forall|k: int|
                0 <= k < i ==> page_count_of((#[trigger] model[k]).dates)
                    <= MAX_PAGES_PER_CALENDAR,
        decreases drafts@.len() - i,
    {
        let ghost before = drafts@;
        let ghost held = calendars@;
        assert(date_entries(drafts@[i as int].dates) == model[i as int].dates);
        let id = drafts[i].id;
        let mut dates = new_dates();
        core::mem::swap(&mut drafts[i].dates, &mut dates);
        proof {
            assert forall|k: int| i < k < model.len() implies {
                &&& drafts@[k].id == (#[trigger] model[k]).id
                &&& date_entries(drafts@[k].dates) == model[k].dates
            } by {
                assert(drafts@[k] == before[k]);
            }
        }
        match Calendar::index(id, dates) {
            Ok(calendar) => {
                calendars.push(calendar);
                proof {
                    assert forall|k: int| 0 <= k < i + 1 implies (#[trigger] calendars@[k])@ == (
                    CalendarModel { id: model[k].id, dates: model[k].dates }) by {
                        if k < i {
                            assert(calendars@[k] == held[k]);
                        }
                    }
                }
            },
            Err(e) => {
                proof {
                    assert(page_count_of(model[i as int].dates)
                        > MAX_PAGES_PER_CALENDAR);
                }
                return Err(e);
            },
        }
        i = i + 1;
    }
    Ok(calendars)
}

impl CalendarStore {
    #[verifier::type_invariant]
    spec fn well_formed(self) -> bool {
        let n = self.calendars@.len();
        &&& n <= MAX_CALENDARS
        &&& slot_entries(self.slots).len() == n
        &&& key_entries(self.keys).len() == n
        &&& forall|i: int|
            0 <= i < n ==> (#[trigger] slot_entries(self.slots)[i]) == (
                self.calendars@[i]@.id,
                i as usize,
            )
        &&& forall|i: int|
            0 <= i < n ==> (#[trigger] key_entries(self.keys)[i]).1 == self.calendars@[i]@.id
                && utf8_len(key_entries(self.keys)[i].0) <= CALENDAR_XUID_MAX_LEN
        &&& forall|i: int, j: int|
            0 <= i < j < n ==> (#[trigger] self.calendars@[i])@.id != (
            #[trigger] self.calendars@[j])@.id
        &&& forall|i: int, j: int|
            0 <= i < j < n ==> (#[trigger] key_entries(self.keys)[i]).0 != (#[trigger] key_entries(
                self.keys,
            )[j]).0
    }

    /// A store without calendars.
    pub fn new() -> (store: CalendarStore)
        ensures
            store@ == Seq::<StoredCalendar>::empty(),
    {
        CalendarStore { calendars: Vec::new(), slots: new_slot_index(), keys: new_key_index() }
    }

    /// Loads the calendars from the rows of a source.
    pub fn load(calendar_rows: &[CalendarRow], entry_rows: &[EntryRow]) -> (r: Result<
        CalendarStore,
        CacheError,
    >)
        ensures
            match r {
                Ok(store) => load_outcome(calendar_rows@, entry_rows@) matches Ok(calendars)
                    && calendars == store@ && total_entries(store@) == entry_rows@.len(),
                Err(e) => load_outcome(calendar_rows@, entry_rows@) matches Err(refused) && refused
                    == e,
            },
    {
        let (mut drafts, slots, keys, expected) = match announce_rows(calendar_rows) {
            Ok(staged) => staged,
            Err(e) => {
                return Err(e);
            },
        };
        let ghost announced = announce_first(calendar_rows@, calendar_rows@.len())->Ok_0;
        match accept_rows(entry_rows, &mut drafts, &slots, Ghost(announced.calendars)) {
            Ok(_) => {},
            Err(e) => {
                return Err(e);
            },
        }
        let ghost model = accept_first(announced.calendars, entry_rows@, entry_rows@.len())->Ok_0;
        proof {
            assert forall|i: int| 0 <= i < model.len() implies {
                &&& drafts@[i].id == (#[trigger] model[i]).id
                &&& date_entries(drafts@[i].dates) == model[i].dates
                &&& strictly_ascending(model[i].dates)
                &&& model[i].dates.len() <= MAX_ENTRIES_PER_CALENDAR
            } by {}
        }
        let calendars = match index_drafts(drafts, Ghost(model)) {
            Ok(calendars) => calendars,
            Err(e) => {
                return Err(e);
            },
        };
        if expected != entry_rows.len() as i128 {
            return Err(CacheError::CountMismatch);
        }
        proof {
            assert forall|i: int| 0 <= i < model.len() implies {
                &&& (#[trigger] slot_entries(slots)[i]) == (calendars@[i]@.id, i as usize)
                &&& (#[trigger] key_entries(keys)[i]).1 == calendars@[i]@.id
                &&& utf8_len(key_entries(keys)[i].0) <= CALENDAR_XUID_MAX_LEN
            } by {
                assert(model[i].id == announced.calendars[i].id);
                assert(calendars@[i]@.id == model[i].id);
            }
            assert forall|i: int, j: int| 0 <= i < j < model.len() implies (
            #[trigger] calendars@[i])@.id != (#[trigger] calendars@[j])@.id by {
                assert(model[i].id != model[j].id);
            }
            assert forall|i: int, j: int| 0 <= i < j < model.len() implies (#[trigger] key_entries(
                keys,
            )[i]).0 != (#[trigger] key_entries(keys)[j]).0 by {
                assert(announced.calendars[i].xuid != announced.calendars[j].xuid);
            }
        }
        let store = CalendarStore { calendars, slots, keys };
        proof {
            assert forall|i: int| 0 <= i < model.len() implies store@[i] == model[i] by {
                assert(model[i].xuid == announced.calendars[i].xuid);
                assert(calendars@[i]@.id == model[i].id);
            }
            assert(store@ =~= model);
        }
        Ok(store)
    }

    /// How many calendars the store holds.
    pub fn len(&self) -> (len: usize)
        ensures
            len == self@.len(),
            len <= MAX_CALENDARS,
    {
        proof {
            use_type_invariant(self);
        }
        self.calendars.len()
    }

    /// The calendar at a place of the store, in the order of announcement.
    pub fn get(&self, slot: usize) -> (r: Option<&Calendar>)
        ensures
            match r {
                Some(calendar) => slot < self@.len() && calendar@ == (CalendarModel {
                    id: self@[slot as int].id,
                    dates: self@[slot as int].dates,
                }),
                None => slot >= self@.len(),
            },
    {
        if slot < self.calendars.len() {
            Some(&self.calendars[slot])
        } else {
            None
        }
    }

    /// The calendar with this id.
    pub fn find(&self, id: i64) -> (r: Option<&Calendar>)
        ensures
            match r {
                Some(calendar) => has_id(self@, id) && calendar@ == (CalendarModel {
                    id,
                    dates: self@[slot_of_id(self@, id)].dates,
                }),
                None => !has_id(self@, id),
            },
    {
        proof {
            use_type_invariant(self);
            self.lemma_distinct();
        }
        match find_slot(&self.slots, id) {
            Some(slot) => {
                proof {
                    let k = choose|k: int|
                        0 <= k < slot_entries(self.slots).len() && slot_entries(self.slots)[k] == (
                            id,
                            slot,
                        );
                    assert(self@[k].id == id);
                    lemma_slot_of_id(self@, id, slot as int);
                }
                Some(&self.calendars[slot])
            },
            None => {
                proof {
                    assert forall|k: int| 0 <= k < self@.len() implies (#[trigger] self@[k]).id
                        != id by {
                        assert(slot_entries(self.slots)[k].0 != id);
                    }
                }
                None
            },
        }
    }

    /// The id of the calendar with this external key.
    pub fn id_of(&self, xuid: &str) -> (r: Option<i64>)
        ensures
            match r {
                Some(id) => has_key(self@, xuid@) && id == self@[slot_of_key(self@, xuid@)].id,
                None => !has_key(self@, xuid@),
            },
    {
        proof {
            use_type_invariant(self);
            self.lemma_distinct();
        }
        if xuid.as_bytes().len() > CALENDAR_XUID_MAX_LEN {
            proof {
                assert forall|k: int| 0 <= k < self@.len() implies (#[trigger] self@[k]).xuid
                    != xuid@ by {
                    assert(utf8_len(key_entries(self.keys)[k].0) <= CALENDAR_XUID_MAX_LEN);
                }
            }
            return None;
        }
        let key = key_from_str(xuid);
        match find_key(&self.keys, &key) {
            Some(id) => {
                proof {
                    let k = choose|k: int|
                        0 <= k < key_entries(self.keys).len() && key_entries(self.keys)[k] == (
                            xuid@,
                            id,
                        );
                    assert(self@[k].xuid == xuid@);
                    lemma_slot_of_key(self@, xuid@, k);
                }
                Some(id)
            },
            None => {
                proof {
                    assert forall|k: int| 0 <= k < self@.len() implies (#[trigger] self@[k]).xuid
                        != xuid@ by {
                        assert(key_entries(self.keys)[k].0 != xuid@);
                    }
                }
                None
            },
        }
    }

    /// The calendar with this external key.
    pub fn find_by_xuid(&self, xuid: &str) -> (r: Option<&Calendar>)
        ensures
            match r {
                Some(calendar) => has_key(self@, xuid@) && calendar@ == (CalendarModel {
                    id: self@[slot_of_key(self@, xuid@)].id,
                    dates: self@[slot_of_key(self@, xuid@)].dates,
                }),
                None => !has_key(self@, xuid@),
            },
    {
        proof {
            use_type_invariant(self);
            self.lemma_distinct();
        }
        match self.id_of(xuid) {
            Some(id) => {
                let found = self.find(id);
                proof {
                    let at = slot_of_key(self@, xuid@);
                    assert(self@[at].id == id);
                    lemma_slot_of_id(self@, id, at);
                }
                found
            },
            None => None,
        }
    }

    /// The external key of the calendar with this id.
    pub fn get_calendar_xuid_from_id(&self, id: i64) -> (r: Option<String>)
        ensures
            match r {
                Some(xuid) => has_id(self@, id) && xuid@ == self@[slot_of_id(self@, id)].xuid,
                None => !has_id(self@, id),
            },
    {
        proof {
            use_type_invariant(self);
            self.lemma_distinct();
        }
        let pairs = key_pairs(&self.keys);
        let mut i: usize = 0;
        while i < pairs.len()
            invariant
                0 <= i <= pairs@.len(),
                pairs@.len() == self@.len(),
                forall|k: int|
                    0 <= k < pairs@.len() ==> (#[trigger] pairs@[k]).0@ == self@[k].xuid
                        && pairs@[k].1 == self@[k].id,
                forall|k: int| 0 <= k < i ==> (#[trigger] self@[k]).id != id,
                distinct_ids(self@),
            decreases pairs@.len() - i,
        {
            if pairs[i].1 == id {
                proof {
                    lemma_slot_of_id(self@, id, i as int);
                }
                return Some(pairs[i].0.clone());
            }
            i = i + 1;
        }
        None
    }

    /// One line for each calendar, in the order of announcement.
    pub fn get_calendars_info(&self) -> (infos: Vec<CalendarInfo>)
        ensures
            infos@.len() == self@.len(),
            forall|i: int|
                0 <= i < infos@.len() ==> {
                    &&& (#[trigger] infos@[i]).id == self@[i].id
                    &&& infos@[i].xuid@ == self@[i].xuid
                    &&& infos@[i].entries == self@[i].dates.len()
                    &&& infos@[i].page_size == page_size_of(self@[i].dates)
                    &&& infos@[i].page_map_entries == page_map_of(self@[i].dates).len()
                },
    {
        proof {
            use_type_invariant(self);
        }
        let pairs = key_pairs(&self.keys);
        let mut infos: Vec<CalendarInfo> = Vec::new();
        let mut i: usize = 0;
        while i < self.calendars.len()
            invariant
                0 <= i <= self.calendars@.len(),
                self.calendars@.len() == self@.len(),
                pairs@.len() == self@.len(),
                forall|k: int|
                    0 <= k < pairs@.len() ==> (#[trigger] pairs@[k]).0@ == self@[k].xuid,
                infos@.len() == i,
                forall|k: int|
                    0 <= k < i ==> {
                        &&& (#[trigger] infos@[k]).id == self@[k].id
                        &&& infos@[k].xuid@ == self@[k].xuid
                        &&& infos@[k].entries == self@[k].dates.len()
                        &&& infos@[k].page_size == page_size_of(self@[k].dates)
                        &&& infos@[k].page_map_entries == page_map_of(self@[k].dates).len()
                    },
            decreases self.calendars@.len() - i,
        {
            let calendar = &self.calendars[i];
            let ghost held = infos@;
            let info = CalendarInfo {
                id: calendar.id(),
                xuid: pairs[i].0.clone(),
                entries: calendar.dates().len() as i64,
                page_size: calendar.page_size(),
                page_map_entries: calendar.page_map().len() as i64,
            };
            proof {
                assert(self@[i as int].id == calendar@.id);
                assert(self@[i as int].dates == calendar@.dates);
            }
            infos.push(info);
            proof {
                assert forall|k: int| 0 <= k < i + 1 implies {
                    &&& (#[trigger] infos@[k]).id == self@[k].id
                    &&& infos@[k].xuid@ == self@[k].xuid
                    &&& infos@[k].entries == self@[k].dates.len()
                    &&& infos@[k].page_size == page_size_of(self@[k].dates)
                    &&& infos@[k].page_map_entries == page_map_of(self@[k].dates).len()
                } by {
                    if k < i {
                        assert(infos@[k] == held[k]);
                    }
                }
            }
            i = i + 1;
        }
        infos
    }

    /// The ids and the keys of the store are distinct.
    proof fn lemma_distinct(self)
        requires
            self.well_formed(),
        ensures
            distinct_ids(self@),
            distinct_keys(self@),
            self@.len() == self.calendars@.len(),
    {
        assert forall|i: int, j: int| 0 <= i < j < self@.len() implies (#[trigger] self@[i]).id != (
        #[trigger] self@[j]).id && self@[i].xuid != self@[j].xuid by {
            assert(self.calendars@[i]@.id != self.calendars@[j]@.id);
            assert(key_entries(self.keys)[i].0 != key_entries(self.keys)[j].0);
        }
    }
}

} // verus!
