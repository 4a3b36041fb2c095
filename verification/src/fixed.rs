//! The fixed-capacity containers of the cache.
//!
//! Dates, page maps and the two indexes live in `heapless` containers, which
//! Verus cannot look into. This module declares those types, names what each
//! holds, and states what is assumed of every `heapless` call the crate makes.
//! Nothing here is proved: each contract was written against the source of
//! `heapless` 0.7 and is believed as it stands.

use vstd::prelude::*;
use crate::limits::{
    CALENDAR_XUID_MAX_LEN, MAX_CALENDARS, MAX_ENTRIES_PER_CALENDAR, MAX_PAGES_PER_CALENDAR,
};

verus! {

/// `heapless::Vec`, a vector of at most `N` items, taken as opaque.
#[verifier::external_type_specification]
#[verifier::external_body]
#[verifier::reject_recursive_types(T)]
pub struct ExFixedVec<T, const N: usize>(heapless::Vec<T, N>);

/// `heapless::String`, a string of at most `N` bytes, taken as opaque.
#[verifier::external_type_specification]
#[verifier::external_body]
pub struct ExFixedString<const N: usize>(heapless::String<N>);

/// `heapless::IndexMap`, a hash map of at most `N` pairs that iterates
/// them in the order in which their keys were first inserted as long as
/// none is removed, taken as opaque.
#[verifier::external_type_specification]
#[verifier::external_body]
#[verifier::reject_recursive_types(K)]
#[verifier::reject_recursive_types(V)]
#[verifier::reject_recursive_types(S)]
pub struct ExIndexMap<K, V, S, const N: usize>(heapless::IndexMap<K, V, S, N>);

/// `hash32::BuildHasherDefault`, which the indexes name as their hasher
/// builder, taken as opaque.
#[verifier::external_type_specification]
#[verifier::external_body]
#[verifier::reject_recursive_types(H)]
pub struct ExBuildHasherDefault<H>(hash32::BuildHasherDefault<H>);

/// `hash32::FnvHasher`, the hasher of the indexes, taken as opaque.
#[verifier::external_type_specification]
#[verifier::external_body]
pub struct ExFnvHasher(hash32::FnvHasher);

/// The dates of one calendar.
pub type DateVec = heapless::Vec<i32, MAX_ENTRIES_PER_CALENDAR>;

/// The page map of one calendar.
pub type PageVec = heapless::Vec<usize, MAX_PAGES_PER_CALENDAR>;

/// An external key, at most `CALENDAR_XUID_MAX_LEN` bytes long.
pub type KeyText = heapless::String<CALENDAR_XUID_MAX_LEN>;

/// From calendar id to the slot that holds the calendar.
pub type SlotIndex = heapless::FnvIndexMap<i64, usize, MAX_CALENDARS>;

/// From external key to calendar id.
pub type KeyIndex = heapless::FnvIndexMap<KeyText, i64, MAX_CALENDARS>;

/// How many bytes `text` takes in UTF-8.
pub open spec fn utf8_len(text: Seq<char>) -> nat {
    vstd::utf8::encode_utf8(text).len()
}

/// The dates a `DateVec` holds, first to last.
pub uninterp spec fn date_entries(v: DateVec) -> Seq<i32>;

/// The indices a `PageVec` holds, first to last.
pub uninterp spec fn page_entries(v: PageVec) -> Seq<usize>;

/// The characters of a `KeyText`.
pub uninterp spec fn key_chars(k: KeyText) -> Seq<char>;

/// The `(id, slot)` pairs a `SlotIndex` holds, in the order it iterates them.
pub uninterp spec fn slot_entries(m: SlotIndex) -> Seq<(i64, usize)>;

/// The `(key, id)` pairs a `KeyIndex` holds, in the order it iterates them.
pub uninterp spec fn key_entries(m: KeyIndex) -> Seq<(Seq<char>, i64)>;

/// `heapless::Vec::new`: the new vector holds nothing.
#[verifier::external_body]
pub(crate) fn new_dates() -> (v: DateVec)
    ensures
        date_entries(v) == Seq::<i32>::empty(),
{
    heapless::Vec::new()
}

/// `heapless::Vec::push`: appends `date` while fewer than
/// `MAX_ENTRIES_PER_CALENDAR` dates are held; a full vector is left as it
/// was and `date` comes back in `Err`.
#[verifier::external_body]
pub(crate) fn push_date(v: &mut DateVec, date: i32) -> (r: Result<(), i32>)
    ensures
        match r {
            Ok(_) => date_entries(*old(v)).len() < MAX_ENTRIES_PER_CALENDAR
                && date_entries(*final(v)) == date_entries(*old(v)).push(date),
            Err(back) => date_entries(*old(v)).len() >= MAX_ENTRIES_PER_CALENDAR
                && back == date
                && date_entries(*final(v)) == date_entries(*old(v)),
        },
{
    v.push(date)
}

/// `heapless::Vec::as_slice`: the slice holds exactly the dates of `v`.
#[verifier::external_body]
pub(crate) fn dates_as_slice(v: &DateVec) -> (s: &[i32])
    ensures
        s@ == date_entries(*v),
{
    v.as_slice()
}

/// `heapless::Vec::new`: the new vector holds nothing.
#[verifier::external_body]
pub(crate) fn new_page_map() -> (v: PageVec)
    ensures
        page_entries(v) == Seq::<usize>::empty(),
{
    heapless::Vec::new()
}

/// `heapless::Vec::push`: appends `index` while fewer than
/// `MAX_PAGES_PER_CALENDAR` entries are held; a full vector is left as it
/// was and `index` comes back in `Err`.
#[verifier::external_body]
pub(crate) fn push_page(v: &mut PageVec, index: usize) -> (r: Result<(), usize>)
    ensures
        match r {
            Ok(_) => page_entries(*old(v)).len() < MAX_PAGES_PER_CALENDAR
                && page_entries(*final(v)) == page_entries(*old(v)).push(index),
            Err(back) => page_entries(*old(v)).len() >= MAX_PAGES_PER_CALENDAR
                && back == index
                && page_entries(*final(v)) == page_entries(*old(v)),
        },
{
    v.push(index)
}

/// `heapless::Vec::as_slice`: the slice holds exactly the entries of `v`.
#[verifier::external_body]
pub(crate) fn page_map_as_slice(v: &PageVec) -> (s: &[usize])
    ensures
        s@ == page_entries(*v),
{
    v.as_slice()
}

/// `<heapless::String<N> as From<&str>>::from`: copies `text`. The call
/// panics when `text` is longer than the capacity, so the bound is required.
#[verifier::external_body]
pub(crate) fn key_from_str(text: &str) -> (k: KeyText)
    requires
        utf8_len(text@) <= CALENDAR_XUID_MAX_LEN,
    ensures
        key_chars(k) == text@,
{
    heapless::String::from(text)
}

/// `heapless::IndexMap::new`: the new index holds nothing.
#[verifier::external_body]
pub(crate) fn new_slot_index() -> (m: SlotIndex)
    ensures
        slot_entries(m) == Seq::<(i64, usize)>::empty(),
{
    heapless::FnvIndexMap::new()
}

/// `heapless::IndexMap::insert`: a pair whose id is already held keeps its
/// place and takes the new slot, and the old slot is returned; a new id is
/// added last while fewer than `MAX_CALENDARS` pairs are held; a new id on a
/// full index changes nothing and is refused.
#[verifier::external_body]
pub(crate) fn insert_slot(m: &mut SlotIndex, id: i64, slot: usize) -> (r: Result<Option<usize>, ()>)
    ensures
        match r {
            Ok(Some(prev)) => exists|i: int|
                0 <= i < slot_entries(*old(m)).len() && slot_entries(*old(m))[i] == (id, prev)
                    && slot_entries(*final(m)) == slot_entries(*old(m)).update(i, (id, slot)),
            Ok(None) => slot_entries(*old(m)).len() < MAX_CALENDARS
                && (forall|i: int| 0 <= i < slot_entries(*old(m)).len()
                    ==> (#[trigger] slot_entries(*old(m))[i]).0 != id)
                && slot_entries(*final(m)) == slot_entries(*old(m)).push((id, slot)),
            Err(_) => slot_entries(*old(m)).len() >= MAX_CALENDARS
                && (forall|i: int| 0 <= i < slot_entries(*old(m)).len()
                    ==> (#[trigger] slot_entries(*old(m))[i]).0 != id)
                && slot_entries(*final(m)) == slot_entries(*old(m)),
        },
{
    m.insert(id, slot).map_err(|_| ())
}

/// `heapless::IndexMap::get`: the slot paired with `id`, or `None` when no
/// pair holds `id`.
#[verifier::external_body]
pub(crate) fn find_slot(m: &SlotIndex, id: i64) -> (r: Option<usize>)
    ensures
        match r {
            Some(slot) => exists|i: int|
                0 <= i < slot_entries(*m).len() && slot_entries(*m)[i] == (id, slot),
            None => forall|i: int| 0 <= i < slot_entries(*m).len()
                ==> (#[trigger] slot_entries(*m)[i]).0 != id,
        },
{
    m.get(&id).copied()
}

/// `heapless::IndexMap::new`: the new index holds nothing.
#[verifier::external_body]
pub(crate) fn new_key_index() -> (m: KeyIndex)
    ensures
        key_entries(m) == Seq::<(Seq<char>, i64)>::empty(),
{
    heapless::FnvIndexMap::new()
}

/// `heapless::IndexMap::insert`: a pair whose key is already held keeps its
/// place and takes the new id, and the old id is returned; a new key is
/// added last while fewer than `MAX_CALENDARS` pairs are held; a new key on
/// a full index changes nothing and is refused.
#[verifier::external_body]
pub(crate) fn insert_key(m: &mut KeyIndex, key: KeyText, id: i64) -> (r: Result<Option<i64>, ()>)
    ensures
        match r {
            Ok(Some(prev)) => exists|i: int|
                0 <= i < key_entries(*old(m)).len() && key_entries(*old(m))[i] == (
                    key_chars(key),
                    prev,
                ) && key_entries(*final(m)) == key_entries(*old(m)).update(i, (key_chars(key), id)),
            Ok(None) => key_entries(*old(m)).len() < MAX_CALENDARS
                && (forall|i: int| 0 <= i < key_entries(*old(m)).len()
                    ==> (#[trigger] key_entries(*old(m))[i]).0 != key_chars(key))
                && key_entries(*final(m)) == key_entries(*old(m)).push((key_chars(key), id)),
            Err(_) => key_entries(*old(m)).len() >= MAX_CALENDARS
                && (forall|i: int| 0 <= i < key_entries(*old(m)).len()
                    ==> (#[trigger] key_entries(*old(m))[i]).0 != key_chars(key))
                && key_entries(*final(m)) == key_entries(*old(m)),
        },
{
    m.insert(key, id).map_err(|_| ())
}

/// `heapless::IndexMap::get`: the id paired with `key`, or `None` when no
/// pair holds `key`.
#[verifier::external_body]
pub(crate) fn find_key(m: &KeyIndex, key: &KeyText) -> (r: Option<i64>)
    ensures
        match r {
            Some(id) => exists|i: int|
                0 <= i < key_entries(*m).len() && key_entries(*m)[i] == (key_chars(*key), id),
            None => forall|i: int| 0 <= i < key_entries(*m).len()
                ==> (#[trigger] key_entries(*m)[i]).0 != key_chars(*key),
        },
{
    m.get(key).copied()
}

/// `heapless::IndexMap::iter`: every pair of the index, in its order, with
/// the key copied into a `String`.
#[verifier::external_body]
pub(crate) fn key_pairs(m: &KeyIndex) -> (pairs: Vec<(String, i64)>)
    ensures
        pairs.len() == key_entries(*m).len(),
        forall|i: int| 0 <= i < pairs.len() ==> (#[trigger] pairs[i]).0@ == key_entries(*m)[i].0
            && pairs[i].1 == key_entries(*m)[i].1,
{
    m.iter().map(|(key, id)| (key.as_str().to_string(), *id)).collect()
}

} // verus!
