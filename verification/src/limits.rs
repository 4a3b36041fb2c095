//! Capacity bounds of the cache.

use vstd::prelude::*;

verus! {

/// Most calendars the cache can hold. The index over them needs a power of two.
pub const MAX_CALENDARS: usize = 64;

/// Most dates a single calendar can hold.
pub const MAX_ENTRIES_PER_CALENDAR: usize = 8192;

/// Most pages a single calendar's page map can hold.
pub const MAX_PAGES_PER_CALENDAR: usize = 512;

/// Longest external key of a calendar, in bytes of UTF-8.
pub const CALENDAR_XUID_MAX_LEN: usize = 32;

} // verus!
