//! The state of the cache and the protocol by which it is filled once.
//!
//! Many callers may want the cache filled at the same time. Each of them
//! asks `next_step` what to do. Exactly one of those told to acquire the
//! cache wins `begin_fill` and reads the source; the others wait until the
//! state has left `Filling`.

use vstd::prelude::*;

verus! {

/// Where the cache stands in its life cycle.
#[derive(Clone, Copy, Debug, PartialEq, Eq, Structural)]
pub enum CacheState {
    /// Nothing is held.
    Empty,
    /// One caller is reading the source.
    Filling,
    /// The calendars are held and can be looked up.
    Filled,
}

/// What a caller that needs a filled cache does next.
#[derive(Clone, Copy, Debug, PartialEq, Eq, Structural)]
pub enum FillStep {
    /// The cache is filled: go on with the lookup.
    Done,
    /// Another caller is filling the cache: wait a moment and ask again.
    Wait,
    /// The cache is empty: take exclusive access and try to begin a fill.
    Acquire,
}

/// The only moves the state may make.
pub open spec fn legal_transition(from: CacheState, to: CacheState) -> bool {
    ||| from == CacheState::Empty && to == CacheState::Filling
    ||| from == CacheState::Filling && to == CacheState::Filled
    ||| from == CacheState::Filling && to == CacheState::Empty
    ||| from == CacheState::Filled && to == CacheState::Empty
}

/// What a caller is told to do in each state.
pub open spec fn step_for(state: CacheState) -> FillStep {
    match state {
        CacheState::Filled => FillStep::Done,
        CacheState::Filling => FillStep::Wait,
        CacheState::Empty => FillStep::Acquire,
    }
}

/// Whether an attempt to begin a fill in this state wins.
pub open spec fn wins_fill(state: CacheState) -> bool {
    state == CacheState::Empty
}

/// The state after an attempt to begin a fill.
pub open spec fn after_begin(state: CacheState) -> CacheState {
    if state == CacheState::Empty {
        CacheState::Filling
    } else {
        state
    }
}

/// The state after `attempts` attempts to begin a fill, one after the other.
pub open spec fn after_attempts(state: CacheState, attempts: nat) -> CacheState
    decreases attempts,
{
    if attempts == 0 {
        state
    } else {
        after_attempts(after_begin(state), (attempts - 1) as nat)
    }
}

/// How many of `attempts` attempts to begin a fill win.
pub open spec fn winners(state: CacheState, attempts: nat) -> nat
    decreases attempts,
{
    if attempts == 0 {
        0
    } else {
        (if wins_fill(state) {
            1nat
        } else {
            0nat
        }) + winners(after_begin(state), (attempts - 1) as nat)
    }
}

/// What the control record stands for.
pub struct ControlModel {
    pub state: CacheState,
    pub calendar_count: nat,
    pub entry_count: nat,
}

/// The published state of the cache: whether it is filled or being
/// filled, and how much a filled cache holds.
#[derive(Clone, Copy, Debug)]
pub struct CalendarControl {
    calendar_count: usize,
    entry_count: usize,
    cache_filled: bool,
    cache_being_filled: bool,
}

impl View for CalendarControl {
    type V = ControlModel;

    closed spec fn view(&self) -> ControlModel {
        ControlModel {
            state: if self.cache_filled {
                CacheState::Filled
            } else if self.cache_being_filled {
                CacheState::Filling
            } else {
                CacheState::Empty
            },
            calendar_count: self.calendar_count as nat,
            entry_count: self.entry_count as nat,
        }
    }
}

impl CalendarControl {
    #[verifier::type_invariant]
    spec fn well_formed(self) -> bool {
        &&& !(self.cache_filled && self.cache_being_filled)
        &&& !self.cache_filled ==> self.calendar_count == 0 && self.entry_count == 0
    }

    /// The control of an empty cache.
    pub fn new() -> (control: CalendarControl)
        ensures
            control@ == (ControlModel {
                state: CacheState::Empty,
                calendar_count: 0,
                entry_count: 0,
            }),
    {
        CalendarControl {
            calendar_count: 0,
            entry_count: 0,
            cache_filled: false,
            cache_being_filled: false,
        }
    }

    /// The control of a cache that one caller is filling.
    pub fn filling() -> (control: CalendarControl)
        ensures
            control@ == (ControlModel {
                state: CacheState::Filling,
                calendar_count: 0,
                entry_count: 0,
            }),
    {
        CalendarControl {
            calendar_count: 0,
            entry_count: 0,
            cache_filled: false,
            cache_being_filled: true,
        }
    }

    /// The control of a filled cache that holds this much.
    pub fn filled(calendar_count: usize, entry_count: usize) -> (control: CalendarControl)
        ensures
            control@ == (ControlModel {
                state: CacheState::Filled,
                calendar_count: calendar_count as nat,
                entry_count: entry_count as nat,
            }),
    {
        CalendarControl {
            calendar_count,
            entry_count,
            cache_filled: true,
            cache_being_filled: false,
        }
    }

    /// Where the cache stands.
    pub fn state(&self) -> (state: CacheState)
        ensures
            state == self@.state,
    {
        if self.cache_filled {
            CacheState::Filled
        } else if self.cache_being_filled {
            CacheState::Filling
        } else {
            CacheState::Empty
        }
    }

    /// What a caller that needs a filled cache does next.
    pub fn next_step(&self) -> (step: FillStep)
        ensures
            step == step_for(self@.state),
    {
        match self.state() {
            CacheState::Filled => FillStep::Done,
            CacheState::Filling => FillStep::Wait,
            CacheState::Empty => FillStep::Acquire,
        }
    }

    /// How many calendars a filled cache holds; 0 otherwise.
    pub fn calendar_count(&self) -> (count: usize)
        ensures
            count == self@.calendar_count,
            self@.state != CacheState::Filled ==> count == 0,
    {
        proof {
            use_type_invariant(self);
        }
        self.calendar_count
    }

    /// How many dates a filled cache holds; 0 otherwise.
    pub fn entry_count(&self) -> (count: usize)
        ensures
            count == self@.entry_count,
            self@.state != CacheState::Filled ==> count == 0,
    {
        proof {
            use_type_invariant(self);
        }
        self.entry_count
    }
}

impl Default for CalendarControl {
    /// The control of an empty cache.
    fn default() -> (control: CalendarControl)
        ensures
            control@ == (ControlModel {
                state: CacheState::Empty,
                calendar_count: 0,
                entry_count: 0,
            }),
    {
        CalendarControl::new()
    }
}

/// Fill-once, for callers that take their turns one after the other.
/// Of any number of attempts to begin a fill on an empty cache exactly one
/// wins, the cache is then being filled, and on a cache that is being
/// filled or is filled no attempt wins.
pub proof fn law_fill_once(attempts: nat)
    requires
        attempts >= 1,
    ensures
        winners(CacheState::Empty, attempts) == 1,
        after_attempts(CacheState::Empty, attempts) == CacheState::Filling,
        winners(CacheState::Filling, attempts) == 0,
        winners(CacheState::Filled, attempts) == 0,
        after_attempts(CacheState::Filling, attempts) == CacheState::Filling,
        after_attempts(CacheState::Filled, attempts) == CacheState::Filled,
    decreases attempts,
{
    if attempts > 1 {
        law_fill_once((attempts - 1) as nat);
    } else {
        assert(winners(CacheState::Filling, 0) == 0);
        assert(winners(CacheState::Filled, 0) == 0);
        assert(after_attempts(CacheState::Filling, 0) == CacheState::Filling);
        assert(after_attempts(CacheState::Filled, 0) == CacheState::Filled);
    }
}

} // verus!
