//! The agent's digital biology: energy, mood, and sleep state.
//!
//! Energy lives in `[0, 100]` and valence in `[-1, 1]`; both are carried in
//! micro-units (`UNIT == 1_000_000`), so full energy is `100 * UNIT`.

use vstd::prelude::*;
use crate::event::UNIT;

verus! {

/// Full energy: 100 in micro-units.
pub const ENERGY_MAX: i64 = 100_000_000;

/// Below this (10 in micro-units) the agent counts as exhausted.
pub const ENERGY_EXHAUSTED: i64 = 10_000_000;

/// The mood of the agent, derived from sentiment of user interactions.
#[derive(Debug, Clone, Copy, PartialEq, Eq, Hash, Structural)]
pub enum Mood {
    Excited,
    Happy,
    Neutral,
    Annoyed,
    Angry,
    Sad,
}

impl Default for Mood {
    fn default() -> (r: Self)
        ensures
            r == Mood::Neutral,
    {
        Mood::Neutral
    }
}

/// The name of each mood, as logged.
pub open spec fn mood_name(m: Mood) -> Seq<char> {
    match m {
        Mood::Excited => "Excited"@,
        Mood::Happy => "Happy"@,
        Mood::Neutral => "Neutral"@,
        Mood::Annoyed => "Annoyed"@,
        Mood::Angry => "Angry"@,
        Mood::Sad => "Sad"@,
    }
}

impl Mood {
    /// The mood's name, for logs.
    pub fn to_string(&self) -> (r: String)
        ensures
            r@ == mood_name(*self),
    {
        match self {
            Mood::Excited => String::from_str("Excited"),
            Mood::Happy => String::from_str("Happy"),
            Mood::Neutral => String::from_str("Neutral"),
            Mood::Annoyed => String::from_str("Annoyed"),
            Mood::Angry => String::from_str("Angry"),
            Mood::Sad => String::from_str("Sad"),
        }
    }
}

/// The shared "physical" condition of the agent. Mutated only by the
/// coordinator; other workers hold read handles.
#[derive(Debug, Clone, Copy, PartialEq, Eq, Structural)]
pub struct BiologyState {
    /// Energy in micro-units, between 0 and `ENERGY_MAX`.
    pub energy: i64,
    /// Current mood.
    pub mood: Mood,
    /// Whether the agent is in sleep/consolidation mode.
    pub is_sleeping: bool,
    /// Mood valence in micro-units, between `-UNIT` and `UNIT`.
    pub mood_valence: i64,
}

impl BiologyState {
    /// Energy and valence stay inside their ranges.
    pub open spec fn wf(&self) -> bool {
        0 <= self.energy <= ENERGY_MAX && -UNIT <= self.mood_valence <= UNIT
    }

    /// Full energy, neutral mood, awake.
    pub fn new() -> (r: Self)
        ensures
            r.energy == ENERGY_MAX,
            r.mood == Mood::Neutral,
            !r.is_sleeping,
            r.mood_valence == 0,
            r.wf(),
    {
        BiologyState {
            energy: ENERGY_MAX,
            mood: Mood::Neutral,
            is_sleeping: false,
            mood_valence: 0,
        }
    }

    /// Drain energy by `amount` micro-units, saturating at zero.
    pub fn drain_energy(&mut self, amount: i64)
        requires
            old(self).wf(),
            amount >= 0,
        ensures
            final(self).energy == if old(self).energy - amount >= 0 {
                old(self).energy - amount
            } else {
                0
            },
            final(self).mood == old(self).mood,
            final(self).is_sleeping == old(self).is_sleeping,
            final(self).mood_valence == old(self).mood_valence,
            final(self).wf(),
    {
        if amount <= self.energy {
            self.energy = self.energy - amount;
        } else {
            self.energy = 0;
        }
    }

    /// Recover energy by `amount` micro-units, saturating at `ENERGY_MAX`.
    pub fn recover_energy(&mut self, amount: i64)
        requires
            old(self).wf(),
            amount >= 0,
        ensures
            final(self).energy == if old(self).energy + amount <= ENERGY_MAX {
                old(self).energy + amount
            } else {
                ENERGY_MAX as int
            },
            final(self).mood == old(self).mood,
            final(self).is_sleeping == old(self).is_sleeping,
            final(self).mood_valence == old(self).mood_valence,
            final(self).wf(),
    {
        if amount <= ENERGY_MAX - self.energy {
            self.energy = self.energy + amount;
        } else {
            self.energy = ENERGY_MAX;
        }
    }

    /// Whether the agent is low on energy.
    pub fn is_exhausted(&self) -> (r: bool)
        ensures
            r == (self.energy < ENERGY_EXHAUSTED),
    {
        self.energy < ENERGY_EXHAUSTED
    }

    /// Whether the agent is in a negative mood state.
    pub fn is_negative_mood(&self) -> (r: bool)
        ensures
            r == (self.mood == Mood::Annoyed || self.mood == Mood::Angry || self.mood
                == Mood::Sad),
    {
        matches!(self.mood, Mood::Annoyed | Mood::Angry | Mood::Sad)
    }

    /// Set the mood; the valence is clamped into `[-UNIT, UNIT]`.
    pub fn update_mood(&mut self, mood: Mood, valence: i64)
        requires
            old(self).wf(),
        ensures
            final(self).mood == mood,
            final(self).mood_valence == if valence < -UNIT {
                -UNIT as int
            } else if valence > UNIT {
                UNIT as int
            } else {
                valence as int
            },
            final(self).energy == old(self).energy,
            final(self).is_sleeping == old(self).is_sleeping,
            final(self).wf(),
    {
        self.mood = mood;
        self.mood_valence = if valence < -UNIT {
            -UNIT
        } else if valence > UNIT {
            UNIT
        } else {
            valence
        };
    }
}

impl Default for BiologyState {
    fn default() -> (r: Self)
        ensures
            r.energy == ENERGY_MAX,
            r.mood == Mood::Neutral,
            !r.is_sleeping,
            r.mood_valence == 0,
            r.wf(),
    {
        BiologyState::new()
    }
}

} // verus!
