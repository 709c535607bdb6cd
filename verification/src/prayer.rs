//! The six daily prayer times, in the order in which a day lists them, and
//! what the clock does when one of them comes.

use vstd::prelude::*;

verus! {

/// One of the six times that a day of the calendar lists. Sunrise is not a
/// prayer, but the calendar gives it and the clock counts down to it too.
#[derive(Clone, Copy, Debug, PartialEq, Eq, Structural)]
pub enum Prayer {
    Fajr,
    Sunrise,
    Dhuhr,
    Asr,
    Maghrib,
    Isha,
}

/// Number of times listed for each day.
pub const PRAYERS_PER_DAY: usize = 6;

impl Prayer {
    /// Place of the prayer in a day, from 0 (Fajr) to 5 (Isha).
    pub open spec fn spec_index(self) -> nat {
        match self {
            Prayer::Fajr => 0,
            Prayer::Sunrise => 1,
            Prayer::Dhuhr => 2,
            Prayer::Asr => 3,
            Prayer::Maghrib => 4,
            Prayer::Isha => 5,
        }
    }

    /// The prayer at place `i` of a day.
    pub open spec fn spec_at(i: nat) -> Prayer {
        if i == 0 {
            Prayer::Fajr
        } else if i == 1 {
            Prayer::Sunrise
        } else if i == 2 {
            Prayer::Dhuhr
        } else if i == 3 {
            Prayer::Asr
        } else if i == 4 {
            Prayer::Maghrib
        } else {
            Prayer::Isha
        }
    }

    /// The name under which the calendar lists the prayer.
    pub open spec fn spec_name(self) -> Seq<char> {
        match self {
            Prayer::Fajr => "Fajr"@,
            Prayer::Sunrise => "Sunrise"@,
            Prayer::Dhuhr => "Dhuhr"@,
            Prayer::Asr => "Asr"@,
            Prayer::Maghrib => "Maghrib"@,
            Prayer::Isha => "Isha"@,
        }
    }

    /// Place of the prayer in a day.
    pub fn index(&self) -> (i: usize)
        ensures
            i == self.spec_index(),
            i < PRAYERS_PER_DAY,
    {
        match self {
            Prayer::Fajr => 0,
            Prayer::Sunrise => 1,
            Prayer::Dhuhr => 2,
            Prayer::Asr => 3,
            Prayer::Maghrib => 4,
            Prayer::Isha => 5,
        }
    }

    /// The prayer at place `i` of a day.
    pub fn at(i: usize) -> (p: Prayer)
        requires
            i < PRAYERS_PER_DAY,
        ensures
            p == Prayer::spec_at(i as nat),
            p.spec_index() == i,
    {
        if i == 0 {
            Prayer::Fajr
        } else if i == 1 {
            Prayer::Sunrise
        } else if i == 2 {
            Prayer::Dhuhr
        } else if i == 3 {
            Prayer::Asr
        } else if i == 4 {
            Prayer::Maghrib
        } else {
            Prayer::Isha
        }
    }

    /// The name under which the calendar lists the prayer.
    pub fn name(&self) -> (s: &'static str)
        ensures
            s@ == self.spec_name(),
    {
        match self {
            Prayer::Fajr => "Fajr",
            Prayer::Sunrise => "Sunrise",
            Prayer::Dhuhr => "Dhuhr",
            Prayer::Asr => "Asr",
            Prayer::Maghrib => "Maghrib",
            Prayer::Isha => "Isha",
        }
    }
}

/// What the clock does when the time of a prayer comes.
#[derive(Clone, Copy, Debug, PartialEq, Eq, Structural)]
pub enum AdhanAction {
    /// Sunrise: no adhan; the clock shows the time as reached and clears
    /// that mark thirty minutes after sunrise.
    MarkSunrise,
    /// The adhan of Fajr, which is its own recording.
    PlayFajrAdhan,
    /// The adhan of the other prayers.
    PlayAdhan,
}

/// Number of seconds during which the clock marks that sunrise has come.
pub const SUNRISE_MARK_SECONDS: u64 = 1800;

/// What the clock does when `prayer` comes.
pub fn adhan_action(prayer: Prayer) -> (a: AdhanAction)
    ensures
        prayer == Prayer::Sunrise ==> a == AdhanAction::MarkSunrise,
        prayer == Prayer::Fajr ==> a == AdhanAction::PlayFajrAdhan,
        prayer != Prayer::Sunrise && prayer != Prayer::Fajr ==> a == AdhanAction::PlayAdhan,
{
    match prayer {
        Prayer::Sunrise => AdhanAction::MarkSunrise,
        Prayer::Fajr => AdhanAction::PlayFajrAdhan,
        _ => AdhanAction::PlayAdhan,
    }
}

} // verus!
