//! One grid square: terrain, ownership, and garrison size.

use vstd::prelude::*;

verus! {

/// A player identifier: an index into the game's player list.
pub type Team = usize;

/// One grid square.
///
/// Only `Fortress`, `King` and `Captured` carry a unit count; `Mountain`
/// and `Open` never hold units and are never owned.
#[derive(Debug, Clone, Copy, PartialEq, Eq)]
pub enum Cell {
    /// Impassable terrain.
    Mountain,
    /// Unclaimed ground, capturable by any incoming force.
    Open,
    /// A strongpoint, neutral (`None`) or team-owned; grows only once owned.
    Fortress(Option<Team>, usize),
    /// A team's capital; grows on the fast clock; its fall converts it into
    /// a fortress owned by the attacker.
    King(Team, usize),
    /// Ordinary team-owned territory; grows only on the slow clock.
    Captured(Team, usize),
}

impl Cell {
    /// True of the variants that carry a unit count.
    pub open spec fn has_units(self) -> bool {
        match self {
            Cell::Fortress(_, _) => true,
            Cell::King(_, _) => true,
            Cell::Captured(_, _) => true,
            _ => false,
        }
    }

    /// The unit count; `Mountain` and `Open` hold none.
    pub open spec fn count(self) -> usize {
        match self {
            Cell::Fortress(_, n) => n,
            Cell::King(_, n) => n,
            Cell::Captured(_, n) => n,
            _ => 0,
        }
    }

    /// The same terrain and owner, with the unit count replaced by `n`.
    /// Leaves `Mountain` and `Open` unchanged.
    pub open spec fn with_count(self, n: usize) -> Cell {
        match self {
            Cell::Fortress(o, _) => Cell::Fortress(o, n),
            Cell::King(t, _) => Cell::King(t, n),
            Cell::Captured(t, _) => Cell::Captured(t, n),
            c => c,
        }
    }

    /// Whether `team` controls this cell: it is a fortress, king, or
    /// captured ground owned by `team`. `Mountain` and `Open` are never
    /// controlled by anyone.
    pub open spec fn spec_controlled_by(self, team: Team) -> bool {
        match self {
            Cell::Fortress(Some(t), _) => t == team,
            Cell::King(t, _) => t == team,
            Cell::Captured(t, _) => t == team,
            _ => false,
        }
    }

    /// True iff the cell is a fortress, king, or captured ground owned by
    /// `team`.
    pub fn is_controlled_by(&self, team: Team) -> (r: bool)
        ensures
            r == self.spec_controlled_by(team),
    {
        match *self {
            Cell::Fortress(Some(t), _) => t == team,
            Cell::King(t, _) => t == team,
            Cell::Captured(t, _) => t == team,
            _ => false,
        }
    }

    /// Drains the cell down to its garrison floor of one unit and returns
    /// the movable remainder. Callers must guarantee the cell bears at
    /// least one unit; calling this on `Mountain` or `Open` is a contract
    /// violation.
    pub fn take_units(&mut self) -> (r: usize)
        requires
            old(self).has_units(),
            old(self).count() >= 1,
        ensures
            r == old(self).count() - 1,
            *final(self) == old(self).with_count(1),
    {
        match self {
            Cell::Fortress(_, n) => {
                let num: usize = *n;
                *n = 1;
                num - 1
            }
            Cell::King(_, n) => {
                let num: usize = *n;
                *n = 1;
                num - 1
            }
            Cell::Captured(_, n) => {
                let num: usize = *n;
                *n = 1;
                num - 1
            }
            _ => vstd::pervasive::unreached(),
        }
    }

    /// Adds `num` units to a unit-bearing cell. Calling this on `Mountain`
    /// or `Open` is a contract violation.
    pub fn give_units(&mut self, num: usize)
        requires
            old(self).has_units(),
            old(self).count() + num <= usize::MAX,
        ensures
            *final(self) == old(self).with_count((old(self).count() + num) as usize),
    {
        match self {
            Cell::Fortress(_, n) => {
                *n = *n + num;
            }
            Cell::King(_, n) => {
                *n = *n + num;
            }
            Cell::Captured(_, n) => {
                *n = *n + num;
            }
            _ => vstd::pervasive::unreached(),
        }
    }
}

/// Round trip: on a unit-bearing cell, taking the movable units and giving
/// the same amount straight back restores the original cell exactly.
pub proof fn lemma_take_give_round_trip(c: Cell)
    requires
        c.has_units(),
        c.count() >= 1,
    ensures
        ({
            let drained = c.with_count(1);
            let units = (c.count() - 1) as usize;
            drained.with_count((drained.count() + units) as usize) == c
        }),
{
}

} // verus!
