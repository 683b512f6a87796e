//! Per-player state: the queued-move buffer and the liveness flag.

use vstd::prelude::*;
use std::collections::VecDeque;
use crate::cell::Team;
use crate::direction::Move;

verus! {

/// One player's mutable state. The tick engine drains `moves` one entry
/// per tick; `dead` is an external signal slot that the engine itself
/// never sets or reads.
pub struct PlayerState {
    /// The queue of pending moves, drained from the front.
    pub moves: VecDeque<Move>,
    /// Set by bookkeeping outside the tick engine when the player's king
    /// is lost; never consulted by the engine.
    pub dead: bool,
    /// The team this player moves for.
    pub team: Team,
}

impl PlayerState {
    /// A fresh player for `team`: alive, with an empty move queue.
    pub fn new(team: Team) -> (r: PlayerState)
        ensures
            r.moves@ == Seq::<Move>::empty(),
            !r.dead,
            r.team == team,
    {
        PlayerState { moves: VecDeque::new(), dead: false, team }
    }

    /// Pops the front of the move queue, if any.
    pub(crate) fn pop_move(&mut self) -> (r: Option<Move>)
        ensures
            final(self).team == old(self).team,
            final(self).dead == old(self).dead,
            old(self).moves@.len() == 0 ==> r is None && final(self).moves@ == old(self).moves@,
            old(self).moves@.len() > 0 ==> r == Some(old(self).moves@[0]) && final(self).moves@
                == old(self).moves@.drop_first(),
    {
        self.moves.pop_front()
    }

    /// Discards every queued move.
    pub(crate) fn clear_moves(&mut self)
        ensures
            final(self).team == old(self).team,
            final(self).dead == old(self).dead,
            final(self).moves@ == Seq::<Move>::empty(),
    {
        self.moves.clear()
    }
}

} // verus!
