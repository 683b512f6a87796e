//! The tick engine: unit growth on periodic clocks, then one queued move
//! per player resolved through the combat rules.

use vstd::prelude::*;
use crate::board::Board;
use crate::cell::{Cell, Team};
use crate::direction::Move;
use crate::player::PlayerState;
use crate::units::board_area;
use crate::units::board_units;
use crate::units::lemma_board_area_row;
use crate::units::lemma_board_units_bound;
use crate::units::lemma_board_units_pointwise;
use crate::units::lemma_board_units_set;

verus! {

/// The whole simulation: the grid, the tick counter, and one state per
/// player (index = team). Mutated only by `tick` and by the external
/// move-producer through `player_mut`.
pub struct GameState {
    pub board: Board,
    pub tick_number: usize,
    pub num_players: usize,
    pub player_states: Vec<PlayerState>,
    pub dimens: (i32, i32),
}

/// How one cell grows when the tick counter reaches `tick`: the fast
/// clock (every 2 ticks) grows kings and owned fortresses by one unit;
/// the slow clock (every 32 ticks, and only together with the fast clock)
/// grows captured ground. Unowned fortresses never grow.
pub open spec fn grown_cell(c: Cell, tick: int) -> Cell {
    let fast = tick % 2 == 0;
    let slow = tick % 32 == 0;
    match c {
        Cell::Fortress(Some(t), n) => if fast {
            Cell::Fortress(Some(t), (n + 1) as usize)
        } else {
            c
        },
        Cell::King(t, n) => if fast {
            Cell::King(t, (n + 1) as usize)
        } else {
            c
        },
        Cell::Captured(t, n) => if slow && fast {
            Cell::Captured(t, (n + 1) as usize)
        } else {
            c
        },
        _ => c,
    }
}

/// One row after the growth pass of `tick`.
pub open spec fn grown_row(row: Seq<Cell>, tick: int) -> Seq<Cell> {
    row.map_values(|c: Cell| grown_cell(c, tick))
}

/// The grid after the growth pass of `tick`.
pub open spec fn grown_board(cells: Seq<Seq<Cell>>, tick: int) -> Seq<Seq<Cell>> {
    cells.map_values(|row: Seq<Cell>| grown_row(row, tick))
}

/// The grid with the cell at column `x` of row `y` replaced.
pub open spec fn grid_set(cells: Seq<Seq<Cell>>, x: int, y: int, c: Cell) -> Seq<Seq<Cell>> {
    cells.update(y, cells[y].update(x, c))
}

/// The guarantees the move-producer owes for a queued move when it comes
/// up for resolution: source and target lie on the grid, and the source
/// bears at least one unit, so draining it is legal.
pub open spec fn move_src_ok(cells: Seq<Seq<Cell>>, m: Move) -> bool {
    let x = m.0.0 as int;
    let y = m.0.1 as int;
    let d = m.1.spec_xy();
    let nx = x + d.0;
    let ny = y + d.1;
    &&& 0 <= y < cells.len()
    &&& 0 <= x < cells[y].len()
    &&& 0 <= ny < cells.len()
    &&& 0 <= nx < cells[ny].len()
    &&& cells[y][x].has_units()
    &&& cells[y][x].count() >= 1
}

/// No fatal misuse at the target: a king not held by the attacker that is
/// about to fall must still hold its garrison of one, since a king's fall
/// credits that unit back to the attacker.
pub open spec fn king_ok(target: Cell, team: Team, units: usize) -> bool {
    match target {
        Cell::King(t, n) => t == team || n >= units || n >= 1,
        _ => true,
    }
}

/// The target cell after an attack by `team` with `units >= 1` in flight.
/// A cell the attacker already controls is reinforced; an open cell is
/// captured outright; a mountain is left unchanged (the caller returns
/// the units to their source); otherwise the strength comparison decides,
/// with ties favoring the defender, and a fallen king leaves an
/// attacker-owned fortress holding `units - (n - 1)`.
pub open spec fn resolve_cell(target: Cell, team: Team, units: usize) -> Cell {
    if target.spec_controlled_by(team) {
        target.with_count((target.count() + units) as usize)
    } else {
        match target {
            Cell::Mountain => target,
            Cell::Open => Cell::Captured(team, units),
            Cell::Captured(t, n) => if n >= units {
                Cell::Captured(t, (n - units) as usize)
            } else {
                Cell::Captured(team, (units - n) as usize)
            },
            Cell::Fortress(o, n) => if n >= units {
                Cell::Fortress(o, (n - units) as usize)
            } else {
                Cell::Fortress(Some(team), (units - n) as usize)
            },
            Cell::King(_, n) => if n >= units {
                target.with_count((n - units) as usize)
            } else {
                Cell::Fortress(Some(team), (units - (n - 1)) as usize)
            },
        }
    }
}

/// One player's turn within a tick: pop at most one queued move and
/// resolve it. An empty queue is a skipped turn; a source already drained
/// to its garrison floor aborts and clears the queue; a mountain target
/// bounces the units back and clears the queue. `None` marks a fatal
/// misuse: a move that breaks `move_src_ok` or `king_ok`.
pub open spec fn step_player(cells: Seq<Seq<Cell>>, q: Seq<Move>, team: Team) -> Option<
    (Seq<Seq<Cell>>, Seq<Move>),
> {
    if q.len() == 0 {
        Some((cells, q))
    } else if !move_src_ok(cells, q[0]) {
        None
    } else {
        let m = q[0];
        let x = m.0.0 as int;
        let y = m.0.1 as int;
        let d = m.1.spec_xy();
        let nx = x + d.0;
        let ny = y + d.1;
        let src = cells[y][x];
        let units = (src.count() - 1) as usize;
        let drained = grid_set(cells, x, y, src.with_count(1));
        if units == 0 {
            Some((drained, Seq::empty()))
        } else {
            let target = drained[ny][nx];
            if target is Mountain {
                Some((grid_set(drained, x, y, src), Seq::empty()))
            } else if !king_ok(target, team, units) {
                None
            } else {
                Some((grid_set(drained, nx, ny, resolve_cell(target, team, units)), q.drop_first()))
            }
        }
    }
}

/// The move-resolution phase for the first `i` players in team order: the
/// grid and every queue afterwards, or `None` if some player's turn hits
/// a fatal misuse.
pub open spec fn step_players(
    cells: Seq<Seq<Cell>>,
    qs: Seq<Seq<Move>>,
    teams: Seq<Team>,
    i: int,
) -> Option<(Seq<Seq<Cell>>, Seq<Seq<Move>>)>
    decreases i,
{
    if i <= 0 {
        Some((cells, qs))
    } else {
        match step_players(cells, qs, teams, i - 1) {
            None => None,
            Some(s) => match step_player(s.0, s.1[i - 1], teams[i - 1]) {
                None => None,
                Some(p) => Some((p.0, s.1.update(i - 1, p.1))),
            },
        }
    }
}

/// Whatever the attack's outcome, the target cell afterwards holds at
/// most the defender's and the attacker's units together.
pub proof fn lemma_resolve_cell_count(target: Cell, team: Team, units: usize)
    requires
        units >= 1,
        king_ok(target, team, units),
        target.count() + units <= usize::MAX,
    ensures
        resolve_cell(target, team, units).count() <= target.count() + units,
{
}

/// A later player's queue is untouched by the first `i` players' turns.
proof fn lemma_step_players_untouched(
    cells: Seq<Seq<Cell>>,
    qs: Seq<Seq<Move>>,
    teams: Seq<Team>,
    i: int,
    k: int,
)
    requires
        0 <= i <= k,
        i <= qs.len(),
        step_players(cells, qs, teams, i) is Some,
    ensures
        step_players(cells, qs, teams, i)->Some_0.1.len() == qs.len(),
        k < qs.len() ==> step_players(cells, qs, teams, i)->Some_0.1[k] == qs[k],
    decreases i,
{
    if i > 0 {
        let s = step_players(cells, qs, teams, i - 1);
        assert(s is Some);
        lemma_step_players_untouched(cells, qs, teams, i - 1, k);
        let p = step_player(s->Some_0.0, s->Some_0.1[i - 1], teams[i - 1]);
        assert(p is Some);
        assert(step_players(cells, qs, teams, i)->Some_0.1 == s->Some_0.1.update(
            i - 1,
            p->Some_0.1,
        ));
    }
}

/// If the whole move phase avoids misuse, so does every prefix of it.
proof fn lemma_step_players_prefix_some(
    cells: Seq<Seq<Cell>>,
    qs: Seq<Seq<Move>>,
    teams: Seq<Team>,
    i: int,
    j: int,
)
    requires
        0 <= i <= j,
        step_players(cells, qs, teams, j) is Some,
    ensures
        step_players(cells, qs, teams, i) is Some,
    decreases j,
{
    if i < j {
        lemma_step_players_prefix_some(cells, qs, teams, i, j - 1);
    }
}

/// Resolves an attack by `team` with `units` in flight against `target`.
/// The outcome is a pure function of the defender cell, the attacker's
/// team and the units sent: the same inputs always give the same result.
pub fn resolve_attack(target: Cell, team: Team, units: usize) -> (r: Cell)
    requires
        units >= 1,
        target.count() + units <= usize::MAX,
        king_ok(target, team, units),
    ensures
        r == resolve_cell(target, team, units),
{
    if target.is_controlled_by(team) {
        match target {
            Cell::Fortress(o, n) => Cell::Fortress(o, n + units),
            Cell::King(t, n) => Cell::King(t, n + units),
            Cell::Captured(t, n) => Cell::Captured(t, n + units),
            _ => vstd::pervasive::unreached(),
        }
    } else {
        match target {
            Cell::Mountain => target,
            Cell::Open => Cell::Captured(team, units),
            Cell::Captured(t, n) => if n >= units {
                Cell::Captured(t, n - units)
            } else {
                Cell::Captured(team, units - n)
            },
            Cell::Fortress(o, n) => if n >= units {
                Cell::Fortress(o, n - units)
            } else {
                Cell::Fortress(Some(team), units - n)
            },
            Cell::King(t, n) => if n >= units {
                Cell::King(t, n - units)
            } else {
                Cell::Fortress(Some(team), units - (n - 1))
            },
        }
    }
}

/// The growth pass: applies `grown_cell` at `tick` to every cell of the
/// grid.
fn grow(board: &mut Board, tick: usize)
    requires
        board_units(old(board)@) + board_area(old(board)@) <= usize::MAX,
    ensures
        final(board)@ == grown_board(old(board)@, tick as int),
{
    let ghost orig = board@;
    let h = board.height();
    let mut y: usize = 0;
    while y < h
        invariant
            y <= h,
            h == orig.len(),
            board@.len() == orig.len(),
            board_units(orig) + board_area(orig) <= usize::MAX,
            forall|i: int|
                0 <= i < orig.len() ==> (#[trigger] board@[i]).len() == orig[i].len(),
            forall|i: int|
                0 <= i < y ==> (#[trigger] board@[i]) == grown_row(orig[i], tick as int),
            forall|i: int| y <= i < orig.len() ==> (#[trigger] board@[i]) == orig[i],
        decreases h - y,
    {
        let w = board.row_len(y);
        let mut x: usize = 0;
        while x < w
            invariant
                x <= w,
                y < orig.len(),
                w == orig[y as int].len(),
                h == orig.len(),
                board@.len() == orig.len(),
                board_units(orig) + board_area(orig) <= usize::MAX,
                forall|i: int|
                    0 <= i < orig.len() ==> (#[trigger] board@[i]).len() == orig[i].len(),
                forall|i: int|
                    0 <= i < y ==> (#[trigger] board@[i]) == grown_row(orig[i], tick as int),
                forall|i: int| y < i < orig.len() ==> (#[trigger] board@[i]) == orig[i],
                forall|j: int|
                    0 <= j < x ==> (#[trigger] board@[y as int][j]) == grown_cell(
                        orig[y as int][j],
                        tick as int,
                    ),
                forall|j: int| x <= j < w ==> (#[trigger] board@[y as int][j]) == orig[y as int][j],
            decreases w - x,
        {
            proof {
                lemma_board_units_bound(orig, x as int, y as int);
                lemma_board_area_row(orig, y as int);
            }
            let c = board.at(x, y);
            let fast = tick % 2 == 0;
            let slow = tick % 32 == 0;
            let nc = match c {
                Cell::Fortress(Some(t), n) => if fast {
                    Cell::Fortress(Some(t), n + 1)
                } else {
                    c
                },
                Cell::King(t, n) => if fast {
                    Cell::King(t, n + 1)
                } else {
                    c
                },
                Cell::Captured(t, n) => if slow && fast {
                    Cell::Captured(t, n + 1)
                } else {
                    c
                },
                _ => c,
            };
            board.put(x, y, nc);
            x = x + 1;
        }
        proof {
            assert(board@[y as int] =~= grown_row(orig[y as int], tick as int));
        }
        y = y + 1;
    }
    proof {
        assert(board@ =~~= grown_board(orig, tick as int));
    }
}

impl GameState {
    /// Every player's queued moves, by index.
    pub open spec fn queues(self) -> Seq<Seq<Move>> {
        self.player_states@.map_values(|p: PlayerState| p.moves@)
    }

    /// Every player's team, by index.
    pub open spec fn teams(self) -> Seq<Team> {
        self.player_states@.map_values(|p: PlayerState| p.team)
    }

    /// What one call of `tick` does to the grid and the queues: the growth
    /// pass of the incremented tick counter, then one move per player.
    /// `None` marks a tick that would hit a fatal misuse.
    pub open spec fn spec_tick(self) -> Option<(Seq<Seq<Cell>>, Seq<Seq<Move>>)> {
        let g = grown_board(self.board@, self.tick_number + 1);
        step_players(g, self.queues(), self.teams(), self.player_states@.len() as int)
    }

    /// A mutable handle on one player's state, so the input layer can push
    /// new moves or clear the queue.
    pub fn player_mut(&mut self, player: usize) -> (r: &mut PlayerState)
        requires
            player < old(self).player_states@.len(),
        ensures
            *r == old(self).player_states@[player as int],
            final(self).player_states@ == old(self).player_states@.update(
                player as int,
                *final(r),
            ),
            final(self).board == old(self).board,
            final(self).tick_number == old(self).tick_number,
            final(self).num_players == old(self).num_players,
            final(self).dimens == old(self).dimens,
    {
        &mut self.player_states[player]
    }

    /// Advances the simulation one discrete step: the tick counter is
    /// incremented, every cell grows by its clock, then each player's
    /// front queued move is resolved in team order. The caller (the
    /// move-producer) owes the guarantees folded into `spec_tick() is
    /// Some`: queued moves stay on the board and their sources bear
    /// units; the unit totals must leave room for one tick of growth.
    pub fn tick(&mut self)
        requires
            old(self).board.wf(),
            old(self).tick_number < usize::MAX,
            board_units(old(self).board@) + board_area(old(self).board@) <= usize::MAX,
            old(self).spec_tick() is Some,
        ensures
            final(self).tick_number == old(self).tick_number + 1,
            final(self).num_players == old(self).num_players,
            final(self).dimens == old(self).dimens,
            final(self).board.wf(),
            final(self).board@ == old(self).spec_tick()->Some_0.0,
            final(self).player_states@.len() == old(self).player_states@.len(),
            forall|k: int|
                0 <= k < old(self).player_states@.len() ==> {
                    &&& (#[trigger] final(self).player_states@[k]).team == old(
                        self,
                    ).player_states@[k].team
                    &&& final(self).player_states@[k].dead == old(self).player_states@[k].dead
                    &&& final(self).player_states@[k].moves@ == old(
                        self,
                    ).spec_tick()->Some_0.1[k]
                },
            board_units(final(self).board@) <= board_units(old(self).board@) + board_area(
                old(self).board@,
            ),
    {
        let ghost b0 = self.board@;
        let ghost qs0 = self.queues();
        let ghost teams0 = self.teams();
        let ghost dead0 = self.player_states@.map_values(|p: PlayerState| p.dead);
        self.tick_number = self.tick_number + 1;
        grow(&mut self.board, self.tick_number);
        let ghost g = self.board@;
        proof {
            assert forall|yy: int, xx: int|
                0 <= yy < b0.len() && 0 <= xx < b0[yy].len() implies (#[trigger] g[yy][xx]).count()
                <= b0[yy][xx].count() + 1 by {
                lemma_board_units_bound(b0, xx, yy);
                lemma_board_area_row(b0, yy);
            }
            lemma_board_units_pointwise(b0, g);
        }
        let ghost u_max = board_units(g);
        let n = self.player_states.len();
        let mut i: usize = 0;
        while i < n
            invariant
                i <= n,
                self.tick_number == old(self).tick_number + 1,
                self.num_players == old(self).num_players,
                self.dimens == old(self).dimens,
                n == qs0.len(),
                n == teams0.len(),
                n == dead0.len(),
                self.player_states@.len() == n,
                u_max == board_units(g),
                u_max <= usize::MAX,
                g.len() <= i32::MAX,
                forall|k: int| 0 <= k < g.len() ==> (#[trigger] g[k]).len() <= i32::MAX,
                step_players(g, qs0, teams0, n as int) is Some,
                step_players(g, qs0, teams0, i as int) is Some,
                self.board@ == step_players(g, qs0, teams0, i as int)->Some_0.0,
                board_units(self.board@) <= u_max,
                self.board@.len() == g.len(),
                forall|k: int|
                    0 <= k < g.len() ==> (#[trigger] self.board@[k]).len() == g[k].len(),
                forall|k: int|
                    0 <= k < n ==> (#[trigger] self.player_states@[k]).team == teams0[k],
                forall|k: int|
                    0 <= k < n ==> (#[trigger] self.player_states@[k]).dead == dead0[k],
                forall|k: int|
                    0 <= k < i ==> (#[trigger] self.player_states@[k]).moves@ == step_players(
                        g,
                        qs0,
                        teams0,
                        i as int,
                    )->Some_0.1[k],
                forall|k: int|
                    i <= k < n ==> (#[trigger] self.player_states@[k]).moves@ == qs0[k],
            decreases n - i,
        {
            proof {
                lemma_step_players_prefix_some(g, qs0, teams0, i as int + 1, n as int);
                lemma_step_players_untouched(g, qs0, teams0, i as int, i as int);
            }
            let ghost board_pre = self.board@;
            let ghost sp = step_player(board_pre, qs0[i as int], teams0[i as int]);
            proof {
                assert(sp is Some);
                assert(step_players(g, qs0, teams0, i as int + 1)->Some_0.0 == sp->Some_0.0);
                assert(step_players(g, qs0, teams0, i as int + 1)->Some_0.1 == step_players(
                    g,
                    qs0,
                    teams0,
                    i as int,
                )->Some_0.1.update(i as int, sp->Some_0.1));
            }
            let team = self.player_states[i].team;
            let popped = self.player_states[i].pop_move();
            match popped {
                None => {},
                Some(mv) => {
                    let (from, dir) = mv;
                    let x = from.0;
                    let y = from.1;
                    proof {
                        assert(move_src_ok(board_pre, mv));
                    }
                    let to = from.step(dir);
                    let nx = to.0;
                    let ny = to.1;
                    let ghost src = board_pre[y as int][x as int];
                    let units = self.board.get_mut(x, y).take_units();
                    let ghost drained = grid_set(board_pre, x as int, y as int, src.with_count(1));
                    proof {
                        assert(self.board@ == drained);
                        lemma_board_units_set(
                            board_pre,
                            x as int,
                            y as int,
                            src.with_count(1),
                        );
                    }
                    if units == 0 {
                        self.player_states[i].clear_moves();
                    } else {
                        let target = *self.board.get(nx, ny);
                        if matches!(target, Cell::Mountain) {
                            self.player_states[i].clear_moves();
                            self.board.get_mut(x, y).give_units(units);
                            proof {
                                assert(src.with_count(1).with_count((1 + units) as usize) == src);
                                assert(self.board@ == grid_set(drained, x as int, y as int, src));
                                lemma_board_units_set(drained, x as int, y as int, src);
                            }
                        } else {
                            proof {
                                lemma_board_units_bound(drained, nx as int, ny as int);
                                assert(king_ok(target, team, units));
                            }
                            let nc = resolve_attack(target, team, units);
                            proof {
                                lemma_resolve_cell_count(target, team, units);
                            }
                            *self.board.get_mut(nx, ny) = nc;
                            proof {
                                assert(self.board@ == grid_set(drained, nx as int, ny as int, nc));
                                lemma_board_units_set(drained, nx as int, ny as int, nc);
                            }
                        }
                    }
                },
            }
            i = i + 1;
        }
        proof {
            assert(self.board@.len() == b0.len());
            assert forall|k: int| 0 <= k < b0.len() implies (#[trigger] self.board@[k]).len()
                == self.board@.len() by {}
        }
    }
}

} // verus!

