//! Laws of the growth clocks: what a cell gains over a stretch of
//! consecutive ticks, stated over the growth pass of the tick engine.

use vstd::prelude::*;
use vstd::arithmetic::div_mod::lemma_fundamental_div_mod;
use vstd::arithmetic::div_mod::lemma_mod_multiples_basic;
use vstd::arithmetic::div_mod::lemma_mod_multiples_vanish;
use vstd::arithmetic::div_mod::lemma_mod_self_0;
use vstd::arithmetic::div_mod::lemma_mod_sub_multiples_vanish;
use vstd::arithmetic::div_mod::lemma_small_mod;
use crate::cell::Cell;
use crate::cell::Team;
use crate::direction::Move;
use crate::game::GameState;
use crate::game::grown_board;
use crate::game::grown_cell;
use crate::game::step_players;

verus! {

/// The cell after `k` consecutive growth passes, the first pass belonging
/// to tick number `t0 + 1`.
pub open spec fn grown_cell_iter(c: Cell, t0: int, k: nat) -> Cell
    decreases k,
{
    if k == 0 {
        c
    } else {
        grown_cell(grown_cell_iter(c, t0, (k - 1) as nat), t0 + k)
    }
}

/// How many of the ticks `t0 + 1 ..= t0 + k` are multiples of `m`.
pub open spec fn multiples_in(t0: int, k: nat, m: int) -> nat
    decreases k,
{
    if k == 0 {
        0
    } else {
        multiples_in(t0, (k - 1) as nat, m) + (if (t0 + k) % m == 0 {
            1nat
        } else {
            0nat
        })
    }
}

/// Within the first `m` ticks after `t0` there is exactly one multiple of
/// `m`, and the count reaches it exactly at `k == m - t0 % m`.
proof fn lemma_multiples_upto(t0: int, k: nat, m: int)
    requires
        1 <= m,
        k <= m,
    ensures
        multiples_in(t0, k, m) == if k >= m - t0 % m {
            1nat
        } else {
            0nat
        },
    decreases k,
{
    if k > 0 {
        lemma_multiples_upto(t0, (k - 1) as nat, m);
        let r = t0 % m;
        lemma_fundamental_div_mod(t0, m);
        lemma_mod_multiples_vanish(t0 / m, r + k, m);
        assert(t0 + k == m * (t0 / m) + (r + k));
        assert((t0 + k) % m == (r + k) % m);
        if r + k < m {
            lemma_small_mod((r + k) as nat, m as nat);
        } else if r + k == m {
            lemma_mod_self_0(m);
        } else {
            lemma_mod_sub_multiples_vanish(r + k, m);
            assert((r + k) % m == (r + k - m) % m);
            lemma_small_mod((r + k - m) as nat, m as nat);
        }
    }
}

/// Counting multiples over `a + b` ticks splits at `a`.
proof fn lemma_multiples_split(t0: int, a: nat, b: nat, m: int)
    requires
        1 <= m,
    ensures
        multiples_in(t0, a + b, m) == multiples_in(t0, a, m) + multiples_in(t0 + a, b, m),
    decreases b,
{
    if b > 0 {
        lemma_multiples_split(t0, a, (b - 1) as nat, m);
        assert(t0 + (a + b) == (t0 + a) + b);
    }
}

/// Any stretch of `c * m` consecutive ticks holds exactly `c` multiples
/// of `m`.
proof fn lemma_multiples_blocks(t0: int, c: nat, m: int)
    requires
        1 <= m,
    ensures
        multiples_in(t0, (c * m) as nat, m) == c,
    decreases c,
{
    if c > 0 {
        assert((c - 1) * m >= 0 && (c - 1) * m + m == c * m) by (nonlinear_arith)
            requires
                c >= 1,
                1 <= m,
        ;
        let a = ((c - 1) * m) as nat;
        lemma_multiples_blocks(t0, (c - 1) as nat, m);
        lemma_multiples_split(t0, a, m as nat, m);
        lemma_multiples_upto(t0 + a, m as nat, m);
        assert(0 <= (t0 + a) % m);
        assert(multiples_in(t0 + a, m as nat, m) == 1);
        assert(multiples_in(t0, a + m as nat, m) == c);
        assert(a + m as nat == (c * m) as nat);
    } else {
        assert(c * m == 0) by (nonlinear_arith)
            requires
                c == 0,
        ;
    }
}

/// A multiple of 32 is even.
proof fn lemma_mult32_even(x: int)
    requires
        x % 32 == 0,
    ensures
        x % 2 == 0,
{
    lemma_fundamental_div_mod(x, 32);
    assert(x == 2 * (16 * (x / 32)));
    lemma_mod_multiples_basic(16 * (x / 32), 2);
}

/// A king's count after `k` growth passes: one unit per fast-clock tick.
proof fn lemma_king_iter(t: Team, n: usize, t0: int, k: nat)
    requires
        n + multiples_in(t0, k, 2) <= usize::MAX,
    ensures
        grown_cell_iter(Cell::King(t, n), t0, k) == Cell::King(
            t,
            (n + multiples_in(t0, k, 2)) as usize,
        ),
    decreases k,
{
    if k > 0 {
        lemma_king_iter(t, n, t0, (k - 1) as nat);
    }
}

/// An owned fortress's count after `k` growth passes: one unit per
/// fast-clock tick, exactly as a king.
proof fn lemma_owned_fortress_iter(t: Team, n: usize, t0: int, k: nat)
    requires
        n + multiples_in(t0, k, 2) <= usize::MAX,
    ensures
        grown_cell_iter(Cell::Fortress(Some(t), n), t0, k) == Cell::Fortress(
            Some(t),
            (n + multiples_in(t0, k, 2)) as usize,
        ),
    decreases k,
{
    if k > 0 {
        lemma_owned_fortress_iter(t, n, t0, (k - 1) as nat);
    }
}

/// A captured cell's count after `k` growth passes: one unit per
/// slow-clock tick (every such tick also satisfies the fast clock's gate).
proof fn lemma_captured_iter(t: Team, n: usize, t0: int, k: nat)
    requires
        n + multiples_in(t0, k, 32) <= usize::MAX,
    ensures
        grown_cell_iter(Cell::Captured(t, n), t0, k) == Cell::Captured(
            t,
            (n + multiples_in(t0, k, 32)) as usize,
        ),
    decreases k,
{
    if k > 0 {
        lemma_captured_iter(t, n, t0, (k - 1) as nat);
        if (t0 + k) % 32 == 0 {
            lemma_mult32_even(t0 + k);
        }
    }
}

/// Over any 32 consecutive ticks, a king cell gains exactly 16 units: the
/// fast clock fires on 16 of the 32 ticks, wherever the stretch starts.
pub proof fn lemma_king_growth_over_32(t: Team, n: usize, t0: int)
    requires
        n + 16 <= usize::MAX,
    ensures
        grown_cell_iter(Cell::King(t, n), t0, 32) == Cell::King(t, (n + 16) as usize),
{
    lemma_multiples_blocks(t0, 16, 2);
    lemma_king_iter(t, n, t0, 32);
}

/// Over any 32 consecutive ticks, an owned fortress gains exactly 16
/// units, just as a king does.
pub proof fn lemma_owned_fortress_growth_over_32(t: Team, n: usize, t0: int)
    requires
        n + 16 <= usize::MAX,
    ensures
        grown_cell_iter(Cell::Fortress(Some(t), n), t0, 32) == Cell::Fortress(
            Some(t),
            (n + 16) as usize,
        ),
{
    lemma_multiples_blocks(t0, 16, 2);
    lemma_owned_fortress_iter(t, n, t0, 32);
}

/// Over any 32 consecutive ticks, a captured cell gains exactly one unit:
/// the slow clock fires exactly once, and that tick always passes the
/// fast clock's gate too.
pub proof fn lemma_captured_growth_over_32(t: Team, n: usize, t0: int)
    requires
        n + 1 <= usize::MAX,
    ensures
        grown_cell_iter(Cell::Captured(t, n), t0, 32) == Cell::Captured(t, (n + 1) as usize),
{
    lemma_multiples_blocks(t0, 1, 32);
    lemma_captured_iter(t, n, t0, 32);
}

/// The move-resolution phase does nothing when every queue is empty.
proof fn lemma_idle_players_change_nothing(
    cells: Seq<Seq<Cell>>,
    qs: Seq<Seq<Move>>,
    teams: Seq<Team>,
    i: int,
)
    requires
        0 <= i <= qs.len(),
        forall|k: int| 0 <= k < qs.len() ==> (#[trigger] qs[k]).len() == 0,
    ensures
        step_players(cells, qs, teams, i) == Some((cells, qs)),
    decreases i,
{
    if i > 0 {
        lemma_idle_players_change_nothing(cells, qs, teams, i - 1);
        assert(qs.update(i - 1, qs[i - 1]) =~= qs);
    }
}

/// A tick taken with every move queue empty is pure growth: the grid
/// afterwards is exactly the growth pass of the new tick number, and the
/// queues stay empty.
pub proof fn lemma_idle_tick_is_growth(s: GameState)
    requires
        forall|k: int|
            0 <= k < s.player_states@.len() ==> (#[trigger] s.player_states@[k]).moves@.len()
                == 0,
    ensures
        s.spec_tick() == Some((grown_board(s.board@, s.tick_number + 1), s.queues())),
{
    let qs = s.queues();
    assert(forall|k: int| 0 <= k < qs.len() ==> (#[trigger] qs[k]).len() == 0);
    lemma_idle_players_change_nothing(
        grown_board(s.board@, s.tick_number + 1),
        qs,
        s.teams(),
        qs.len() as int,
    );
}

/// The grid after `k` consecutive growth passes, the first belonging to
/// tick `t0 + 1`: what `k` consecutive ticks do to the grid when every
/// queue is empty (`lemma_idle_tick_is_growth` reduces each such tick to
/// one growth pass).
pub open spec fn grown_board_iter(cells: Seq<Seq<Cell>>, t0: int, k: nat) -> Seq<Seq<Cell>>
    decreases k,
{
    if k == 0 {
        cells
    } else {
        grown_board(grown_board_iter(cells, t0, (k - 1) as nat), t0 + k)
    }
}

/// Iterated board growth keeps the grid's shape and acts on each cell as
/// iterated cell growth.
pub proof fn lemma_grown_board_iter_cellwise(cells: Seq<Seq<Cell>>, t0: int, k: nat)
    ensures
        grown_board_iter(cells, t0, k).len() == cells.len(),
        forall|y: int|
            0 <= y < cells.len() ==> (#[trigger] grown_board_iter(cells, t0, k)[y]).len()
                == cells[y].len(),
        forall|y: int, x: int|
            0 <= y < cells.len() && 0 <= x < cells[y].len() ==> (#[trigger] grown_board_iter(
                cells,
                t0,
                k,
            )[y][x]) == grown_cell_iter(cells[y][x], t0, k),
    decreases k,
{
    if k > 0 {
        lemma_grown_board_iter_cellwise(cells, t0, (k - 1) as nat);
    }
}

/// What 32 consecutive idle ticks starting after tick `t0` do to one
/// cell: a king or an owned fortress gains exactly 16 units, a captured
/// cell exactly one, and every other cell stands unchanged.
pub proof fn lemma_idle_32_ticks_cell(cells: Seq<Seq<Cell>>, t0: int, y: int, x: int)
    requires
        0 <= y < cells.len(),
        0 <= x < cells[y].len(),
        (match cells[y][x] {
            Cell::King(_, n) => n + 16 <= usize::MAX,
            Cell::Fortress(Some(_), n) => n + 16 <= usize::MAX,
            Cell::Captured(_, n) => n + 1 <= usize::MAX,
            _ => true,
        }),
    ensures
        grown_board_iter(cells, t0, 32)[y][x] == (match cells[y][x] {
            Cell::King(t, n) => Cell::King(t, (n + 16) as usize),
            Cell::Fortress(Some(t), n) => Cell::Fortress(Some(t), (n + 16) as usize),
            Cell::Captured(t, n) => Cell::Captured(t, (n + 1) as usize),
            c => c,
        }),
{
    lemma_grown_board_iter_cellwise(cells, t0, 32);
    match cells[y][x] {
        Cell::King(t, n) => lemma_king_growth_over_32(t, n, t0),
        Cell::Fortress(Some(t), n) => lemma_owned_fortress_growth_over_32(t, n, t0),
        Cell::Captured(t, n) => lemma_captured_growth_over_32(t, n, t0),
        c => lemma_no_growth(c, t0, 32),
    }
}

/// Mountains, open ground and unowned fortresses never grow.
pub proof fn lemma_no_growth(c: Cell, t0: int, k: nat)
    requires
        c == Cell::Mountain || c == Cell::Open || c matches Cell::Fortress(None, _),
    ensures
        grown_cell_iter(c, t0, k) == c,
    decreases k,
{
    if k > 0 {
        lemma_no_growth(c, t0, (k - 1) as nat);
    }
}

} // verus!
