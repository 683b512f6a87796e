//! Combat resolution: determinism and the outcome table.

use generals::Cell;
use generals::resolve_attack;

#[test]
fn same_inputs_resolve_identically() {
    let cases = [
        (Cell::Open, 1, 10),
        (Cell::Captured(0, 8), 1, 10),
        (Cell::Captured(0, 8), 1, 5),
        (Cell::King(0, 3), 1, 10),
        (Cell::Fortress(None, 44), 1, 50),
        (Cell::Fortress(Some(0), 44), 1, 3),
    ];
    for (target, team, units) in cases {
        let first = resolve_attack(target, team, units);
        let second = resolve_attack(target, team, units);
        assert_eq!(first, second);
    }
}

#[test]
fn open_ground_is_captured_outright() {
    assert_eq!(resolve_attack(Cell::Open, 1, 10), Cell::Captured(1, 10));
    assert_eq!(resolve_attack(Cell::Open, 0, 1), Cell::Captured(0, 1));
}

#[test]
fn own_cells_are_reinforced() {
    assert_eq!(resolve_attack(Cell::Captured(1, 8), 1, 10), Cell::Captured(1, 18));
    assert_eq!(resolve_attack(Cell::King(1, 8), 1, 2), Cell::King(1, 10));
    assert_eq!(
        resolve_attack(Cell::Fortress(Some(1), 8), 1, 2),
        Cell::Fortress(Some(1), 10)
    );
}

#[test]
fn strength_comparison_decides_contested_cells() {
    // The attacker overruns the defender.
    assert_eq!(resolve_attack(Cell::Captured(0, 8), 1, 10), Cell::Captured(1, 2));
    // The defender holds; ties favor the defender.
    assert_eq!(resolve_attack(Cell::Captured(0, 8), 1, 5), Cell::Captured(0, 3));
    assert_eq!(resolve_attack(Cell::Captured(0, 8), 1, 8), Cell::Captured(0, 0));
    // Neutral fortresses are worn down and then claimed.
    assert_eq!(resolve_attack(Cell::Fortress(None, 44), 1, 4), Cell::Fortress(None, 40));
    assert_eq!(
        resolve_attack(Cell::Fortress(None, 4), 1, 10),
        Cell::Fortress(Some(1), 6)
    );
    // An enemy fortress flips to the attacker when overrun.
    assert_eq!(
        resolve_attack(Cell::Fortress(Some(0), 4), 1, 10),
        Cell::Fortress(Some(1), 6)
    );
}

#[test]
fn a_fallen_king_becomes_an_attacker_fortress() {
    // units - (n - 1) = 10 - 2 = 8.
    assert_eq!(resolve_attack(Cell::King(0, 3), 1, 10), Cell::Fortress(Some(1), 8));
    // A holding king just loses units.
    assert_eq!(resolve_attack(Cell::King(0, 12), 1, 10), Cell::King(0, 2));
    assert_eq!(resolve_attack(Cell::King(0, 10), 1, 10), Cell::King(0, 0));
}

#[test]
fn mountains_are_unchanged_by_attacks() {
    assert_eq!(resolve_attack(Cell::Mountain, 1, 10), Cell::Mountain);
}
