//! Unit-bearing cell behavior: control, draining, reinforcing.

use generals::Cell;

#[test]
fn controlled_by_matches_ownership() {
    assert!(Cell::Captured(0, 5).is_controlled_by(0));
    assert!(!Cell::Captured(0, 5).is_controlled_by(1));
    assert!(Cell::King(1, 5).is_controlled_by(1));
    assert!(!Cell::King(1, 5).is_controlled_by(0));
    assert!(Cell::Fortress(Some(2), 5).is_controlled_by(2));
    assert!(!Cell::Fortress(Some(2), 5).is_controlled_by(0));
    assert!(!Cell::Fortress(None, 5).is_controlled_by(0));
    assert!(!Cell::Mountain.is_controlled_by(0));
    assert!(!Cell::Open.is_controlled_by(0));
}

#[test]
fn take_units_leaves_garrison_of_one() {
    let mut c = Cell::Captured(0, 10);
    let taken = c.take_units();
    assert_eq!(taken, 9);
    assert_eq!(c, Cell::Captured(0, 1));

    let mut k = Cell::King(1, 2);
    assert_eq!(k.take_units(), 1);
    assert_eq!(k, Cell::King(1, 1));

    let mut f = Cell::Fortress(Some(0), 1);
    assert_eq!(f.take_units(), 0);
    assert_eq!(f, Cell::Fortress(Some(0), 1));

    let mut nf = Cell::Fortress(None, 44);
    assert_eq!(nf.take_units(), 43);
    assert_eq!(nf, Cell::Fortress(None, 1));
}

#[test]
fn take_then_give_restores_the_cell() {
    let originals = [
        Cell::Captured(0, 10),
        Cell::King(1, 3),
        Cell::Fortress(Some(2), 7),
        Cell::Fortress(None, 42),
        Cell::Captured(5, 1),
    ];
    for original in originals {
        let mut c = original;
        let taken = c.take_units();
        c.give_units(taken);
        assert_eq!(c, original);
    }
}

#[test]
fn give_units_adds_to_the_count() {
    let mut c = Cell::Captured(0, 2);
    c.give_units(5);
    assert_eq!(c, Cell::Captured(0, 7));

    let mut f = Cell::Fortress(None, 40);
    f.give_units(0);
    assert_eq!(f, Cell::Fortress(None, 40));
}
