use excavation::coords::{Coord, Side};

const SIDES: [Side; 4] = [Side::North, Side::East, Side::South, Side::West];

#[test]
fn sides_are_listed_north_east_south_west() {
    assert_eq!(Side::North.index(), 0);
    assert_eq!(Side::East.index(), 1);
    assert_eq!(Side::South.index(), 2);
    assert_eq!(Side::West.index(), 3);
    for (i, side) in SIDES.iter().enumerate() {
        assert_eq!(Side::at(i), *side);
        assert_eq!(Side::at(side.index()), *side);
    }
}

#[test]
fn flip_gives_the_facing_side() {
    assert_eq!(Side::North.flip(), Side::South);
    assert_eq!(Side::East.flip(), Side::West);
    assert_eq!(Side::South.flip(), Side::North);
    assert_eq!(Side::West.flip(), Side::East);
    for side in SIDES {
        assert_ne!(side.flip(), side);
        assert_eq!(side.flip().flip(), side);
    }
}

#[test]
fn delta_points_away_from_the_cell() {
    assert_eq!(Side::North.delta(), (0, -1));
    assert_eq!(Side::East.delta(), (1, 0));
    assert_eq!(Side::South.delta(), (0, 1));
    assert_eq!(Side::West.delta(), (-1, 0));
    for side in SIDES {
        let there = side.delta();
        let back = side.flip().delta();
        assert_eq!((there.0 + back.0, there.1 + back.1), (0, 0));
    }
}

#[test]
fn step_moves_one_cell() {
    let c = Coord::new(3, 7);
    assert_eq!(c.step(Side::North), Some(Coord::new(3, 6)));
    assert_eq!(c.step(Side::East), Some(Coord::new(4, 7)));
    assert_eq!(c.step(Side::South), Some(Coord::new(3, 8)));
    assert_eq!(c.step(Side::West), Some(Coord::new(2, 7)));
}

#[test]
fn step_off_the_edge_gives_nothing() {
    assert_eq!(Coord::new(0, i32::MIN).step(Side::North), None);
    assert_eq!(Coord::new(i32::MAX, 0).step(Side::East), None);
    assert_eq!(Coord::new(0, i32::MAX).step(Side::South), None);
    assert_eq!(Coord::new(i32::MIN, 0).step(Side::West), None);
    assert_eq!(Coord::new(i32::MAX, i32::MAX).step(Side::North), Some(Coord::new(i32::MAX, i32::MAX - 1)));
}

#[test]
fn offset_adds_both_parts() {
    assert_eq!(Coord::new(1, 2).offset(10, -20), Some(Coord::new(11, -18)));
    assert_eq!(Coord::new(i32::MAX, 0).offset(1, 0), None);
    assert_eq!(Coord::new(0, i32::MIN).offset(0, -1), None);
    assert_eq!(Coord::new(i32::MIN, i32::MIN).offset(0, 0), Some(Coord::new(i32::MIN, i32::MIN)));
}

#[test]
fn sunk_moves_down_by_rows() {
    assert_eq!(Coord::new(4, 2).sunk(0), Some(Coord::new(4, 2)));
    assert_eq!(Coord::new(4, 2).sunk(5), Some(Coord::new(4, 7)));
    assert_eq!(Coord::new(4, i32::MIN).sunk(u32::MAX as u64), Some(Coord::new(4, i32::MAX)));
    assert_eq!(Coord::new(4, i32::MIN).sunk(u32::MAX as u64 + 1), None);
    assert_eq!(Coord::new(4, i32::MAX).sunk(1), None);
    assert_eq!(Coord::new(4, 0).sunk(u64::MAX), None);
}

#[test]
fn keys_and_cells_correspond() {
    let corners = [i32::MIN, -5, -1, 0, 1, 5, i32::MAX];
    let mut seen = Vec::new();
    for x in corners {
        for y in corners {
            let c = Coord::new(x, y);
            let k = c.key();
            assert_eq!(Coord::from_key(k), c);
            assert!(!seen.contains(&k));
            seen.push(k);
        }
    }
    assert_eq!(Coord::new(i32::MIN, i32::MIN).key(), 0);
    assert_eq!(Coord::new(i32::MAX, i32::MAX).key(), u64::MAX);
    assert_eq!(Coord::new(0, 0).key(), (1u64 << 63) + (1u64 << 31));
    assert_eq!(Coord::from_key(0), Coord::new(i32::MIN, i32::MIN));
    assert_eq!(Coord::from_key(u64::MAX), Coord::new(i32::MAX, i32::MAX));
}
