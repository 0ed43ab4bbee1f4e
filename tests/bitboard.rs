use blokus::{
    BitArray, BitBoard, BoardGeometry, Coordinates, Direction, DirectionSet, DynGeometry,
    StaticGeometry,
};

#[test]
fn are_adjacent_tile_set_correct_for_1x1_in_center_of_3x3() {
    let mut board = BitBoard::new_with_data(StaticGeometry::<3, 3>, 0u16);
    let set_coord = Coordinates::new_with_column_first(1, 1);
    board.set(set_coord, true);

    let east_west = DirectionSet::single(Direction::East).union(DirectionSet::single(Direction::West));
    let south_west =
        DirectionSet::single(Direction::South).union(DirectionSet::single(Direction::West));

    assert_eq!(board.are_adjacent_tiles_set(set_coord, DirectionSet::all()), DirectionSet::empty());
    assert_eq!(board.are_adjacent_tiles_set(set_coord, east_west), DirectionSet::empty());

    board.set(set_coord + Direction::East.as_coordinates(), true);

    assert_eq!(
        board.are_adjacent_tiles_set(set_coord, DirectionSet::all()),
        DirectionSet::single(Direction::East)
    );
    assert_eq!(
        board.are_adjacent_tiles_set(set_coord, east_west),
        DirectionSet::single(Direction::East)
    );
    assert_eq!(board.are_adjacent_tiles_set(set_coord, south_west), DirectionSet::empty());
}

#[test]
fn coordinate_to_index_is_row_major() {
    let board = BitBoard::new_with_data(StaticGeometry::<4, 3>, 0u16);
    assert_eq!(board.coordinate_to_index(Coordinates::new(0, 0)), 0);
    assert_eq!(board.coordinate_to_index(Coordinates::new(3, 0)), 3);
    assert_eq!(board.coordinate_to_index(Coordinates::new(0, 1)), 4);
    assert_eq!(board.coordinate_to_index(Coordinates::new(2, 2)), 10);
    let mut seen = Vec::new();
    for y in 0..3i16 {
        for x in 0..4i16 {
            let index = board.coordinate_to_index(Coordinates::new(x, y));
            assert_eq!(index, 4 * y as usize + x as usize);
            assert!(!seen.contains(&index));
            seen.push(index);
        }
    }
}

#[test]
fn bounds_are_checked_on_both_axes() {
    let board = BitBoard::new_with_data(DynGeometry::new(2, 3), 0u8);
    assert!(board.is_coordinate_in_bounds(Coordinates::new(1, 2)));
    assert!(!board.is_coordinate_in_bounds(Coordinates::new(2, 0)));
    assert!(!board.is_coordinate_in_bounds(Coordinates::new(0, 3)));
    assert!(!board.is_coordinate_in_bounds(Coordinates::new(-1, 0)));
    assert!(!board.is_coordinate_in_bounds(Coordinates::new(0, -1)));
}

#[test]
fn new_board_is_clear_and_set_changes_one_cell() {
    let mut board: BitBoard<_, u64> = BitBoard::new(StaticGeometry::<8, 8>);
    assert_eq!(*board.data(), 0u64);
    for y in 0..8i16 {
        for x in 0..8i16 {
            assert!(!board.get(Coordinates::new(x, y)));
        }
    }
    board.set(Coordinates::new(7, 7), true);
    board.set(Coordinates::new(1, 0), true);
    assert_eq!(*board.data(), (1u64 << 63) | 2);
    assert!(board.get(Coordinates::new(7, 7)));
    assert!(!board.get(Coordinates::new(6, 7)));
    board.set(Coordinates::new(7, 7), false);
    assert_eq!(*board.data(), 2);
    assert_eq!(board.geometry().width(), 8);
    assert_eq!(board.geometry().height(), 8);
}

#[test]
fn adjacency_variants_differ_only_off_the_board() {
    let mut board = BitBoard::new_with_data(StaticGeometry::<3, 2>, 0u8);
    board.set(Coordinates::new(1, 0), true);
    let corner = Coordinates::new(0, 0);
    let set = board.are_adjacent_tiles_set(corner, DirectionSet::all());
    let set_or_out = board.are_adjacent_tiles_set_or_out_of_bounds(corner, DirectionSet::all());
    assert_eq!(set, DirectionSet::single(Direction::East));
    // North, West, NorthWest and SouthWest (delta (1, -1)) leave the board.
    let outside = DirectionSet::single(Direction::North)
        .union(DirectionSet::single(Direction::West))
        .union(DirectionSet::single(Direction::NorthWest))
        .union(DirectionSet::single(Direction::SouthWest));
    assert_eq!(set_or_out, outside.union(DirectionSet::single(Direction::East)));
    for d in Direction::all_as_array() {
        let neighbour = corner + d.as_coordinates();
        if board.is_coordinate_in_bounds(neighbour) {
            assert_eq!(set.contains(d), set_or_out.contains(d));
        } else {
            assert!(!set.contains(d));
            assert!(set_or_out.contains(d));
        }
    }
}

#[test]
fn bit_arrays_of_every_width() {
    let mut a = u8::new_zero(8);
    a.bit_set(7, true);
    assert_eq!(a, 0x80);
    assert!(a.bit_get(7) && !a.bit_get(0));
    let mut b = u16::new_zero(16);
    b.bit_set(15, true);
    b.bit_set(0, true);
    b.bit_set(15, false);
    assert_eq!(b, 1);
    let mut c = u32::new_zero(0);
    c.bit_set(31, true);
    assert_eq!(c, 1 << 31);
    let mut d = u64::new_zero(64);
    d.bit_set(40, true);
    assert!(d.bit_get(40));
    assert_eq!(d, 1 << 40);
    let mut e = u128::new_zero(128);
    e.bit_set(127, true);
    assert!(e.bit_get(127) && !e.bit_get(126));
}

#[test]
fn geometries_report_their_size() {
    let fixed = StaticGeometry::<5, 2>;
    assert_eq!((fixed.width(), fixed.height()), (5, 2));
    let dynamic = DynGeometry::new(4, 7);
    assert_eq!((dynamic.width(), dynamic.height()), (4, 7));
}
