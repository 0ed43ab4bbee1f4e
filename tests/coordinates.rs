use blokus::{Coordinates, Direction, DirectionSet};

#[test]
fn coordinates_constructors_agree() {
    assert_eq!(Coordinates::new(3, -2), Coordinates::new_with_column_first(-2, 3));
    let c = Coordinates::new(3, -2);
    assert_eq!((c.x, c.y), (3, -2));
    assert_eq!(Coordinates::zero(), Coordinates::default());
    assert_eq!(Coordinates::zero(), Coordinates::new(0, 0));
}

#[test]
fn coordinates_add_component_wise() {
    assert_eq!(Coordinates::new(3, -2) + Coordinates::new(-1, 5), Coordinates::new(2, 3));
}

#[test]
fn direction_deltas_keep_their_values() {
    let deltas: Vec<(i16, i16)> = Direction::all_as_array()
        .iter()
        .map(|d| {
            let c = d.as_coordinates();
            (c.x, c.y)
        })
        .collect();
    assert_eq!(deltas, vec![(0, -1), (0, 1), (1, 0), (-1, 0), (1, 1), (-1, -1), (1, 1), (1, -1)]);
    // NorthEast and SouthEast share a step.
    assert_eq!(Direction::NorthEast.as_coordinates(), Direction::SouthEast.as_coordinates());
}

#[test]
fn canonical_orders() {
    assert_eq!(
        Direction::all_as_array(),
        [
            Direction::North,
            Direction::South,
            Direction::East,
            Direction::West,
            Direction::NorthEast,
            Direction::NorthWest,
            Direction::SouthEast,
            Direction::SouthWest,
        ]
    );
    assert_eq!(
        Direction::diagonals(),
        [Direction::NorthEast, Direction::NorthWest, Direction::SouthEast, Direction::SouthWest]
    );
    let bits: Vec<u8> = Direction::all_as_array().iter().map(|d| d.bits()).collect();
    assert_eq!(bits, vec![1, 2, 4, 8, 16, 32, 64, 128]);
}

#[test]
fn components_split_diagonals() {
    let set = |a: Direction, b: Direction| DirectionSet::single(a).union(DirectionSet::single(b));
    assert_eq!(Direction::NorthEast.components(), set(Direction::North, Direction::East));
    assert_eq!(Direction::NorthWest.components(), set(Direction::North, Direction::West));
    assert_eq!(Direction::SouthEast.components(), set(Direction::South, Direction::East));
    assert_eq!(Direction::SouthWest.components(), set(Direction::South, Direction::West));
    assert_eq!(Direction::West.components(), DirectionSet::single(Direction::West));
    assert_eq!(Direction::North.components(), DirectionSet::single(Direction::North));
}

#[test]
fn direction_set_operations() {
    let empty = DirectionSet::empty();
    assert!(empty.is_empty());
    assert_eq!(empty.bits(), 0);
    assert_eq!(DirectionSet::all().bits(), 0xff);
    let ne = DirectionSet::single(Direction::NorthEast);
    assert_eq!(ne.bits(), 16);
    assert!(ne.contains(Direction::NorthEast));
    assert!(!ne.contains(Direction::SouthEast));
    let both = ne.union(DirectionSet::single(Direction::South));
    assert_eq!(both.bits(), 18);
    assert_eq!(both.intersection(DirectionSet::single(Direction::South)).bits(), 2);
    assert!(both.intersection(DirectionSet::single(Direction::West)).is_empty());
    let mut grown = DirectionSet::empty();
    grown.insert(Direction::SouthWest);
    grown.insert(Direction::SouthWest);
    assert_eq!(grown, DirectionSet::from_bits(128));
}

#[test]
fn coordinates_sum_over_a_slice() {
    assert_eq!(Coordinates::sum(&[]), Coordinates::zero());
    let items = [Coordinates::new(1, 2), Coordinates::new(-4, 0), Coordinates::new(10, -7)];
    assert_eq!(Coordinates::sum(&items), Coordinates::new(7, -5));
}
