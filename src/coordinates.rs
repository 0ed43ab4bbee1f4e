use vstd::prelude::*;

verus! {

/// A position on a square grid: `x` is the column, `y` the row, both
/// zero-based. Nothing bounds a position; a board decides which ones it holds.
#[derive(Clone, Copy, Debug, PartialEq, Eq, Structural, PartialOrd, Ord, Hash)]
pub struct Coordinates {
    /// zero-based row number
    pub y: i16,
    /// zero-based column number
    pub x: i16,
}

/// Component-wise sum of two positions, exact over the integers.
pub open spec fn coordinate_sum(a: Coordinates, b: Coordinates) -> Coordinates {
    Coordinates { x: (a.x + b.x) as i16, y: (a.y + b.y) as i16 }
}

/// The sum of two positions fits in `i16` in both components.
pub open spec fn sum_fits(a: Coordinates, b: Coordinates) -> bool {
    i16::MIN <= a.x + b.x <= i16::MAX && i16::MIN <= a.y + b.y <= i16::MAX
}

/// The sum of the columns of the first `k` positions of `items`.
pub open spec fn sum_x(items: Seq<Coordinates>, k: int) -> int
    decreases k,
{
    if k <= 0 {
        0
    } else {
        sum_x(items, k - 1) + items[k - 1].x
    }
}

/// The sum of the rows of the first `k` positions of `items`.
pub open spec fn sum_y(items: Seq<Coordinates>, k: int) -> int
    decreases k,
{
    if k <= 0 {
        0
    } else {
        sum_y(items, k - 1) + items[k - 1].y
    }
}

/// Every running sum of `items` fits in `i16`.
pub open spec fn running_sums_fit(items: Seq<Coordinates>) -> bool {
    forall|k: int|
        0 <= k <= items.len() ==> i16::MIN <= #[trigger] sum_x(items, k) <= i16::MAX && i16::MIN
            <= sum_y(items, k) <= i16::MAX
}

impl Coordinates {
    pub fn zero() -> (r: Coordinates)
        ensures
            r.x == 0 && r.y == 0,
    {
        Coordinates { x: 0, y: 0 }
    }

    pub fn new(x: i16, y: i16) -> (r: Coordinates)
        ensures
            r.x == x && r.y == y,
    {
        Coordinates { x, y }
    }

    pub fn new_with_column_first(y: i16, x: i16) -> (r: Coordinates)
        ensures
            r.x == x && r.y == y,
    {
        Coordinates { x, y }
    }

    /// The component-wise sum of `items`; the origin when there are none.
    pub fn sum(items: &[Coordinates]) -> (r: Coordinates)
        requires
            running_sums_fit(items@),
        ensures
            r.x == sum_x(items@, items@.len() as int),
            r.y == sum_y(items@, items@.len() as int),
    {
        let mut total = Coordinates::zero();
        let mut i: usize = 0;
        while i < items.len()
            invariant
                running_sums_fit(items@),
                i <= items@.len(),
                total.x == sum_x(items@, i as int),
                total.y == sum_y(items@, i as int),
            decreases items@.len() - i,
        {
            proof {
                assert(i16::MIN <= sum_x(items@, i + 1) <= i16::MAX);
            }
            total = total + items[i];
            i += 1;
        }
        total
    }

    /// The position one step from `self` towards `d`.
    pub open spec fn step(self, d: Direction) -> Coordinates {
        coordinate_sum(self, d.delta())
    }

    /// A step in any direction from `self` stays inside `i16`.
    pub open spec fn can_step(self) -> bool {
        i16::MIN < self.x < i16::MAX && i16::MIN < self.y < i16::MAX
    }
}

impl Default for Coordinates {
    fn default() -> (r: Coordinates)
        ensures
            r.x == 0 && r.y == 0,
    {
        Coordinates::zero()
    }
}

impl core::ops::Add for Coordinates {
    type Output = Coordinates;

    fn add(self, rhs: Coordinates) -> (r: Coordinates) {
        Coordinates { x: self.x + rhs.x, y: self.y + rhs.y }
    }
}

impl vstd::std_specs::ops::AddSpecImpl for Coordinates {
    open spec fn obeys_add_spec() -> bool {
        true
    }

    open spec fn add_req(self, rhs: Coordinates) -> bool {
        sum_fits(self, rhs)
    }

    open spec fn add_spec(self, rhs: Coordinates) -> Coordinates {
        coordinate_sum(self, rhs)
    }
}

/// One of the eight compass directions of a square grid.
#[derive(Clone, Copy, Debug, PartialEq, Eq, Structural, Hash)]
pub enum Direction {
    North,
    South,
    East,
    West,
    NorthEast,
    NorthWest,
    SouthEast,
    SouthWest,
}

impl Direction {
    /// The place of the direction in the canonical order
    /// North, South, East, West, NorthEast, NorthWest, SouthEast, SouthWest.
    pub open spec fn rank(self) -> int {
        match self {
            Direction::North => 0,
            Direction::South => 1,
            Direction::East => 2,
            Direction::West => 3,
            Direction::NorthEast => 4,
            Direction::NorthWest => 5,
            Direction::SouthEast => 6,
            Direction::SouthWest => 7,
        }
    }

    /// The single bit that stands for the direction in a `DirectionSet`.
    pub open spec fn flag(self) -> u8 {
        match self {
            Direction::North => 1,
            Direction::South => 2,
            Direction::East => 4,
            Direction::West => 8,
            Direction::NorthEast => 16,
            Direction::NorthWest => 32,
            Direction::SouthEast => 64,
            Direction::SouthWest => 128,
        }
    }

    /// The unit step of the direction. NorthEast and SouthEast share the
    /// step (1, 1), and SouthWest is (1, -1); the corner positions of every
    /// piece depend on these values, so they are kept exactly as they are.
    pub open spec fn delta(self) -> Coordinates {
        match self {
            Direction::North => Coordinates { x: 0, y: -1i16 },
            Direction::South => Coordinates { x: 0, y: 1 },
            Direction::East => Coordinates { x: 1, y: 0 },
            Direction::West => Coordinates { x: -1i16, y: 0 },
            Direction::NorthEast => Coordinates { x: 1, y: 1 },
            Direction::NorthWest => Coordinates { x: -1i16, y: -1i16 },
            Direction::SouthEast => Coordinates { x: 1, y: 1 },
            Direction::SouthWest => Coordinates { x: 1, y: -1i16 },
        }
    }

    /// The orthogonal directions a direction is made of: two for a diagonal,
    /// the direction itself otherwise.
    pub open spec fn component_set(self) -> Set<Direction> {
        match self {
            Direction::NorthEast => set![Direction::North, Direction::East],
            Direction::NorthWest => set![Direction::North, Direction::West],
            Direction::SouthEast => set![Direction::South, Direction::East],
            Direction::SouthWest => set![Direction::South, Direction::West],
            _ => set![self],
        }
    }

    /// All eight directions, in the canonical order.
    pub fn all_as_array() -> (r: [Direction; 8])
        ensures
            forall|i: int| 0 <= i < 8 ==> (#[trigger] r[i]).rank() == i,
    {
        [
            Direction::North,
            Direction::South,
            Direction::East,
            Direction::West,
            Direction::NorthEast,
            Direction::NorthWest,
            Direction::SouthEast,
            Direction::SouthWest,
        ]
    }

    /// The diagonal directions in the canonical order: NorthEast, NorthWest,
    /// SouthEast, SouthWest.
    pub open spec fn diagonal_at(i: int) -> Direction {
        if i == 0 {
            Direction::NorthEast
        } else if i == 1 {
            Direction::NorthWest
        } else if i == 2 {
            Direction::SouthEast
        } else {
            Direction::SouthWest
        }
    }

    /// The four diagonal directions, in the canonical order.
    pub fn diagonals() -> (r: [Direction; 4])
        ensures
            forall|i: int| 0 <= i < 4 ==> #[trigger] r[i] == Direction::diagonal_at(i),
    {
        [Direction::NorthEast, Direction::NorthWest, Direction::SouthEast, Direction::SouthWest]
    }

    pub fn as_coordinates(&self) -> (r: Coordinates)
        ensures
            r == self.delta(),
    {
        match self {
            Direction::North => Coordinates::new(0, -1),
            Direction::South => Coordinates::new(0, 1),
            Direction::East => Coordinates::new(1, 0),
            Direction::West => Coordinates::new(-1, 0),
            Direction::NorthEast => Coordinates::new(1, 1),
            Direction::NorthWest => Coordinates::new(-1, -1),
            Direction::SouthEast => Coordinates::new(1, 1),
            Direction::SouthWest => Coordinates::new(1, -1),
        }
    }

    /// The bit of the direction.
    pub fn bits(&self) -> (r: u8)
        ensures
            r == self.flag(),
    {
        match self {
            Direction::North => 1,
            Direction::South => 2,
            Direction::East => 4,
            Direction::West => 8,
            Direction::NorthEast => 16,
            Direction::NorthWest => 32,
            Direction::SouthEast => 64,
            Direction::SouthWest => 128,
        }
    }

    /// If this is a diagonal direction, split it into its two orthogonal
    /// components; otherwise return the set holding the direction alone.
    pub fn components(&self) -> (r: DirectionSet)
        ensures
            r@ == self.component_set(),
    {
        match self {
            Direction::NorthEast => DirectionSet::single(Direction::North).union(
                DirectionSet::single(Direction::East),
            ),
            Direction::NorthWest => DirectionSet::single(Direction::North).union(
                DirectionSet::single(Direction::West),
            ),
            Direction::SouthEast => DirectionSet::single(Direction::South).union(
                DirectionSet::single(Direction::East),
            ),
            Direction::SouthWest => DirectionSet::single(Direction::South).union(
                DirectionSet::single(Direction::West),
            ),
            _ => DirectionSet::single(*self),
        }
    }
}

/// The directions whose bits are set in `bits`.
pub open spec fn directions_of(bits: u8) -> Set<Direction> {
    Set::new(|d: Direction| bits & d.flag() != 0)
}

proof fn lemma_flag_or(a: u8, b: u8, f: u8)
    requires
        f == 1 || f == 2 || f == 4 || f == 8 || f == 16 || f == 32 || f == 64 || f == 128,
    ensures
        ((a | b) & f != 0) == (a & f != 0 || b & f != 0),
        ((a & b) & f != 0) == (a & f != 0 && b & f != 0),
{
    assert(((a | b) & f != 0) == (a & f != 0 || b & f != 0)) by (bit_vector)
        requires
            f == 1 || f == 2 || f == 4 || f == 8 || f == 16 || f == 32 || f == 64 || f == 128,
    ;
    assert(((a & b) & f != 0) == (a & f != 0 && b & f != 0)) by (bit_vector)
        requires
            f == 1 || f == 2 || f == 4 || f == 8 || f == 16 || f == 32 || f == 64 || f == 128,
    ;
}

/// Two distinct flags share no bit.
proof fn lemma_flags_disjoint(f: u8, g: u8)
    requires
        f == 1 || f == 2 || f == 4 || f == 8 || f == 16 || f == 32 || f == 64 || f == 128,
        g == 1 || g == 2 || g == 4 || g == 8 || g == 16 || g == 32 || g == 64 || g == 128,
    ensures
        (f & g != 0) == (f == g),
{
    assert((f & g != 0) == (f == g)) by (bit_vector)
        requires
            f == 1 || f == 2 || f == 4 || f == 8 || f == 16 || f == 32 || f == 64 || f == 128,
            g == 1 || g == 2 || g == 4 || g == 8 || g == 16 || g == 32 || g == 64 || g == 128,
    ;
}

/// Two masks that hold the same directions are the same mask.
proof fn lemma_bits_determined(a: u8, b: u8)
    requires
        directions_of(a) == directions_of(b),
    ensures
        a == b,
{
    assert(directions_of(a).contains(Direction::North) == (a & 1u8 != 0));
    assert(directions_of(b).contains(Direction::North) == (b & 1u8 != 0));
    assert(directions_of(a).contains(Direction::North) == directions_of(b).contains(Direction::North));
    assert(directions_of(a).contains(Direction::South) == (a & 2u8 != 0));
    assert(directions_of(b).contains(Direction::South) == (b & 2u8 != 0));
    assert(directions_of(a).contains(Direction::South) == directions_of(b).contains(Direction::South));
    assert(directions_of(a).contains(Direction::East) == (a & 4u8 != 0));
    assert(directions_of(b).contains(Direction::East) == (b & 4u8 != 0));
    assert(directions_of(a).contains(Direction::East) == directions_of(b).contains(Direction::East));
    assert(directions_of(a).contains(Direction::West) == (a & 8u8 != 0));
    assert(directions_of(b).contains(Direction::West) == (b & 8u8 != 0));
    assert(directions_of(a).contains(Direction::West) == directions_of(b).contains(Direction::West));
    assert(directions_of(a).contains(Direction::NorthEast) == (a & 16u8 != 0));
    assert(directions_of(b).contains(Direction::NorthEast) == (b & 16u8 != 0));
    assert(directions_of(a).contains(Direction::NorthEast) == directions_of(b).contains(
        Direction::NorthEast,
    ));
    assert(directions_of(a).contains(Direction::NorthWest) == (a & 32u8 != 0));
    assert(directions_of(b).contains(Direction::NorthWest) == (b & 32u8 != 0));
    assert(directions_of(a).contains(Direction::NorthWest) == directions_of(b).contains(
        Direction::NorthWest,
    ));
    assert(directions_of(a).contains(Direction::SouthEast) == (a & 64u8 != 0));
    assert(directions_of(b).contains(Direction::SouthEast) == (b & 64u8 != 0));
    assert(directions_of(a).contains(Direction::SouthEast) == directions_of(b).contains(
        Direction::SouthEast,
    ));
    assert(directions_of(a).contains(Direction::SouthWest) == (a & 128u8 != 0));
    assert(directions_of(b).contains(Direction::SouthWest) == (b & 128u8 != 0));
    assert(directions_of(a).contains(Direction::SouthWest) == directions_of(b).contains(
        Direction::SouthWest,
    ));
    assert(a == b) by (bit_vector)
        requires
            (a & 1 != 0) == (b & 1 != 0),
            (a & 2 != 0) == (b & 2 != 0),
            (a & 4 != 0) == (b & 4 != 0),
            (a & 8 != 0) == (b & 8 != 0),
            (a & 16 != 0) == (b & 16 != 0),
            (a & 32 != 0) == (b & 32 != 0),
            (a & 64 != 0) == (b & 64 != 0),
            (a & 128 != 0) == (b & 128 != 0),
    ;
}

/// A set of directions, one bit per direction.
#[derive(Clone, Copy, Debug, PartialEq, Eq, Structural, Hash)]
pub struct DirectionSet {
    bits: u8,
}

impl View for DirectionSet {
    type V = Set<Direction>;

    closed spec fn view(&self) -> Set<Direction> {
        directions_of(self.bits)
    }
}

impl DirectionSet {
    /// Sets with the same directions are equal values.
    pub proof fn lemma_view_determines(a: DirectionSet, b: DirectionSet)
        requires
            a@ == b@,
        ensures
            a == b,
    {
        lemma_bits_determined(a.bits, b.bits);
    }

    pub fn empty() -> (r: DirectionSet)
        ensures
            r@ == Set::<Direction>::empty(),
    {
        let r = DirectionSet { bits: 0 };
        assert(r@ =~= Set::<Direction>::empty()) by {
            assert forall|d: Direction| !r@.contains(d) by {
                let f = d.flag();
                assert(0u8 & f == 0) by (bit_vector);
            }
        }
        r
    }

    pub fn all() -> (r: DirectionSet)
        ensures
            r@ == Set::<Direction>::full(),
    {
        let r = DirectionSet { bits: 255 };
        assert(r@ =~= Set::<Direction>::full()) by {
            assert forall|d: Direction| r@.contains(d) by {
                let f = d.flag();
                assert(f == 1 || f == 2 || f == 4 || f == 8 || f == 16 || f == 32 || f == 64 || f
                    == 128 ==> 255u8 & f != 0) by (bit_vector);
            }
        }
        r
    }

    /// The set that holds `d` alone.
    pub fn single(d: Direction) -> (r: DirectionSet)
        ensures
            r@ == set![d],
    {
        let r = DirectionSet { bits: d.bits() };
        assert(r@ =~= set![d]) by {
            assert forall|e: Direction| r@.contains(e) == (e == d) by {
                lemma_flags_disjoint(d.flag(), e.flag());
            }
        }
        r
    }

    /// The set of the directions whose bits are set in `bits`; every bit of
    /// a `u8` stands for a direction, so nothing is dropped.
    pub fn from_bits(bits: u8) -> (r: DirectionSet)
        ensures
            r@ == directions_of(bits),
    {
        DirectionSet { bits }
    }

    pub fn bits(&self) -> (r: u8)
        ensures
            directions_of(r) == self@,
    {
        self.bits
    }

    pub fn contains(&self, d: Direction) -> (r: bool)
        ensures
            r == self@.contains(d),
    {
        self.bits & d.bits() != 0
    }

    pub fn is_empty(&self) -> (r: bool)
        ensures
            r == (self@ == Set::<Direction>::empty()),
    {
        let r = self.bits == 0;
        if !r {
            let b = self.bits;
            assert(b != 0 ==> (b & 1 != 0 || b & 2 != 0 || b & 4 != 0 || b & 8 != 0 || b & 16 != 0
                || b & 32 != 0 || b & 64 != 0 || b & 128 != 0)) by (bit_vector);
            if b & 1 != 0 {
                assert(self@.contains(Direction::North));
            } else if b & 2 != 0 {
                assert(self@.contains(Direction::South));
            } else if b & 4 != 0 {
                assert(self@.contains(Direction::East));
            } else if b & 8 != 0 {
                assert(self@.contains(Direction::West));
            } else if b & 16 != 0 {
                assert(self@.contains(Direction::NorthEast));
            } else if b & 32 != 0 {
                assert(self@.contains(Direction::NorthWest));
            } else if b & 64 != 0 {
                assert(self@.contains(Direction::SouthEast));
            } else {
                assert(self@.contains(Direction::SouthWest));
            }
        } else {
            assert(self@ =~= Set::<Direction>::empty()) by {
                assert forall|d: Direction| !self@.contains(d) by {
                    let f = d.flag();
                    assert(0u8 & f == 0) by (bit_vector);
                }
            }
        }
        r
    }

    pub fn union(self, other: DirectionSet) -> (r: DirectionSet)
        ensures
            r@ == self@.union(other@),
    {
        let r = DirectionSet { bits: self.bits | other.bits };
        assert(r@ =~= self@.union(other@)) by {
            assert forall|d: Direction| r@.contains(d) == (self@.contains(d) || other@.contains(d)) by {
                lemma_flag_or(self.bits, other.bits, d.flag());
            }
        }
        r
    }

    pub fn intersection(self, other: DirectionSet) -> (r: DirectionSet)
        ensures
            r@ == self@.intersect(other@),
    {
        let r = DirectionSet { bits: self.bits & other.bits };
        assert(r@ =~= self@.intersect(other@)) by {
            assert forall|d: Direction| r@.contains(d) == (self@.contains(d) && other@.contains(d)) by {
                lemma_flag_or(self.bits, other.bits, d.flag());
            }
        }
        r
    }

    /// Adds `d` to the set.
    pub fn insert(&mut self, d: Direction)
        ensures
            final(self)@ == old(self)@.insert(d),
    {
        *self = self.union(DirectionSet::single(d));
        assert(old(self)@.union(set![d]) =~= old(self)@.insert(d));
    }
}

} // verus!
