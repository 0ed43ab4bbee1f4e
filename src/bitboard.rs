use vstd::prelude::*;
use crate::bitarray::BitArray;
use crate::coordinates::{Coordinates, Direction, DirectionSet};
use crate::geometry::BoardGeometry;

verus! {

/// A 2D array of booleans packed into the bits of `BitsT`: the cell at
/// column `x` and row `y` is bit `width * y + x`.
pub struct BitBoard<GeomT: BoardGeometry, BitsT: BitArray> {
    data: BitsT,
    geometry: GeomT,
}

impl<GeomT: BoardGeometry, BitsT: BitArray> BitBoard<GeomT, BitsT> {
    /// The bits of the board.
    pub closed spec fn spec_data(&self) -> BitsT {
        self.data
    }

    /// The size of the board.
    pub closed spec fn spec_geometry(&self) -> GeomT {
        self.geometry
    }

    pub open spec fn board_width(&self) -> int {
        self.spec_geometry().spec_width() as int
    }

    pub open spec fn board_height(&self) -> int {
        self.spec_geometry().spec_height() as int
    }

    /// The size is not negative and every cell has a bit of the store.
    pub open spec fn wf(&self) -> bool {
        &&& 0 <= self.board_width()
        &&& 0 <= self.board_height()
        &&& self.board_width() * self.board_height() <= BitsT::bit_len()
    }

    pub open spec fn in_bounds(&self, c: Coordinates) -> bool {
        0 <= c.x < self.board_width() && 0 <= c.y < self.board_height()
    }

    /// The bit that holds the cell at `c`.
    pub open spec fn index_of(&self, c: Coordinates) -> int {
        self.board_width() * c.y + c.x
    }

    /// Whether the cell at `c` is set.
    pub open spec fn cell(&self, c: Coordinates) -> bool {
        self.spec_data().has_bit(self.index_of(c))
    }

    /// The neighbour of `c` towards `d` lies on the board and is set.
    pub open spec fn neighbour_set(&self, c: Coordinates, d: Direction) -> bool {
        self.in_bounds(c.step(d)) && self.cell(c.step(d))
    }

    /// The directions of `dirs` whose neighbour of `c` lies on the board and
    /// is set.
    pub open spec fn tiles_set_around(&self, c: Coordinates, dirs: Set<Direction>) -> Set<
        Direction,
    > {
        dirs.filter(|d: Direction| self.neighbour_set(c, d))
    }

    /// The directions of `dirs` whose neighbour of `c` is set or lies off
    /// the board.
    pub open spec fn tiles_set_or_outside(&self, c: Coordinates, dirs: Set<Direction>) -> Set<
        Direction,
    > {
        dirs.filter(|d: Direction| !self.in_bounds(c.step(d)) || self.cell(c.step(d)))
    }

    /// The cells of a board of width `w` map to bits one to one.
    proof fn lemma_index_in_range(&self, c: Coordinates)
        requires
            self.wf(),
            self.in_bounds(c),
        ensures
            0 <= self.index_of(c) < self.board_width() * self.board_height(),
            self.index_of(c) < BitsT::bit_len(),
    {
        let w = self.board_width();
        let h = self.board_height();
        let x = c.x as int;
        let y = c.y as int;
        assert(0 <= w * y + x < w * h) by (nonlinear_arith)
            requires
                0 <= x < w,
                0 <= y < h,
        ;
    }

    pub fn new_with_data(geometry: GeomT, data: BitsT) -> (r: Self)
        ensures
            r.spec_data() == data,
            r.spec_geometry() == geometry,
    {
        Self { data, geometry }
    }

    /// A board of the given size with every cell clear.
    pub fn new(geometry: GeomT) -> (r: Self)
        requires
            0 <= geometry.spec_width(),
            0 <= geometry.spec_height(),
            geometry.spec_width() * geometry.spec_height() <= BitsT::bit_len(),
        ensures
            r.spec_geometry() == geometry,
            r.wf(),
            forall|i: int| !r.spec_data().has_bit(i),
    {
        let w = geometry.width();
        let h = geometry.height();
        assert(0 <= (w as int) * (h as int) <= 32767 * 32767) by (nonlinear_arith)
            requires
                0 <= w <= 32767,
                0 <= h <= 32767,
        ;
        Self { data: BitsT::new_zero(w as usize * h as usize), geometry }
    }

    pub fn is_coordinate_in_bounds(&self, coord: Coordinates) -> (r: bool)
        ensures
            r == self.in_bounds(coord),
    {
        coord.y >= 0 && coord.x >= 0 && coord.x < self.geometry().width() && coord.y
            < self.geometry().height()
    }

    /// The bit that holds the cell at `coord`, which must lie on the board.
    pub fn coordinate_to_index(&self, coord: Coordinates) -> (r: usize)
        requires
            self.in_bounds(coord),
        ensures
            r == self.index_of(coord),
    {
        let w = self.geometry().width();
        assert(0 <= (w as int) * (coord.y as int) <= 32767 * 32767) by (nonlinear_arith)
            requires
                0 <= w <= 32767,
                0 <= coord.y <= 32767,
        ;
        w as usize * coord.y as usize + coord.x as usize
    }

    /// The bits where the board is stored.
    pub fn data(&self) -> (r: &BitsT)
        ensures
            *r == self.spec_data(),
    {
        &self.data
    }

    /// The board's size.
    pub fn geometry(&self) -> (r: &GeomT)
        ensures
            *r == self.spec_geometry(),
    {
        &self.geometry
    }

    pub fn get(&self, coord: Coordinates) -> (r: bool)
        requires
            self.wf(),
            self.in_bounds(coord),
        ensures
            r == self.cell(coord),
    {
        proof {
            self.lemma_index_in_range(coord);
        }
        self.data().bit_get(self.coordinate_to_index(coord))
    }

    /// Sets the cell at `coord` to `value`; every other cell keeps its value.
    pub fn set(&mut self, coord: Coordinates, value: bool)
        requires
            old(self).wf(),
            old(self).in_bounds(coord),
        ensures
            final(self).spec_geometry() == old(self).spec_geometry(),
            final(self).wf(),
            final(self).cell(coord) == value,
            forall|c: Coordinates|
                old(self).in_bounds(c) && c != coord ==> #[trigger] final(self).cell(c) == old(
                    self,
                ).cell(c),
    {
        proof {
            self.lemma_index_in_range(coord);
        }
        let index = self.coordinate_to_index(coord);
        self.data.bit_set(index, value);
        assert forall|c: Coordinates| old(self).in_bounds(c) && c != coord implies #[trigger] self.cell(
            c,
        ) == old(self).cell(c) by {
            if self.index_of(c) == self.index_of(coord) {
                lemma_index_injective(self.board_width(), c, coord);
            }
        }
    }

    /// The directions of `dirs` whose neighbour of `coord` lies on the board
    /// and is set.
    pub fn are_adjacent_tiles_set(&self, coord: Coordinates, dirs: DirectionSet) -> (r:
        DirectionSet)
        requires
            self.wf(),
            coord.can_step(),
        ensures
            r@ == self.tiles_set_around(coord, dirs@),
    {
        let mut result = DirectionSet::empty();
        let all_dirs = Direction::all_as_array();
        let mut i: usize = 0;
        while i < 8
            invariant
                self.wf(),
                coord.can_step(),
                i <= 8,
                forall|k: int| 0 <= k < 8 ==> (#[trigger] all_dirs[k]).rank() == k,
                forall|d: Direction|
                    #[trigger] result@.contains(d) == (d.rank() < i && dirs@.contains(d)
                        && self.neighbour_set(coord, d)),
            decreases 8 - i,
        {
            let d = all_dirs[i];
            if dirs.contains(d) {
                let test_coord = coord + d.as_coordinates();
                if self.is_coordinate_in_bounds(test_coord) && self.get(test_coord) {
                    result.insert(d);
                }
            }
            i += 1;
        }
        assert(result@ =~= self.tiles_set_around(coord, dirs@));
        result
    }

    /// The directions of `dirs` whose neighbour of `coord` is set or lies
    /// off the board.
    pub fn are_adjacent_tiles_set_or_out_of_bounds(&self, coord: Coordinates, dirs: DirectionSet) -> (r:
        DirectionSet)
        requires
            self.wf(),
            coord.can_step(),
        ensures
            r@ == self.tiles_set_or_outside(coord, dirs@),
    {
        let mut result = DirectionSet::empty();
        let all_dirs = Direction::all_as_array();
        let mut i: usize = 0;
        while i < 8
            invariant
                self.wf(),
                coord.can_step(),
                i <= 8,
                forall|k: int| 0 <= k < 8 ==> (#[trigger] all_dirs[k]).rank() == k,
                forall|d: Direction|
                    #[trigger] result@.contains(d) == (d.rank() < i && dirs@.contains(d) && (
                    !self.in_bounds(coord.step(d)) || self.cell(coord.step(d)))),
            decreases 8 - i,
        {
            let d = all_dirs[i];
            if dirs.contains(d) {
                let test_coord = coord + d.as_coordinates();
                if !self.is_coordinate_in_bounds(test_coord) || self.get(test_coord) {
                    result.insert(d);
                }
            }
            i += 1;
        }
        assert(result@ =~= self.tiles_set_or_outside(coord, dirs@));
        result
    }
}

/// On a board of width `w` and height `h`, the index of the cell at `c` is
/// `w * c.y + c.x`, and two cells share an index only if they are the same
/// cell.
pub proof fn lemma_coordinate_index<GeomT: BoardGeometry, BitsT: BitArray>(
    board: BitBoard<GeomT, BitsT>,
    a: Coordinates,
    b: Coordinates,
)
    requires
        board.in_bounds(a),
        board.in_bounds(b),
    ensures
        board.index_of(a) == board.board_width() * a.y + a.x,
        (board.index_of(a) == board.index_of(b)) == (a == b),
{
    if board.index_of(a) == board.index_of(b) {
        lemma_index_injective(board.board_width(), a, b);
    }
}

/// For every direction whose neighbour lies on the board, the two adjacency
/// queries agree; for one whose neighbour lies off the board, the first
/// leaves it out and the second takes it in.
pub proof fn lemma_adjacency_queries_agree<GeomT: BoardGeometry, BitsT: BitArray>(
    board: BitBoard<GeomT, BitsT>,
    coord: Coordinates,
    dirs: Set<Direction>,
    d: Direction,
)
    requires
        dirs.contains(d),
    ensures
        board.in_bounds(coord.step(d)) ==> (board.tiles_set_around(coord, dirs).contains(d)
            == board.tiles_set_or_outside(coord, dirs).contains(d)),
        !board.in_bounds(coord.step(d)) ==> !board.tiles_set_around(coord, dirs).contains(d)
            && board.tiles_set_or_outside(coord, dirs).contains(d),
{
}

/// On a board of width `w`, two cells with the same index are the same cell.
pub proof fn lemma_index_injective(w: int, a: Coordinates, b: Coordinates)
    requires
        0 <= a.x < w,
        0 <= b.x < w,
        0 <= a.y,
        0 <= b.y,
        w * a.y + a.x == w * b.y + b.x,
    ensures
        a == b,
{
    let (x1, y1, x2, y2) = (a.x as int, a.y as int, b.x as int, b.y as int);
    assert(y1 == y2) by (nonlinear_arith)
        requires
            0 <= x1 < w,
            0 <= x2 < w,
            0 <= y1,
            0 <= y2,
            w * y1 + x1 == w * y2 + x2,
    {
        if y1 < y2 {
            assert(w * y2 >= w * (y1 + 1));
        } else if y1 > y2 {
            assert(w * y1 >= w * (y2 + 1));
        }
    }
}

} // verus!
