use vstd::prelude::*;
use crate::bitarray::BitArray;
use crate::bitboard::BitBoard;
use crate::coordinates::{Coordinates, Direction, DirectionSet};
use crate::geometry::{BoardGeometry, DynGeometry};

verus! {

/// A row separator of the piece text.
pub open spec fn is_separator(c: char) -> bool {
    c == '|' || c == '\n'
}

/// A cell of the piece text: `x` is filled, `.` is empty.
pub open spec fn is_cell_char(c: char) -> bool {
    c == 'x' || c == '.'
}

/// The characters a piece text may hold; a space is skipped.
pub open spec fn is_piece_char(c: char) -> bool {
    is_separator(c) || is_cell_char(c) || c == ' '
}

/// The column and row the next cell goes to once the first `k` characters
/// of the piece text `s` have been read.
pub open spec fn cursor_at(s: Seq<char>, k: int) -> (int, int)
    decreases k,
{
    if k <= 0 {
        (0, 0)
    } else {
        let (x, y) = cursor_at(s, k - 1);
        if is_separator(s[k - 1]) {
            (0, y + 1)
        } else if is_cell_char(s[k - 1]) {
            (x + 1, y)
        } else {
            (x, y)
        }
    }
}

/// The widest row among the first `k` characters of `s` that a separator
/// has closed, and at least 1.
pub open spec fn widest_closed_row(s: Seq<char>, k: int) -> int
    decreases k,
{
    if k <= 0 {
        1
    } else {
        let w = widest_closed_row(s, k - 1);
        let x = cursor_at(s, k - 1).0;
        if is_separator(s[k - 1]) && x > w {
            x
        } else {
            w
        }
    }
}

/// The number of columns of the piece the first `k` characters of `s`
/// describe: its widest row.
pub open spec fn columns_at(s: Seq<char>, k: int) -> int {
    let w = widest_closed_row(s, k);
    let x = cursor_at(s, k).0;
    if x > w {
        x
    } else {
        w
    }
}

/// The number of columns of the piece that `s` describes: its widest row.
pub open spec fn piece_columns(s: Seq<char>) -> int {
    columns_at(s, s.len() as int)
}

/// The number of rows of the piece that `s` describes: one more than the
/// separators.
pub open spec fn piece_rows(s: Seq<char>) -> int {
    cursor_at(s, s.len() as int).1 + 1
}

/// The first `k` characters of `s` are all piece characters.
pub open spec fn piece_chars_upto(s: Seq<char>, k: int) -> bool
    decreases k,
{
    k <= 0 || (piece_chars_upto(s, k - 1) && is_piece_char(s[k - 1]))
}

/// `s` describes a piece: it holds only piece characters, and the piece
/// has at most 32 cells.
pub open spec fn piece_text_valid(s: Seq<char>) -> bool {
    &&& piece_chars_upto(s, s.len() as int)
    &&& piece_columns(s) * piece_rows(s) <= 32
}

/// The first `k` characters are piece characters exactly when none of
/// them is another character.
proof fn lemma_piece_chars_upto(s: Seq<char>, k: int)
    requires
        0 <= k <= s.len(),
    ensures
        piece_chars_upto(s, k) <==> forall|i: int| 0 <= i < k ==> is_piece_char(#[trigger] s[i]),
    decreases k,
{
    if k > 0 {
        lemma_piece_chars_upto(s, k - 1);
    }
}

/// Among the first `k` characters of `s`, an `x` stands at column `x` of
/// row `y`.
pub open spec fn filled_in(s: Seq<char>, k: int, x: int, y: int) -> bool
    decreases k,
{
    if k <= 0 {
        false
    } else {
        filled_in(s, k - 1, x, y) || (s[k - 1] == 'x' && cursor_at(s, k - 1) == (x, y))
    }
}

/// The cursor after the first `k` characters of `s` lies inside the piece
/// `s` describes, which is at least one cell wide and high.
proof fn lemma_prefix_within(s: Seq<char>, k: int)
    requires
        0 <= k <= s.len(),
    ensures
        1 <= columns_at(s, k) <= piece_columns(s),
        0 <= cursor_at(s, k).0 <= piece_columns(s),
        0 <= cursor_at(s, k).1 < piece_rows(s),
    decreases s.len() - k,
{
    lemma_widest_positive(s, k);
    lemma_cursor_nonnegative(s, k);
    if k < s.len() {
        lemma_prefix_within(s, k + 1);
    }
}

proof fn lemma_widest_positive(s: Seq<char>, k: int)
    ensures
        widest_closed_row(s, k) >= 1,
    decreases k,
{
    if k > 0 {
        lemma_widest_positive(s, k - 1);
    }
}

proof fn lemma_cursor_nonnegative(s: Seq<char>, k: int)
    ensures
        cursor_at(s, k).0 >= 0,
        cursor_at(s, k).1 >= 0,
    decreases k,
{
    if k > 0 {
        lemma_cursor_nonnegative(s, k - 1);
    }
}

/// A Blokus piece: its shape is a board of at most 32 cells.
pub struct BlokusPiece {
    pub shape: BitBoard<DynGeometry, u32>,
}

/// The directions tested for a corner towards the diagonal `d`: its two
/// orthogonal components and `d` itself.
pub open spec fn corner_mask(d: Direction) -> Set<Direction> {
    d.component_set().union(set![d])
}

impl BlokusPiece {
    pub open spec fn wf(&self) -> bool {
        self.shape.wf()
    }

    /// The piece is the one that the text `s` describes: as many columns
    /// as its widest row, as many rows as it has, a set cell where it holds
    /// an `x`, and no bit set off the board.
    pub open spec fn described_by(&self, s: Seq<char>) -> bool {
        &&& self.wf()
        &&& self.width() == piece_columns(s)
        &&& self.height() == piece_rows(s)
        &&& forall|c: Coordinates|
            self.shape.in_bounds(c) ==> #[trigger] self.shape.cell(c) == filled_in(
                s,
                s.len() as int,
                c.x as int,
                c.y as int,
            )
        &&& forall|i: int|
            #[trigger] self.shape.spec_data().has_bit(i) ==> 0 <= i < self.width() * self.height()
    }

    pub open spec fn width(&self) -> int {
        self.shape.board_width()
    }

    pub open spec fn height(&self) -> int {
        self.shape.board_height()
    }

    /// The cell at `c` has a free corner towards the diagonal `d`: neither
    /// of the two orthogonal neighbours on that side nor the diagonal
    /// neighbour is a set cell of the shape.
    pub open spec fn corner_free(&self, c: Coordinates, d: Direction) -> bool {
        self.shape.tiles_set_around(c, corner_mask(d)) == Set::<Direction>::empty()
    }

    /// The corners found at `c` among its first `n` diagonals, in the
    /// canonical order; each corner is the cell diagonally next to `c`.
    pub open spec fn cell_corners(&self, c: Coordinates, n: int) -> Seq<Coordinates>
        decreases n,
    {
        if n <= 0 {
            seq![]
        } else {
            let before = self.cell_corners(c, n - 1);
            let d = Direction::diagonal_at(n - 1);
            if self.corner_free(c, d) {
                before.push(c.step(d))
            } else {
                before
            }
        }
    }

    /// The corners found in the first `n` rows of column `x`.
    pub open spec fn column_corners(&self, x: int, n: int) -> Seq<Coordinates>
        decreases n,
    {
        if n <= 0 {
            seq![]
        } else {
            self.column_corners(x, n - 1) + self.cell_corners(
                Coordinates { x: x as i16, y: (n - 1) as i16 },
                4,
            )
        }
    }

    /// The corners found in the first `n` columns.
    pub open spec fn corners_before(&self, n: int) -> Seq<Coordinates>
        decreases n,
    {
        if n <= 0 {
            seq![]
        } else {
            self.corners_before(n - 1) + self.column_corners(n - 1, self.height())
        }
    }

    /// Every corner of the shape, column by column, each column row by row,
    /// each cell in the canonical order of the diagonals.
    pub open spec fn corners(&self) -> Seq<Coordinates> {
        self.corners_before(self.width())
    }

    proof fn lemma_cell_corners_prefix(&self, c: Coordinates, n: int, m: int)
        requires
            0 <= n <= m,
        ensures
            self.cell_corners(c, n).len() <= self.cell_corners(c, m).len(),
            self.cell_corners(c, m).len() <= m,
            self.cell_corners(c, m).subrange(0, self.cell_corners(c, n).len() as int)
                == self.cell_corners(c, n),
        decreases m,
    {
        if n < m {
            self.lemma_cell_corners_prefix(c, n, m - 1);
            assert(self.cell_corners(c, m).subrange(0, self.cell_corners(c, n).len() as int)
                =~= self.cell_corners(c, n));
        } else if m > 0 {
            self.lemma_cell_corners_prefix(c, n - 1, m - 1);
            assert(self.cell_corners(c, m).subrange(0, self.cell_corners(c, n).len() as int)
                =~= self.cell_corners(c, n));
        } else {
            assert(self.cell_corners(c, m).subrange(0, self.cell_corners(c, n).len() as int)
                =~= self.cell_corners(c, n));
        }
    }

    proof fn lemma_column_corners_prefix(&self, x: int, n: int, m: int)
        requires
            0 <= n <= m,
        ensures
            self.column_corners(x, n).len() <= self.column_corners(x, m).len(),
            self.column_corners(x, m).len() <= 4 * m,
            self.column_corners(x, m).subrange(0, self.column_corners(x, n).len() as int)
                == self.column_corners(x, n),
        decreases m,
    {
        if m > 0 {
            let c = Coordinates { x: x as i16, y: (m - 1) as i16 };
            self.lemma_cell_corners_prefix(c, 4, 4);
            if n < m {
                self.lemma_column_corners_prefix(x, n, m - 1);
            } else {
                self.lemma_column_corners_prefix(x, n - 1, m - 1);
            }
        }
        assert(self.column_corners(x, m).subrange(0, self.column_corners(x, n).len() as int)
            =~= self.column_corners(x, n));
    }

    proof fn lemma_corners_before_prefix(&self, n: int, m: int)
        requires
            0 <= n <= m,
            0 <= self.height(),
        ensures
            self.corners_before(n).len() <= self.corners_before(m).len(),
            self.corners_before(m).len() <= 4 * m * self.height(),
            self.corners_before(m).subrange(0, self.corners_before(n).len() as int)
                == self.corners_before(n),
        decreases m,
    {
        if m > 0 {
            self.lemma_column_corners_prefix(m - 1, self.height(), self.height());
            if n < m {
                self.lemma_corners_before_prefix(n, m - 1);
            } else {
                self.lemma_corners_before_prefix(n - 1, m - 1);
            }
            assert(4 * (m - 1) * self.height() + 4 * self.height() == 4 * m * self.height())
                by (nonlinear_arith);
        }
        assert(self.corners_before(m).subrange(0, self.corners_before(n).len() as int)
            =~= self.corners_before(n));
    }

    /// A shape has at most four corners for each cell of its box, so at
    /// most 128.
    proof fn lemma_corner_bound(&self)
        requires
            self.wf(),
        ensures
            self.corners().len() <= 4 * self.width() * self.height(),
            self.corners().len() <= 128,
    {
        let (w, h) = (self.width(), self.height());
        self.lemma_corners_before_prefix(w, w);
        assert(4 * w * h <= 128) by (nonlinear_arith)
            requires
                w * h <= 32,
        ;
    }

    /// What has been found when the scan stands at column `x`, row `y`,
    /// diagonal `i` is a prefix of all the corners.
    proof fn lemma_scan_prefix(&self, x: int, y: int, i: int)
        requires
            self.wf(),
            0 <= x < self.width(),
            0 <= y < self.height(),
            0 <= i <= 4,
        ensures
            ({
                let found = self.corners_before(x) + self.column_corners(x, y) + self.cell_corners(
                    Coordinates { x: x as i16, y: y as i16 },
                    i,
                );
                &&& found.len() <= self.corners().len()
                &&& self.corners().subrange(0, found.len() as int) == found
            }),
    {
        let c = Coordinates { x: x as i16, y: y as i16 };
        let a = self.corners_before(x);
        let b = self.column_corners(x, y);
        let e = self.cell_corners(c, i);
        self.lemma_cell_corners_prefix(c, i, 4);
        self.lemma_column_corners_prefix(x, y + 1, self.height());
        self.lemma_corners_before_prefix(x + 1, self.width());
        let found = a + b + e;
        let col = self.column_corners(x, self.height());
        assert(self.column_corners(x, y + 1) == b + self.cell_corners(c, 4));
        assert(col.subrange(0, (b + e).len() as int) =~= b + e) by {
            assert(col.subrange(0, self.column_corners(x, y + 1).len() as int)
                == self.column_corners(x, y + 1));
            assert forall|k: int| 0 <= k < (b + e).len() implies col[k] == (b + e)[k] by {
                assert(col[k] == self.column_corners(x, y + 1)[k]);
                if k >= b.len() {
                    assert(self.cell_corners(c, 4)[k - b.len()] == e[k - b.len()]);
                }
            }
        }
        assert(self.corners_before(x + 1) == a + col);
        let all = self.corners();
        assert(all.subrange(0, found.len() as int) =~= found) by {
            assert(all.subrange(0, self.corners_before(x + 1).len() as int) == a + col);
            assert forall|k: int| 0 <= k < found.len() implies all[k] == found[k] by {
                assert(all[k] == (a + col)[k]);
                if k >= a.len() {
                    assert(col[k - a.len()] == (b + e)[k - a.len()]);
                }
            }
        }
    }

    /// The size of the piece that `s` describes, or `None` where `s` holds
    /// a character that is not a piece character or describes more than 32
    /// cells.
    fn measure(s: &str) -> (r: Option<(i16, i16)>)
        ensures
            r is Some <==> piece_text_valid(s@),
            r matches Some((columns, rows)) ==> columns == piece_columns(s@) && rows == piece_rows(
                s@,
            ),
    {
        let len = s.unicode_len();
        let mut columns: i16 = 1;
        let mut rows: i16 = 1;
        let mut current: i16 = 0;
        let mut i: usize = 0;
        while i < len
            invariant
                len == s@.len(),
                i <= len,
                piece_chars_upto(s@, i as int),
                columns == widest_closed_row(s@, i as int),
                current == cursor_at(s@, i as int).0,
                rows == cursor_at(s@, i as int).1 + 1,
                1 <= columns <= 32,
                0 <= current <= 32,
                1 <= rows <= 32,
            decreases len - i,
        {
            let c = s.get_char(i);
            proof {
                lemma_prefix_within(s@, i + 1);
            }
            if c == '|' || c == '\n' {
                if current > columns {
                    columns = current;
                }
                current = 0;
                if rows >= 32 {
                    proof {
                        let (cols, rs) = (piece_columns(s@), piece_rows(s@));
                        assert(cols * rs > 32) by (nonlinear_arith)
                            requires
                                cols >= 1,
                                rs >= 33,
                        ;
                    }
                    return None;
                }
                rows += 1;
            } else if c == 'x' || c == '.' {
                if current >= 32 {
                    proof {
                        let (cols, rs) = (piece_columns(s@), piece_rows(s@));
                        assert(cols * rs > 32) by (nonlinear_arith)
                            requires
                                cols >= 33,
                                rs >= 1,
                        ;
                    }
                    return None;
                }
                current += 1;
            } else if c != ' ' {
                proof {
                    lemma_piece_chars_upto(s@, s@.len() as int);
                }
                return None;
            }
            i += 1;
        }
        if current > columns {
            columns = current;
        }
        assert(0 <= columns * rows <= 1024) by (nonlinear_arith)
            requires
                1 <= columns <= 32,
                1 <= rows <= 32,
        ;
        if columns * rows > 32 {
            return None;
        }
        Some((columns, rows))
    }

    /// The piece that `s` describes, given its size.
    fn fill(s: &str, columns: i16, rows: i16) -> (r: BlokusPiece)
        requires
            piece_text_valid(s@),
            columns == piece_columns(s@),
            rows == piece_rows(s@),
        ensures
            r.described_by(s@),
    {
        proof {
            lemma_prefix_within(s@, 0);
        }
        let len = s.unicode_len();
        let mut board_data: u32 = u32::new_zero(32);
        let mut x: i16 = 0;
        let mut y: i16 = 0;
        let mut i: usize = 0;
        while i < len
            invariant
                len == s@.len(),
                i <= len,
                piece_text_valid(s@),
                columns == piece_columns(s@),
                rows == piece_rows(s@),
                1 <= columns,
                1 <= rows,
                columns * rows <= 32,
                x == cursor_at(s@, i as int).0,
                y == cursor_at(s@, i as int).1,
                0 <= x <= columns,
                0 <= y < rows,
                forall|c: Coordinates|
                    0 <= c.x < columns && 0 <= c.y < rows ==> board_data.has_bit(columns * c.y + c.x)
                        == #[trigger] filled_in(s@, i as int, c.x as int, c.y as int),
                forall|j: int| #[trigger] board_data.has_bit(j) ==> 0 <= j < columns * rows,
            decreases len - i,
        {
            let c = s.get_char(i);
            proof {
                lemma_prefix_within(s@, i + 1);
            }
            let ghost before = board_data;
            let ghost here = Coordinates { x, y };
            if c == '|' || c == '\n' {
                x = 0;
                y += 1;
            } else if c == 'x' || c == '.' {
                if c == 'x' {
                    assert(0 <= columns * y + x < columns * rows) by (nonlinear_arith)
                        requires
                            0 <= x < columns,
                            0 <= y < rows,
                    ;
                    let index = (columns * y + x) as usize;
                    board_data.bit_set(index, true);
                }
                x += 1;
            }
            assert forall|cc: Coordinates|
                0 <= cc.x < columns && 0 <= cc.y < rows implies board_data.has_bit(
                columns * cc.y + cc.x,
            ) == #[trigger] filled_in(s@, i + 1, cc.x as int, cc.y as int) by {
                assert(filled_in(s@, i as int, cc.x as int, cc.y as int) == before.has_bit(
                    columns * cc.y + cc.x,
                ));
                if c == 'x' {
                    assert(0 <= columns * cc.y + cc.x) by (nonlinear_arith)
                        requires
                            0 <= cc.x < columns,
                            0 <= cc.y < rows,
                    ;
                    if columns * cc.y + cc.x == columns * here.y + here.x {
                        crate::bitboard::lemma_index_injective(columns as int, cc, here);
                    }
                }
            }
            i += 1;
        }
        let piece = BlokusPiece {
            shape: BitBoard::new_with_data(DynGeometry::new(columns, rows), board_data),
        };
        assert forall|c: Coordinates| piece.shape.in_bounds(c) implies #[trigger] piece.shape.cell(c)
            == filled_in(s@, len as int, c.x as int, c.y as int) by {
            assert(filled_in(s@, len as int, c.x as int, c.y as int) == board_data.has_bit(
                columns * c.y + c.x,
            ));
        }
        piece
    }

    /// Parses a piece from its text: `x` for a filled cell, `.` for an
    /// empty one, `|` or a newline between rows; spaces are skipped. The
    /// text must hold nothing else and describe at most 32 cells.
    pub fn parse(s: &str) -> (r: BlokusPiece)
        requires
            piece_text_valid(s@),
        ensures
            r.described_by(s@),
    {
        let (columns, rows) = Self::measure(s).unwrap();
        Self::fill(s, columns, rows)
    }

    /// Parses a piece as `parse` does, or returns `None` where the text is
    /// not a piece text: it holds another character, or describes more than
    /// 32 cells.
    pub fn try_parse(s: &str) -> (r: Option<BlokusPiece>)
        ensures
            r is Some <==> piece_text_valid(s@),
            r matches Some(p) ==> p.described_by(s@),
            (exists|i: int| 0 <= i < s@.len() && !is_piece_char(#[trigger] s@[i])) ==> r is None,
    {
        proof {
            lemma_piece_chars_upto(s@, s@.len() as int);
        }
        match Self::measure(s) {
            Some((columns, rows)) => Some(Self::fill(s, columns, rows)),
            None => None,
        }
    }

    /// The number of corners of the shape: for each cell of its bounding
    /// box and each diagonal whose three neighbours on that side are clear.
    pub fn count_corners(&self) -> (r: usize)
        requires
            self.wf(),
        ensures
            r == self.corners().len(),
    {
        let ghost h = self.height();
        let ghost w = self.width();
        proof {
            self.lemma_corners_before_prefix(w, w);
            assert(4 * w * h <= 128) by (nonlinear_arith)
                requires
                    w * h <= 32,
            ;
        }
        let width = self.shape.geometry().width();
        let height = self.shape.geometry().height();
        let diagonals = Direction::diagonals();
        let mut corners: usize = 0;
        let mut coord = Coordinates::zero();
        while coord.x < width
            invariant
                self.wf(),
                w == self.width(),
                h == self.height(),
                self.corners().len() <= 128,
                width == w,
                height == h,
                forall|k: int| 0 <= k < 4 ==> #[trigger] diagonals[k] == Direction::diagonal_at(k),
                0 <= coord.x <= w,
                coord.y == 0,
                corners == self.corners_before(coord.x as int).len(),
            decreases w - coord.x,
        {
            let ghost x = coord.x as int;
            while coord.y < height
                invariant
                    self.wf(),
                    w == self.width(),
                    h == self.height(),
                    self.corners().len() <= 128,
                    width == w,
                    height == h,
                    forall|k: int|
                        0 <= k < 4 ==> #[trigger] diagonals[k] == Direction::diagonal_at(k),
                    coord.x == x,
                    0 <= x < w,
                    0 <= coord.y <= h,
                    corners == self.corners_before(x).len() + self.column_corners(
                        x,
                        coord.y as int,
                    ).len(),
                decreases h - coord.y,
            {
                let mut i: usize = 0;
                proof {
                    self.lemma_scan_prefix(x, coord.y as int, 4);
                }
                while i < 4
                    invariant
                        self.wf(),
                        w == self.width(),
                        h == self.height(),
                        self.corners().len() <= 128,
                        height == h,
                        forall|k: int|
                            0 <= k < 4 ==> #[trigger] diagonals[k] == Direction::diagonal_at(k),
                        coord.x == x,
                        0 <= x < w,
                        0 <= coord.y < h,
                        i <= 4,
                        corners == self.corners_before(x).len() + self.column_corners(
                            x,
                            coord.y as int,
                        ).len() + self.cell_corners(coord, i as int).len(),
                        self.corners_before(x).len() + self.column_corners(x, coord.y as int).len()
                            + self.cell_corners(coord, 4).len() <= self.corners().len(),
                    decreases 4 - i,
                {
                    proof {
                        self.lemma_cell_corners_prefix(coord, i as int + 1, 4);
                    }
                    let d = diagonals[i];
                    let corner_mask = d.components().union(DirectionSet::single(d));
                    let set_blocks_around_corner = self.shape.are_adjacent_tiles_set(
                        coord,
                        corner_mask,
                    );
                    if set_blocks_around_corner.is_empty() {
                        corners += 1;
                    }
                    i += 1;
                }
                coord.y += 1;
            }
            coord.y = 0;
            coord.x += 1;
        }
        corners
    }

    /// The `n`th corner of the shape, in the order `count_corners` counts
    /// them: the free cell diagonally next to the shape's cell.
    pub fn nth_corner(&self, n: usize) -> (r: Coordinates)
        requires
            self.wf(),
            n < self.corners().len(),
        ensures
            r == self.corners()[n as int],
    {
        let ghost h = self.height();
        let ghost w = self.width();
        proof {
            self.lemma_corners_before_prefix(w, w);
            assert(4 * w * h <= 128) by (nonlinear_arith)
                requires
                    w * h <= 32,
            ;
        }
        let width = self.shape.geometry().width();
        let height = self.shape.geometry().height();
        let diagonals = Direction::diagonals();
        let mut corners: usize = n;
        let mut coord = Coordinates::zero();
        while coord.x < width
            invariant
                self.wf(),
                w == self.width(),
                h == self.height(),
                self.corners().len() <= 128,
                width == w,
                height == h,
                n < self.corners().len(),
                forall|k: int| 0 <= k < 4 ==> #[trigger] diagonals[k] == Direction::diagonal_at(k),
                0 <= coord.x <= w,
                coord.y == 0,
                corners + self.corners_before(coord.x as int).len() == n,
            decreases w - coord.x,
        {
            let ghost x = coord.x as int;
            while coord.y < height
                invariant
                    self.wf(),
                    w == self.width(),
                    h == self.height(),
                    self.corners().len() <= 128,
                    width == w,
                    height == h,
                    n < self.corners().len(),
                    forall|k: int|
                        0 <= k < 4 ==> #[trigger] diagonals[k] == Direction::diagonal_at(k),
                    coord.x == x,
                    0 <= x < w,
                    0 <= coord.y <= h,
                    corners + self.corners_before(x).len() + self.column_corners(
                        x,
                        coord.y as int,
                    ).len() == n,
                decreases h - coord.y,
            {
                let mut i: usize = 0;
                while i < 4
                    invariant
                        self.wf(),
                        w == self.width(),
                        h == self.height(),
                        self.corners().len() <= 128,
                        height == h,
                        n < self.corners().len(),
                        forall|k: int|
                            0 <= k < 4 ==> #[trigger] diagonals[k] == Direction::diagonal_at(k),
                        coord.x == x,
                        0 <= x < w,
                        0 <= coord.y < h,
                        i <= 4,
                        corners + self.corners_before(x).len() + self.column_corners(
                            x,
                            coord.y as int,
                        ).len() + self.cell_corners(coord, i as int).len() == n,
                    decreases 4 - i,
                {
                    let d = diagonals[i];
                    let corner_mask = d.components().union(DirectionSet::single(d));
                    let set_blocks_around_corner = self.shape.are_adjacent_tiles_set(
                        coord,
                        corner_mask,
                    );
                    if set_blocks_around_corner.is_empty() {
                        if corners == 0 {
                            proof {
                                self.lemma_scan_prefix(x, coord.y as int, i as int + 1);
                                let found = self.corners_before(x) + self.column_corners(
                                    x,
                                    coord.y as int,
                                ) + self.cell_corners(coord, i as int + 1);
                                assert(found[n as int] == coord.step(d));
                                assert(self.corners().subrange(0, found.len() as int)[n as int]
                                    == self.corners()[n as int]);
                            }
                            return coord + d.as_coordinates();
                        } else {
                            corners -= 1;
                        }
                    }
                    i += 1;
                }
                coord.y += 1;
            }
            coord.y = 0;
            coord.x += 1;
        }
        proof {
            assert(false);
        }
        coord
    }
}

/// Rules of Blokus that go beyond a single piece.
pub struct BlokusRuleset {}

/// A fixed, ordered collection of `N` pieces.
pub trait BlokusPieceSet<const N: usize> {
    /// The pieces of the set, in order.
    fn pieces() -> (r: Vec<BlokusPiece>)
        ensures
            r.len() == N,
            forall|i: int| 0 <= i < r.len() ==> (#[trigger] r[i]).wf(),
    ;
}

/// The 21 pieces of a standard Blokus set.
pub struct StandardBlokusPieceSet;

/// The texts of pieces 1 to 6 of the standard set describe pieces.
#[verifier::spinoff_prover]
proof fn lemma_standard_texts_1_to_6()
    ensures
        piece_text_valid("x"@),
        piece_text_valid("xx"@),
        piece_text_valid("xxx"@),
        piece_text_valid("xxxx"@),
        piece_text_valid("xxxxx"@),
        piece_text_valid("x x x x|x"@),
{
    assert(piece_text_valid("x"@)) by {
        reveal_strlit("x");
        reveal_with_fuel(cursor_at, 2);
        reveal_with_fuel(widest_closed_row, 2);
        reveal_with_fuel(piece_chars_upto, 2);
        assert("x"@.len() == 1);
        assert(piece_columns("x"@) == 1 && piece_rows("x"@) == 1);
    }
    assert(piece_text_valid("xx"@)) by {
        reveal_strlit("xx");
        reveal_with_fuel(cursor_at, 3);
        reveal_with_fuel(widest_closed_row, 3);
        reveal_with_fuel(piece_chars_upto, 3);
        assert("xx"@.len() == 2);
        assert(piece_columns("xx"@) == 2 && piece_rows("xx"@) == 1);
    }
    assert(piece_text_valid("xxx"@)) by {
        reveal_strlit("xxx");
        reveal_with_fuel(cursor_at, 4);
        reveal_with_fuel(widest_closed_row, 4);
        reveal_with_fuel(piece_chars_upto, 4);
        assert("xxx"@.len() == 3);
        assert(piece_columns("xxx"@) == 3 && piece_rows("xxx"@) == 1);
    }
    assert(piece_text_valid("xxxx"@)) by {
        reveal_strlit("xxxx");
        reveal_with_fuel(cursor_at, 5);
        reveal_with_fuel(widest_closed_row, 5);
        reveal_with_fuel(piece_chars_upto, 5);
        assert("xxxx"@.len() == 4);
        assert(piece_columns("xxxx"@) == 4 && piece_rows("xxxx"@) == 1);
    }
    assert(piece_text_valid("xxxxx"@)) by {
        reveal_strlit("xxxxx");
        reveal_with_fuel(cursor_at, 6);
        reveal_with_fuel(widest_closed_row, 6);
        reveal_with_fuel(piece_chars_upto, 6);
        assert("xxxxx"@.len() == 5);
        assert(piece_columns("xxxxx"@) == 5 && piece_rows("xxxxx"@) == 1);
    }
    assert(piece_text_valid("x x x x|x"@)) by {
        reveal_strlit("x x x x|x");
        reveal_with_fuel(cursor_at, 10);
        reveal_with_fuel(widest_closed_row, 10);
        reveal_with_fuel(piece_chars_upto, 10);
        assert("x x x x|x"@.len() == 9);
        assert(piece_columns("x x x x|x"@) == 4 && piece_rows("x x x x|x"@) == 2);
    }
}

/// The texts of pieces 7 to 9 of the standard set describe pieces.
#[verifier::spinoff_prover]
proof fn lemma_standard_texts_7_to_9()
    ensures
        piece_text_valid("x x x|x|x"@),
        piece_text_valid("x x x|x"@),
        piece_text_valid("x x|x"@),
{
    assert(piece_text_valid("x x x|x|x"@)) by {
        reveal_strlit("x x x|x|x");
        reveal_with_fuel(cursor_at, 10);
        reveal_with_fuel(widest_closed_row, 10);
        reveal_with_fuel(piece_chars_upto, 10);
        assert("x x x|x|x"@.len() == 9);
        assert(piece_columns("x x x|x|x"@) == 3 && piece_rows("x x x|x|x"@) == 3);
    }
    assert(piece_text_valid("x x x|x"@)) by {
        reveal_strlit("x x x|x");
        reveal_with_fuel(cursor_at, 8);
        reveal_with_fuel(widest_closed_row, 8);
        reveal_with_fuel(piece_chars_upto, 8);
        assert("x x x|x"@.len() == 7);
        assert(piece_columns("x x x|x"@) == 3 && piece_rows("x x x|x"@) == 2);
    }
    assert(piece_text_valid("x x|x"@)) by {
        reveal_strlit("x x|x");
        reveal_with_fuel(cursor_at, 6);
        reveal_with_fuel(widest_closed_row, 6);
        reveal_with_fuel(piece_chars_upto, 6);
        assert("x x|x"@.len() == 5);
        assert(piece_columns("x x|x"@) == 2 && piece_rows("x x|x"@) == 2);
    }
}

/// The text of piece 10 of the standard set describes a piece.
#[verifier::spinoff_prover]
proof fn lemma_standard_text_10()
    ensures
        piece_text_valid(". x .|x x x|. x ."@),
{
    assert(piece_text_valid(". x .|x x x|. x ."@)) by {
        reveal_strlit(". x .|x x x|. x .");
        reveal_with_fuel(cursor_at, 18);
        reveal_with_fuel(widest_closed_row, 18);
        reveal_with_fuel(piece_chars_upto, 18);
        assert(". x .|x x x|. x ."@.len() == 17);
        assert(piece_columns(". x .|x x x|. x ."@) == 3 && piece_rows(". x .|x x x|. x ."@) == 3);
    }
}

/// The text of piece 11 of the standard set describes a piece.
#[verifier::spinoff_prover]
proof fn lemma_standard_text_11()
    ensures
        piece_text_valid(". x .|. x x|x x ."@),
{
    assert(piece_text_valid(". x .|. x x|x x ."@)) by {
        reveal_strlit(". x .|. x x|x x .");
        reveal_with_fuel(cursor_at, 18);
        reveal_with_fuel(widest_closed_row, 18);
        reveal_with_fuel(piece_chars_upto, 18);
        assert(". x .|. x x|x x ."@.len() == 17);
        assert(piece_columns(". x .|. x x|x x ."@) == 3 && piece_rows(". x .|. x x|x x ."@) == 3);
    }
}

/// The text of piece 12 of the standard set describes a piece.
#[verifier::spinoff_prover]
proof fn lemma_standard_text_12()
    ensures
        piece_text_valid("x . .|x x x|x . ."@),
{
    assert(piece_text_valid("x . .|x x x|x . ."@)) by {
        reveal_strlit("x . .|x x x|x . .");
        reveal_with_fuel(cursor_at, 18);
        reveal_with_fuel(widest_closed_row, 18);
        reveal_with_fuel(piece_chars_upto, 18);
        assert("x . .|x x x|x . ."@.len() == 17);
        assert(piece_columns("x . .|x x x|x . ."@) == 3 && piece_rows("x . .|x x x|x . ."@) == 3);
    }
}

/// The texts of pieces 13 to 14 of the standard set describe pieces.
#[verifier::spinoff_prover]
proof fn lemma_standard_texts_13_to_14()
    ensures
        piece_text_valid("x .|x .|x x|x ."@),
        piece_text_valid("x .|x x|x ."@),
{
    assert(piece_text_valid("x .|x .|x x|x ."@)) by {
        reveal_strlit("x .|x .|x x|x .");
        reveal_with_fuel(cursor_at, 16);
        reveal_with_fuel(widest_closed_row, 16);
        reveal_with_fuel(piece_chars_upto, 16);
        assert("x .|x .|x x|x ."@.len() == 15);
        assert(piece_columns("x .|x .|x x|x ."@) == 2 && piece_rows("x .|x .|x x|x ."@) == 4);
    }
    assert(piece_text_valid("x .|x x|x ."@)) by {
        reveal_strlit("x .|x x|x .");
        reveal_with_fuel(cursor_at, 12);
        reveal_with_fuel(widest_closed_row, 12);
        reveal_with_fuel(piece_chars_upto, 12);
        assert("x .|x x|x ."@.len() == 11);
        assert(piece_columns("x .|x x|x ."@) == 2 && piece_rows("x .|x x|x ."@) == 3);
    }
}

/// The texts of pieces 15 to 17 of the standard set describe pieces.
#[verifier::spinoff_prover]
proof fn lemma_standard_texts_15_to_17()
    ensures
        piece_text_valid("x x|x .|x x"@),
        piece_text_valid("x x|x x"@),
        piece_text_valid("x x x|x x ."@),
{
    assert(piece_text_valid("x x|x .|x x"@)) by {
        reveal_strlit("x x|x .|x x");
        reveal_with_fuel(cursor_at, 12);
        reveal_with_fuel(widest_closed_row, 12);
        reveal_with_fuel(piece_chars_upto, 12);
        assert("x x|x .|x x"@.len() == 11);
        assert(piece_columns("x x|x .|x x"@) == 2 && piece_rows("x x|x .|x x"@) == 3);
    }
    assert(piece_text_valid("x x|x x"@)) by {
        reveal_strlit("x x|x x");
        reveal_with_fuel(cursor_at, 8);
        reveal_with_fuel(widest_closed_row, 8);
        reveal_with_fuel(piece_chars_upto, 8);
        assert("x x|x x"@.len() == 7);
        assert(piece_columns("x x|x x"@) == 2 && piece_rows("x x|x x"@) == 2);
    }
    assert(piece_text_valid("x x x|x x ."@)) by {
        reveal_strlit("x x x|x x .");
        reveal_with_fuel(cursor_at, 12);
        reveal_with_fuel(widest_closed_row, 12);
        reveal_with_fuel(piece_chars_upto, 12);
        assert("x x x|x x ."@.len() == 11);
        assert(piece_columns("x x x|x x ."@) == 3 && piece_rows("x x x|x x ."@) == 2);
    }
}

/// The texts of pieces 18 to 19 of the standard set describe pieces.
#[verifier::spinoff_prover]
proof fn lemma_standard_texts_18_to_19()
    ensures
        piece_text_valid(". x x|. x .|x x ."@),
        piece_text_valid(". x|x x|x .|x"@),
{
    assert(piece_text_valid(". x x|. x .|x x ."@)) by {
        reveal_strlit(". x x|. x .|x x .");
        reveal_with_fuel(cursor_at, 18);
        reveal_with_fuel(widest_closed_row, 18);
        reveal_with_fuel(piece_chars_upto, 18);
        assert(". x x|. x .|x x ."@.len() == 17);
        assert(piece_columns(". x x|. x .|x x ."@) == 3 && piece_rows(". x x|. x .|x x ."@) == 3);
    }
    assert(piece_text_valid(". x|x x|x .|x"@)) by {
        reveal_strlit(". x|x x|x .|x");
        reveal_with_fuel(cursor_at, 14);
        reveal_with_fuel(widest_closed_row, 14);
        reveal_with_fuel(piece_chars_upto, 14);
        assert(". x|x x|x .|x"@.len() == 13);
        assert(piece_columns(". x|x x|x .|x"@) == 2 && piece_rows(". x|x x|x .|x"@) == 4);
    }
}

/// The texts of pieces 20 to 21 of the standard set describe pieces.
#[verifier::spinoff_prover]
proof fn lemma_standard_texts_20_to_21()
    ensures
        piece_text_valid(". . x|. x x|x x ."@),
        piece_text_valid(". x|x x|x ."@),
{
    assert(piece_text_valid(". . x|. x x|x x ."@)) by {
        reveal_strlit(". . x|. x x|x x .");
        reveal_with_fuel(cursor_at, 18);
        reveal_with_fuel(widest_closed_row, 18);
        reveal_with_fuel(piece_chars_upto, 18);
        assert(". . x|. x x|x x ."@.len() == 17);
        assert(piece_columns(". . x|. x x|x x ."@) == 3 && piece_rows(". . x|. x x|x x ."@) == 3);
    }
    assert(piece_text_valid(". x|x x|x ."@)) by {
        reveal_strlit(". x|x x|x .");
        reveal_with_fuel(cursor_at, 12);
        reveal_with_fuel(widest_closed_row, 12);
        reveal_with_fuel(piece_chars_upto, 12);
        assert(". x|x x|x ."@.len() == 11);
        assert(piece_columns(". x|x x|x ."@) == 2 && piece_rows(". x|x x|x ."@) == 3);
    }
}

/// The text of piece `i` of the standard set; from 20 on, the last piece.
pub open spec fn standard_piece_text(i: int) -> Seq<char> {
    if i == 0 {
        "x"@
    } else if i == 1 {
        "xx"@
    } else if i == 2 {
        "xxx"@
    } else if i == 3 {
        "xxxx"@
    } else if i == 4 {
        "xxxxx"@
    } else if i == 5 {
        "x x x x|x"@
    } else if i == 6 {
        "x x x|x|x"@
    } else if i == 7 {
        "x x x|x"@
    } else if i == 8 {
        "x x|x"@
    } else if i == 9 {
        ". x .|x x x|. x ."@
    } else if i == 10 {
        ". x .|. x x|x x ."@
    } else if i == 11 {
        "x . .|x x x|x . ."@
    } else if i == 12 {
        "x .|x .|x x|x ."@
    } else if i == 13 {
        "x .|x x|x ."@
    } else if i == 14 {
        "x x|x .|x x"@
    } else if i == 15 {
        "x x|x x"@
    } else if i == 16 {
        "x x x|x x ."@
    } else if i == 17 {
        ". x x|. x .|x x ."@
    } else if i == 18 {
        ". x|x x|x .|x"@
    } else if i == 19 {
        ". . x|. x x|x x ."@
    } else {
        ". x|x x|x ."@
    }
}

impl StandardBlokusPieceSet {
    /// Piece `index` of the standard set; every index from 20 on gives the
    /// last piece.
    fn piece(index: usize) -> (r: BlokusPiece)
        ensures
            r.described_by(standard_piece_text(index as int)),
    {
        proof {
            lemma_standard_texts_1_to_6();
            lemma_standard_texts_7_to_9();
            lemma_standard_text_10();
            lemma_standard_text_11();
            lemma_standard_text_12();
            lemma_standard_texts_13_to_14();
            lemma_standard_texts_15_to_17();
            lemma_standard_texts_18_to_19();
            lemma_standard_texts_20_to_21();
        }
        match index {
            0 => BlokusPiece::parse("x"),
            1 => BlokusPiece::parse("xx"),
            2 => BlokusPiece::parse("xxx"),
            3 => BlokusPiece::parse("xxxx"),
            4 => BlokusPiece::parse("xxxxx"),
            5 => BlokusPiece::parse("x x x x|x"),
            6 => BlokusPiece::parse("x x x|x|x"),
            7 => BlokusPiece::parse("x x x|x"),
            8 => BlokusPiece::parse("x x|x"),
            9 => BlokusPiece::parse(". x .|x x x|. x ."),
            10 => BlokusPiece::parse(". x .|. x x|x x ."),
            11 => BlokusPiece::parse("x . .|x x x|x . ."),
            12 => BlokusPiece::parse("x .|x .|x x|x ."),
            13 => BlokusPiece::parse("x .|x x|x ."),
            14 => BlokusPiece::parse("x x|x .|x x"),
            15 => BlokusPiece::parse("x x|x x"),
            16 => BlokusPiece::parse("x x x|x x ."),
            17 => BlokusPiece::parse(". x x|. x .|x x ."),
            18 => BlokusPiece::parse(". x|x x|x .|x"),
            19 => BlokusPiece::parse(". . x|. x x|x x ."),
            _ => BlokusPiece::parse(". x|x x|x ."),
        }
    }
}

impl BlokusPieceSet<21> for StandardBlokusPieceSet {
    fn pieces() -> (r: Vec<BlokusPiece>)
        ensures
            forall|i: int| 0 <= i < 21 ==> (#[trigger] r[i]).described_by(standard_piece_text(i)),
    {
        let mut pieces: Vec<BlokusPiece> = Vec::new();
        let mut i: usize = 0;
        while i < 21
            invariant
                i <= 21,
                pieces.len() == i,
                forall|k: int|
                    0 <= k < pieces.len() ==> (#[trigger] pieces[k]).described_by(
                        standard_piece_text(k),
                    ),
            decreases 21 - i,
        {
            pieces.push(Self::piece(i));
            i += 1;
        }
        pieces
    }
}

/// The corners of every piece of `pieces`, piece after piece, each piece's
/// in its own order.
pub open spec fn flat_corners(pieces: Seq<BlokusPiece>) -> Seq<Coordinates>
    decreases pieces.len(),
{
    if pieces.len() == 0 {
        seq![]
    } else {
        flat_corners(pieces.drop_last()) + pieces.last().corners()
    }
}

/// The pieces can be counted over without overflow: each has at most 128
/// corners.
pub open spec fn pieces_fit(pieces: Seq<BlokusPiece>) -> bool {
    &&& pieces.len() * 128 <= usize::MAX
    &&& forall|i: int| 0 <= i < pieces.len() ==> (#[trigger] pieces[i]).wf()
}

proof fn lemma_flat_corners_bound(pieces: Seq<BlokusPiece>, k: int)
    requires
        pieces_fit(pieces),
        0 <= k <= pieces.len(),
    ensures
        flat_corners(pieces.take(k)).len() <= 128 * k,
    decreases k,
{
    if k > 0 {
        lemma_flat_corners_bound(pieces, k - 1);
        assert(pieces.take(k).drop_last() =~= pieces.take(k - 1));
        pieces[k - 1].lemma_corner_bound();
    }
}

/// In the table of a piece set, the corners of piece `p` start where those
/// of the pieces before it end: its `j`th corner stands at that offset plus
/// `j`, and the next piece starts right after its last corner.
pub proof fn lemma_corner_table_concatenates(pieces: Seq<BlokusPiece>, p: int, j: int)
    requires
        0 <= p < pieces.len(),
        0 <= j < pieces[p].corners().len(),
    ensures
        flat_corners(pieces.take(p + 1)).len() == flat_corners(pieces.take(p)).len()
            + pieces[p].corners().len(),
        flat_corners(pieces.take(p)).len() + j < flat_corners(pieces).len(),
        flat_corners(pieces)[flat_corners(pieces.take(p)).len() + j] == pieces[p].corners()[j],
    decreases pieces.len(),
{
    assert(pieces.take(p + 1).drop_last() =~= pieces.take(p));
    if p == pieces.len() - 1 {
        assert(pieces.take(p + 1) =~= pieces);
    } else {
        let rest = pieces.drop_last();
        lemma_corner_table_concatenates(rest, p, j);
        assert(rest.take(p) =~= pieces.take(p));
        assert(rest.take(p + 1) =~= pieces.take(p + 1));
    }
}

/// The number of corners of all the pieces together.
pub fn corner_count(pieces: &Vec<BlokusPiece>) -> (r: usize)
    requires
        pieces_fit(pieces@),
    ensures
        r == flat_corners(pieces@).len(),
{
    let mut total: usize = 0;
    let mut i: usize = 0;
    while i < pieces.len()
        invariant
            pieces_fit(pieces@),
            i <= pieces.len(),
            total == flat_corners(pieces@.take(i as int)).len(),
        decreases pieces.len() - i,
    {
        proof {
            lemma_flat_corners_bound(pieces@, i + 1);
            assert(pieces@.take(i + 1).drop_last() =~= pieces@.take(i as int));
        }
        total += pieces[i].count_corners();
        i += 1;
    }
    proof {
        assert(pieces@.take(i as int) =~= pieces@);
    }
    total
}

/// For each piece, where its corners start in the table of the set: the
/// number of corners of the pieces before it.
pub fn corner_offsets(pieces: &Vec<BlokusPiece>) -> (r: Vec<usize>)
    requires
        pieces_fit(pieces@),
    ensures
        r.len() == pieces.len(),
        forall|i: int| 0 <= i < r.len() ==> #[trigger] r[i] == flat_corners(pieces@.take(i)).len(),
{
    let mut offsets: Vec<usize> = Vec::new();
    let mut current: usize = 0;
    let mut i: usize = 0;
    while i < pieces.len()
        invariant
            pieces_fit(pieces@),
            i <= pieces.len(),
            current == flat_corners(pieces@.take(i as int)).len(),
            offsets.len() == i,
            forall|k: int|
                0 <= k < i ==> #[trigger] offsets[k] == flat_corners(pieces@.take(k)).len(),
        decreases pieces.len() - i,
    {
        proof {
            lemma_flat_corners_bound(pieces@, i + 1);
            assert(pieces@.take(i + 1).drop_last() =~= pieces@.take(i as int));
        }
        offsets.push(current);
        current += pieces[i].count_corners();
        i += 1;
    }
    offsets
}

/// Every corner of every piece, piece after piece: the table a move
/// generator looks corners up in.
pub fn corner_table(pieces: &Vec<BlokusPiece>) -> (r: Vec<Coordinates>)
    requires
        pieces_fit(pieces@),
    ensures
        r@ == flat_corners(pieces@),
{
    let mut table: Vec<Coordinates> = Vec::new();
    let mut i: usize = 0;
    while i < pieces.len()
        invariant
            pieces_fit(pieces@),
            i <= pieces.len(),
            table@ == flat_corners(pieces@.take(i as int)),
        decreases pieces.len() - i,
    {
        let piece = &pieces[i];
        let count = piece.count_corners();
        let mut j: usize = 0;
        while j < count
            invariant
                pieces_fit(pieces@),
                i < pieces.len(),
                *piece == pieces@[i as int],
                count == piece.corners().len(),
                j <= count,
                table@ == flat_corners(pieces@.take(i as int)) + piece.corners().take(j as int),
            decreases count - j,
        {
            table.push(piece.nth_corner(j));
            proof {
                assert(piece.corners().take(j + 1) =~= piece.corners().take(j as int).push(
                    piece.corners()[j as int],
                ));
            }
            j += 1;
        }
        proof {
            assert(pieces@.take(i + 1).drop_last() =~= pieces@.take(i as int));
            assert(piece.corners().take(count as int) =~= piece.corners());
        }
        i += 1;
    }
    proof {
        assert(pieces@.take(i as int) =~= pieces@);
    }
    table
}

} // verus!
