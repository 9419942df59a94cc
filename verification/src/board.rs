//! The game board and the falling piece.
//!
//! The board is a grid of cells indexed `cells[x][y]`, with a wall border on
//! the left and right columns and the bottom row. The falling piece is drawn
//! into the grid transiently; collision checks treat tracer cells as
//! passable.

use vstd::prelude::*;

use crate::pieces::{dx_spec, dy_spec, rotated_right, xy, Offsets, Piece, PieceColor};

verus! {

/// A `width` x `height` grid of cells, indexed `cells[x][y]`. Row 0 is the
/// top; the bottom row and the leftmost and rightmost columns hold walls.
pub struct Board {
    pub width: u16,
    pub height: u16,
    pub cells: Vec<Vec<PieceColor>>,
}

impl Board {
    /// Board width, as a mathematical integer.
    pub open spec fn bw(&self) -> int {
        self.width as int
    }

    /// Board height, as a mathematical integer.
    pub open spec fn bh(&self) -> int {
        self.height as int
    }

    /// The cell at column `x`, row `y`.
    pub open spec fn cell(&self, x: int, y: int) -> PieceColor {
        self.cells@[x]@[y]
    }

    /// The grid as a sequence of columns of cells.
    pub open spec fn grid(&self) -> Seq<Seq<PieceColor>> {
        Seq::new(self.cells@.len(), |x: int| self.cells@[x]@)
    }

    /// The grid is rectangular and at least wide enough for two wall columns
    /// with one interior column, and one playable row above the bottom wall.
    pub open spec fn dims_wf(&self) -> bool {
        &&& 3 <= self.width
        &&& 2 <= self.height
        &&& self.cells@.len() == self.bw()
        &&& forall|x: int| 0 <= x < self.bw() ==> (#[trigger] self.cells@[x])@.len() == self.bh()
    }

    /// `(x, y)` is a valid cell position.
    pub open spec fn in_bounds(&self, x: int, y: int) -> bool {
        0 <= x < self.bw() && 0 <= y < self.bh()
    }

    /// Deep copy of the grid.
    pub fn clone_board(&self) -> (r: Board)
        requires
            self.dims_wf(),
        ensures
            r.width == self.width,
            r.height == self.height,
            r.cells@.len() == self.cells@.len(),
            forall|x: int| 0 <= x < self.bw() ==> (#[trigger] r.cells@[x])@ == self.cells@[x]@,
            r.dims_wf(),
    {
        let mut cells: Vec<Vec<PieceColor>> = Vec::new();
        let mut x: usize = 0;
        while x < self.width as usize
            invariant
                self.dims_wf(),
                x <= self.bw(),
                cells@.len() == x,
                forall|i: int| 0 <= i < x ==> (#[trigger] cells@[i])@ == self.cells@[i]@,
            decreases self.bw() - x,
        {
            let mut col: Vec<PieceColor> = Vec::new();
            let mut y: usize = 0;
            while y < self.height as usize
                invariant
                    self.dims_wf(),
                    x < self.bw(),
                    y <= self.bh(),
                    col@.len() == y,
                    forall|j: int| 0 <= j < y ==> col@[j] == self.cells@[x as int]@[j],
                decreases self.bh() - y,
            {
                col.push(self.cells[x][y]);
                y += 1;
            }
            proof {
                assert(col@ =~= self.cells@[x as int]@);
            }
            cells.push(col);
            x += 1;
        }
        Board { width: self.width, height: self.height, cells }
    }
}

/// The columns the footprint cell `k` of a view anchored at `(x, y)`
/// occupies.
pub open spec fn fp_x(v: Seq<Offsets>, x: int, k: int) -> int {
    x + dx_spec(v[k])
}

/// The row the footprint cell `k` of a view anchored at `(x, y)` occupies.
pub open spec fn fp_y(v: Seq<Offsets>, y: int, k: int) -> int {
    y + dy_spec(v[k])
}

/// `(cx, cy)` is one of the four cells of the view anchored at `(x, y)`.
pub open spec fn in_footprint(v: Seq<Offsets>, x: int, y: int, cx: int, cy: int) -> bool {
    exists|k: int| 0 <= k < 4 && cx == fp_x(v, x, k) && cy == fp_y(v, y, k)
}

/// All four cells of the view anchored at `(x, y)` lie on the board.
pub open spec fn footprint_in_bounds(b: &Board, v: Seq<Offsets>, x: int, y: int) -> bool {
    forall|k: int| 0 <= k < 4 ==> b.in_bounds(#[trigger] fp_x(v, x, k), fp_y(v, y, k))
}

/// All four cells of the view anchored at `(x, y)` lie strictly inside the
/// walls.
/// Footprint cell `k` of the view anchored at `(x, y)` lies strictly inside
/// the walls.
pub open spec fn cell_interior(b: &Board, v: Seq<Offsets>, x: int, y: int, k: int) -> bool {
    &&& 1 <= fp_x(v, x, k)
    &&& fp_x(v, x, k) < b.bw() - 1
    &&& 1 <= fp_y(v, y, k)
    &&& fp_y(v, y, k) < b.bh() - 1
}

pub open spec fn footprint_interior(b: &Board, v: Seq<Offsets>, x: int, y: int) -> bool {
    forall|k: int| 0 <= k < 4 ==> #[trigger] cell_interior(b, v, x, y, k)
}

/// Footprint cell `k` of the view anchored at `(x, y)` hits something: it
/// leaves the board to the left, right or bottom, or lands on an occupied,
/// non-tracer cell. Cells above the top never hit.
pub open spec fn offset_hits(b: &Board, o: Offsets, x: int, y: int) -> bool {
    let cx = x + dx_spec(o);
    let cy = y + dy_spec(o);
    ||| cx < 0
    ||| cx >= b.bw()
    ||| cy >= b.bh()
    ||| (cy >= 0 && b.cell(cx, cy) != PieceColor::Empty && b.cell(cx, cy) != PieceColor::Tracer)
}

/// The view anchored at `(x, y)` collides with the board.
pub open spec fn collides_spec(b: &Board, v: Seq<Offsets>, x: int, y: int) -> bool {
    exists|k: int| 0 <= k < 4 && offset_hits(b, #[trigger] v[k], x, y)
}

/// Two boards of the same dimensions whose cells agree except that one may
/// hold `Empty` or `Tracer` where the other holds the other of the two.
pub open spec fn same_modulo_tracer(a: &Board, b: &Board) -> bool {
    &&& a.width == b.width
    &&& a.height == b.height
    &&& forall|x: int, y: int|
        a.in_bounds(x, y) ==> (#[trigger] a.cell(x, y)) == b.cell(x, y)
            || ((a.cell(x, y) == PieceColor::Empty || a.cell(x, y) == PieceColor::Tracer) && (
            b.cell(x, y) == PieceColor::Empty
                || b.cell(x, y) == PieceColor::Tracer))
}

/// Collision only reads whether a cell is passable, so boards that agree
/// modulo tracer cells collide identically.
pub proof fn lemma_collides_modulo_tracer(a: &Board, b: &Board, v: Seq<Offsets>, x: int, y: int)
    requires
        same_modulo_tracer(a, b),
    ensures
        collides_spec(a, v, x, y) == collides_spec(b, v, x, y),
{
    assert forall|k: int| 0 <= k < 4 implies offset_hits(a, v[k], x, y) == offset_hits(
        b,
        v[k],
        x,
        y,
    ) by {
        let cx = x + dx_spec(v[k]);
        let cy = y + dy_spec(v[k]);
        if 0 <= cx < a.bw() && 0 <= cy < a.bh() {
            assert(a.cell(cx, cy) == b.cell(cx, cy) || ((a.cell(cx, cy) == PieceColor::Empty
                || a.cell(cx, cy) == PieceColor::Tracer) && (b.cell(cx, cy) == PieceColor::Empty
                || b.cell(cx, cy) == PieceColor::Tracer)));
        }
    }
}

/// Stamps the four cells of the piece's current view, anchored at `(x, y)`,
/// with `color`; every other cell is untouched.
pub fn draw_piece(piece: &Piece, board: &mut Board, x: i32, y: i32, color: PieceColor)
    requires
        old(board).dims_wf(),
        footprint_in_bounds(old(board), piece.view_spec(), x as int, y as int),
    ensures
        final(board).width == old(board).width,
        final(board).height == old(board).height,
        final(board).dims_wf(),
        forall|cx: int, cy: int|
            old(board).in_bounds(cx, cy) ==> (#[trigger] final(board).cell(cx, cy)) == if in_footprint(
                piece.view_spec(),
                x as int,
                y as int,
                cx,
                cy,
            ) {
                color
            } else {
                old(board).cell(cx, cy)
            },
{
    let v = piece.view();
    let mut k: usize = 0;
    while k < 4
        invariant
            board.dims_wf(),
            board.width == old(board).width,
            board.height == old(board).height,
            k <= 4,
            v@ == piece.view_spec(),
            footprint_in_bounds(old(board), piece.view_spec(), x as int, y as int),
            forall|cx: int, cy: int|
                old(board).in_bounds(cx, cy) ==> (#[trigger] board.cell(cx, cy))
                    == if footprint_prefix(piece.view_spec(), x as int, y as int, cx, cy, k as int) {
                    color
                } else {
                    old(board).cell(cx, cy)
                },
        decreases 4 - k,
    {
        let (dx, dy) = xy(&v[k]);
        proof {
            assert(old(board).in_bounds(
                fp_x(piece.view_spec(), x as int, k as int),
                fp_y(piece.view_spec(), y as int, k as int),
            ));
        }
        let ghost prev = *board;
        let cx = (x as i64 + dx as i64) as usize;
        let cy = (y as i64 + dy as i64) as usize;
        board.cells[cx][cy] = color;
        proof {
            let vv = piece.view_spec();
            let xi = x as int;
            let yi = y as int;
            let ki = k as int;
            assert forall|a: int, b: int| old(board).in_bounds(a, b) implies (
            #[trigger] board.cell(a, b)) == if footprint_prefix(vv, xi, yi, a, b, ki + 1) {
                color
            } else {
                old(board).cell(a, b)
            } by {
                if a == fp_x(vv, xi, ki) && b == fp_y(vv, yi, ki) {
                    assert(footprint_prefix(vv, xi, yi, a, b, ki + 1));
                    assert(board.cell(a, b) == color);
                } else {
                    assert(board.cell(a, b) == prev.cell(a, b));
                    assert(prev.cell(a, b) == if footprint_prefix(vv, xi, yi, a, b, ki) {
                        color
                    } else {
                        old(board).cell(a, b)
                    });
                    if footprint_prefix(vv, xi, yi, a, b, ki + 1) {
                        let j = choose|j: int|
                            0 <= j < ki + 1 && a == fp_x(vv, xi, j) && b == fp_y(vv, yi, j);
                        assert(j < ki);
                        assert(footprint_prefix(vv, xi, yi, a, b, ki));
                    } else {
                        assert(!footprint_prefix(vv, xi, yi, a, b, ki));
                    }
                }
            }
        }
        k += 1;
    }
    proof {
        assert forall|cx: int, cy: int|
            in_footprint(piece.view_spec(), x as int, y as int, cx, cy) == footprint_prefix(
                piece.view_spec(),
                x as int,
                y as int,
                cx,
                cy,
                4,
            ) by {}
    }
}

/// `(cx, cy)` is among the first `k` footprint cells of the view anchored at
/// `(x, y)`.
pub open spec fn footprint_prefix(
    v: Seq<Offsets>,
    x: int,
    y: int,
    cx: int,
    cy: int,
    k: int,
) -> bool {
    exists|j: int| 0 <= j < k && cx == fp_x(v, x, j) && cy == fp_y(v, y, j)
}

/// Blanks the four cells of the piece's current view anchored at `(x, y)`.
pub fn remove_piece(piece: &Piece, board: &mut Board, x: i32, y: i32)
    requires
        old(board).dims_wf(),
        footprint_in_bounds(old(board), piece.view_spec(), x as int, y as int),
    ensures
        final(board).width == old(board).width,
        final(board).height == old(board).height,
        final(board).dims_wf(),
        forall|cx: int, cy: int|
            old(board).in_bounds(cx, cy) ==> (#[trigger] final(board).cell(cx, cy)) == if in_footprint(
                piece.view_spec(),
                x as int,
                y as int,
                cx,
                cy,
            ) {
                PieceColor::Empty
            } else {
                old(board).cell(cx, cy)
            },
{
    let v = piece.view();
    let mut k: usize = 0;
    while k < 4
        invariant
            board.dims_wf(),
            board.width == old(board).width,
            board.height == old(board).height,
            k <= 4,
            v@ == piece.view_spec(),
            footprint_in_bounds(old(board), piece.view_spec(), x as int, y as int),
            forall|cx: int, cy: int|
                old(board).in_bounds(cx, cy) ==> (#[trigger] board.cell(cx, cy))
                    == if footprint_prefix(piece.view_spec(), x as int, y as int, cx, cy, k as int) {
                    PieceColor::Empty
                } else {
                    old(board).cell(cx, cy)
                },
        decreases 4 - k,
    {
        let (dx, dy) = xy(&v[k]);
        proof {
            assert(old(board).in_bounds(
                fp_x(piece.view_spec(), x as int, k as int),
                fp_y(piece.view_spec(), y as int, k as int),
            ));
        }
        let ghost prev = *board;
        let cx = (x as i64 + dx as i64) as usize;
        let cy = (y as i64 + dy as i64) as usize;
        board.cells[cx][cy] = PieceColor::Empty;
        proof {
            let vv = piece.view_spec();
            let xi = x as int;
            let yi = y as int;
            let ki = k as int;
            assert forall|a: int, b: int| old(board).in_bounds(a, b) implies (
            #[trigger] board.cell(a, b)) == if footprint_prefix(vv, xi, yi, a, b, ki + 1) {
                PieceColor::Empty
            } else {
                old(board).cell(a, b)
            } by {
                if a == fp_x(vv, xi, ki) && b == fp_y(vv, yi, ki) {
                    assert(footprint_prefix(vv, xi, yi, a, b, ki + 1));
                    assert(board.cell(a, b) == PieceColor::Empty);
                } else {
                    assert(board.cell(a, b) == prev.cell(a, b));
                    assert(prev.cell(a, b) == if footprint_prefix(vv, xi, yi, a, b, ki) {
                        PieceColor::Empty
                    } else {
                        old(board).cell(a, b)
                    });
                    if footprint_prefix(vv, xi, yi, a, b, ki + 1) {
                        let j = choose|j: int|
                            0 <= j < ki + 1 && a == fp_x(vv, xi, j) && b == fp_y(vv, yi, j);
                        assert(j < ki);
                        assert(footprint_prefix(vv, xi, yi, a, b, ki));
                    } else {
                        assert(!footprint_prefix(vv, xi, yi, a, b, ki));
                    }
                }
            }
        }
        k += 1;
    }
}

/// Blanks every tracer cell on the board.
pub fn remove_tracer(board: &mut Board)
    requires
        old(board).dims_wf(),
    ensures
        final(board).width == old(board).width,
        final(board).height == old(board).height,
        final(board).dims_wf(),
        forall|cx: int, cy: int|
            old(board).in_bounds(cx, cy) ==> (#[trigger] final(board).cell(cx, cy)) == if old(
                board,
            ).cell(cx, cy) == PieceColor::Tracer {
                PieceColor::Empty
            } else {
                old(board).cell(cx, cy)
            },
{
    let mut y: usize = 0;
    while y < board.height as usize
        invariant
            board.dims_wf(),
            board.width == old(board).width,
            board.height == old(board).height,
            y <= board.bh(),
            forall|cx: int, cy: int|
                old(board).in_bounds(cx, cy) ==> (#[trigger] board.cell(cx, cy)) == if cy < y
                    && old(board).cell(cx, cy) == PieceColor::Tracer {
                    PieceColor::Empty
                } else {
                    old(board).cell(cx, cy)
                },
        decreases board.bh() - y,
    {
        let mut x: usize = 0;
        while x < board.width as usize
            invariant
                board.dims_wf(),
                board.width == old(board).width,
                board.height == old(board).height,
                y < board.bh(),
                x <= board.bw(),
                forall|cx: int, cy: int|
                    old(board).in_bounds(cx, cy) ==> (#[trigger] board.cell(cx, cy)) == if (cy < y
                        || (cy == y && cx < x)) && old(board).cell(cx, cy) == PieceColor::Tracer {
                        PieceColor::Empty
                    } else {
                        old(board).cell(cx, cy)
                    },
            decreases board.bw() - x,
        {
            if board.cells[x][y] == PieceColor::Tracer {
                board.cells[x][y] = PieceColor::Empty;
            }
            x += 1;
        }
        y += 1;
    }
}

/// Removes any previous tracer, then stamps the piece's view anchored at
/// `(x, y)` with the tracer marker.
pub fn draw_tracer(piece: &Piece, board: &mut Board, x: i32, y: i32)
    requires
        old(board).dims_wf(),
        footprint_in_bounds(old(board), piece.view_spec(), x as int, y as int),
    ensures
        final(board).width == old(board).width,
        final(board).height == old(board).height,
        final(board).dims_wf(),
        forall|cx: int, cy: int|
            old(board).in_bounds(cx, cy) ==> (#[trigger] final(board).cell(cx, cy)) == if in_footprint(
                piece.view_spec(),
                x as int,
                y as int,
                cx,
                cy,
            ) {
                PieceColor::Tracer
            } else if old(board).cell(cx, cy) == PieceColor::Tracer {
                PieceColor::Empty
            } else {
                old(board).cell(cx, cy)
            },
{
    remove_tracer(board);
    draw_piece(piece, board, x, y, PieceColor::Tracer);
}

/// The falling piece: a tetromino at integer board coordinates.
#[derive(Clone, Copy, Debug)]
pub struct CurrentPiece {
    pub piece: Piece,
    pub x: i32,
    pub y: i32,
}

/// The same piece turned one step clockwise.
pub open spec fn piece_rotated_right(p: Piece) -> Piece {
    Piece { orientation: rotated_right(p.orientation), ..p }
}

impl CurrentPiece {
    /// Whether the piece's view, anchored at `(x, y)`, would leave the board
    /// or land on an occupied, non-tracer cell.
    pub fn collides(&self, board: &Board, x: i32, y: i32) -> (r: bool)
        requires
            board.dims_wf(),
        ensures
            r == collides_spec(board, self.piece.view_spec(), x as int, y as int),
    {
        let v = self.piece.view();
        let mut k: usize = 0;
        while k < 4
            invariant
                board.dims_wf(),
                k <= 4,
                v@ == self.piece.view_spec(),
                forall|j: int|
                    0 <= j < k ==> !offset_hits(board, #[trigger] self.piece.view_spec()[j], x as int, y as int),
            decreases 4 - k,
        {
            let (dx, dy) = xy(&v[k]);
            let cx = x as i64 + dx as i64;
            let cy = y as i64 + dy as i64;
            if cx < 0 || cx >= board.width as i64 || cy >= board.height as i64 {
                return true;
            }
            if cy >= 0 {
                let c = board.cells[cx as usize][cy as usize];
                if c != PieceColor::Empty && c != PieceColor::Tracer {
                    return true;
                }
            }
            k += 1;
        }
        false
    }

    /// Turn the piece clockwise if the turned piece fits at the current
    /// position; otherwise change nothing.
    pub fn rotate_right(&mut self, board: &Board) -> (r: bool)
        requires
            board.dims_wf(),
        ensures
            r == !collides_spec(
                board,
                piece_rotated_right(old(self).piece).view_spec(),
                old(self).x as int,
                old(self).y as int,
            ),
            r ==> *final(self) == (CurrentPiece {
                piece: piece_rotated_right(old(self).piece),
                ..*old(self)
            }),
            !r ==> *final(self) == *old(self),
    {
        self.piece.rotate_right();
        if self.collides(board, self.x, self.y) {
            self.piece.rotate_left();
            return false;
        }
        true
    }

    /// Move one column left if the piece fits there; otherwise change
    /// nothing.
    pub fn move_left(&mut self, board: &Board) -> (r: bool)
        requires
            board.dims_wf(),
            old(self).x > i32::MIN,
        ensures
            r == !collides_spec(
                board,
                old(self).piece.view_spec(),
                old(self).x - 1,
                old(self).y as int,
            ),
            r ==> *final(self) == (CurrentPiece { x: (old(self).x - 1) as i32, ..*old(self) }),
            !r ==> *final(self) == *old(self),
    {
        let x = self.x - 1;
        if !self.collides(board, x, self.y) {
            self.x = x;
            return true;
        }
        false
    }

    /// Move one column right if the piece fits there; otherwise change
    /// nothing.
    pub fn move_right(&mut self, board: &Board) -> (r: bool)
        requires
            board.dims_wf(),
            old(self).x < i32::MAX,
        ensures
            r == !collides_spec(
                board,
                old(self).piece.view_spec(),
                old(self).x + 1,
                old(self).y as int,
            ),
            r ==> *final(self) == (CurrentPiece { x: (old(self).x + 1) as i32, ..*old(self) }),
            !r ==> *final(self) == *old(self),
    {
        let x = self.x + 1;
        if !self.collides(board, x, self.y) {
            self.x = x;
            return true;
        }
        false
    }

    /// Move one row down if the piece fits there; otherwise change nothing.
    pub fn move_down(&mut self, board: &Board) -> (r: bool)
        requires
            board.dims_wf(),
            old(self).y < i32::MAX,
        ensures
            r == !collides_spec(
                board,
                old(self).piece.view_spec(),
                old(self).x as int,
                old(self).y + 1,
            ),
            r ==> *final(self) == (CurrentPiece { y: (old(self).y + 1) as i32, ..*old(self) }),
            !r ==> *final(self) == *old(self),
    {
        let y = self.y + 1;
        if !self.collides(board, self.x, y) {
            self.y = y;
            return true;
        }
        false
    }
}

} // verus!

verus! {

/// Every cell of row `y` of the grid is occupied. The wall columns always
/// are, so on a walled board this says every interior cell of the row is
/// occupied.
pub open spec fn row_full(g: Seq<Seq<PieceColor>>, y: int) -> bool {
    forall|x: int| 0 <= x < g.len() ==> (#[trigger] g[x])[y] != PieceColor::Empty
}

/// Row `y` is one the clearing scan removes from a grid of height `h`: a
/// full row strictly between the top row and the bottom wall row.
pub open spec fn row_cleared(g: Seq<Seq<PieceColor>>, h: int, y: int) -> bool {
    1 <= y < h - 1 && row_full(g, y)
}

/// How many rows in `[lo, hi)` the clearing scan removes.
pub open spec fn cleared_between(g: Seq<Seq<PieceColor>>, h: int, lo: int, hi: int) -> int
    decreases hi - lo,
{
    if lo >= hi {
        0
    } else {
        cleared_between(g, h, lo, hi - 1) + if row_cleared(g, h, hi - 1) {
            1int
        } else {
            0int
        }
    }
}

/// The index of the `k`-th row (counting from zero) at or below row `from`
/// that the clearing scan keeps.
pub open spec fn nth_kept_from(g: Seq<Seq<PieceColor>>, h: int, from: int, k: int) -> int
    decreases h - from,
{
    if from >= h - 1 {
        from + k
    } else if !row_cleared(g, h, from) {
        if k == 0 {
            from
        } else {
            nth_kept_from(g, h, from + 1, k - 1)
        }
    } else {
        nth_kept_from(g, h, from + 1, k)
    }
}

/// Counting cleared rows splits over adjacent ranges.
pub proof fn lemma_cleared_split(g: Seq<Seq<PieceColor>>, h: int, lo: int, mid: int, hi: int)
    requires
        lo <= mid <= hi,
    ensures
        cleared_between(g, h, lo, hi) == cleared_between(g, h, lo, mid) + cleared_between(g, h, mid, hi),
    decreases hi - mid,
{
    if mid == hi {
    } else {
        lemma_cleared_split(g, h, lo, mid, hi - 1);
    }
}

/// A range of `n` rows holds between zero and `n` cleared rows.
pub proof fn lemma_cleared_nonneg(g: Seq<Seq<PieceColor>>, h: int, lo: int, hi: int)
    requires
        lo <= hi,
    ensures
        0 <= cleared_between(g, h, lo, hi) <= hi - lo,
    decreases hi - lo,
{
    if lo < hi {
        lemma_cleared_nonneg(g, h, lo, hi - 1);
    }
}

/// A kept row `m` is found again as the `k`-th kept row from `from`, where
/// `k` is the number of kept rows in `[from, m)`.
pub proof fn lemma_nth_kept(g: Seq<Seq<PieceColor>>, h: int, from: int, m: int)
    requires
        0 <= from <= m < h - 1,
        !row_cleared(g, h, m),
    ensures
        nth_kept_from(g, h, from, (m - from) - cleared_between(g, h, from, m)) == m,
    decreases m - from,
{
    lemma_cleared_nonneg(g, h, from, m);
    if from == m {
        assert(cleared_between(g, h, m, m) == 0);
        assert(nth_kept_from(g, h, from, 0) == from);
    } else {
        lemma_nth_kept(g, h, from + 1, m);
        lemma_cleared_split(g, h, from, from + 1, m);
        lemma_cleared_nonneg(g, h, from + 1, m);
        assert(cleared_between(g, h, from, from) == 0);
        assert(cleared_between(g, h, from, from + 1) == if row_cleared(g, h, from) {
            1int
        } else {
            0int
        });
        let k = (m - from) - cleared_between(g, h, from, m);
        if row_cleared(g, h, from) {
            assert(k == (m - (from + 1)) - cleared_between(g, h, from + 1, m));
            assert(nth_kept_from(g, h, from, k) == nth_kept_from(g, h, from + 1, k));
        } else {
            assert(k == 1 + (m - (from + 1)) - cleared_between(g, h, from + 1, m));
            assert(k >= 1);
            assert(nth_kept_from(g, h, from, k) == nth_kept_from(g, h, from + 1, k - 1));
        }
    }
}

/// A kept row index stays within the playable rows: the `k`-th kept row at
/// or below `from` lies in `[from, h - 1)` whenever `k` is less than the
/// number of kept rows there.
pub proof fn lemma_nth_kept_range(g: Seq<Seq<PieceColor>>, h: int, from: int, k: int)
    requires
        0 <= from <= h - 1,
        0 <= k,
        k < (h - 1 - from) - cleared_between(g, h, from, h - 1),
    ensures
        from <= nth_kept_from(g, h, from, k) < h - 1,
    decreases h - 1 - from,
{
    lemma_cleared_nonneg(g, h, from, h - 1);
    if from < h - 1 {
        lemma_cleared_split(g, h, from, from + 1, h - 1);
        lemma_cleared_nonneg(g, h, from + 1, h - 1);
        assert(cleared_between(g, h, from, from) == 0);
        assert(cleared_between(g, h, from, from + 1) == if row_cleared(g, h, from) {
            1int
        } else {
            0int
        });
        if !row_cleared(g, h, from) {
            if k > 0 {
                lemma_nth_kept_range(g, h, from + 1, k - 1);
            }
        } else {
            lemma_nth_kept_range(g, h, from + 1, k);
        }
    }
}

/// Copies row `src` onto row `dst`, column by column.
fn copy_row(board: &mut Board, src: usize, dst: usize)
    requires
        old(board).dims_wf(),
        src < old(board).bh(),
        dst < old(board).bh(),
    ensures
        final(board).width == old(board).width,
        final(board).height == old(board).height,
        final(board).dims_wf(),
        forall|a: int, c: int|
            old(board).in_bounds(a, c) ==> (#[trigger] final(board).cell(a, c)) == if c == dst {
                old(board).cell(a, src as int)
            } else {
                old(board).cell(a, c)
            },
{
    let mut x: usize = 0;
    while x < board.width as usize
        invariant
            board.dims_wf(),
            board.width == old(board).width,
            board.height == old(board).height,
            src < board.bh(),
            dst < board.bh(),
            x <= board.bw(),
            forall|a: int, c: int|
                old(board).in_bounds(a, c) ==> (#[trigger] board.cell(a, c)) == if c == dst && a
                    < x {
                    old(board).cell(a, src as int)
                } else {
                    old(board).cell(a, c)
                },
        decreases board.bw() - x,
    {
        let ghost prev = *board;
        let v = board.cells[x][src];
        board.cells[x][dst] = v;
        proof {
            assert(v == prev.cell(x as int, src as int));
            assert forall|a: int, c: int| old(board).in_bounds(a, c) implies (
            #[trigger] board.cell(a, c)) == if c == dst && a < x + 1 {
                old(board).cell(a, src as int)
            } else {
                old(board).cell(a, c)
            } by {
                if a == x && c == dst {
                    assert(board.cell(a, c) == v);
                    assert(prev.cell(x as int, src as int) == old(board).cell(x as int, src as int));
                } else {
                    assert(board.cell(a, c) == prev.cell(a, c));
                }
            }
        }
        x += 1;
    }
}

/// Removes every full row strictly between the top row and the bottom wall
/// row, shifts what is above each removed row down one step, and fills the
/// vacated top rows with copies of the top row — so wherever the top row is
/// empty (as it always is in a reachable game, since piece cells sit at rows
/// one and below), the vacated rows end empty. Returns how many rows were
/// removed.
pub fn clear_lines(board: &mut Board) -> (lines: i32)
    requires
        old(board).dims_wf(),
    ensures
        final(board).width == old(board).width,
        final(board).height == old(board).height,
        final(board).dims_wf(),
        lines as int == cleared_between(old(board).grid(), old(board).bh(), 0, old(board).bh() - 1),
        0 <= lines as int <= old(board).bh() - 1,
        forall|a: int|
            0 <= a < old(board).bw() ==> (#[trigger] final(board).cell(a, old(board).bh() - 1))
                == old(board).cell(a, old(board).bh() - 1),
        forall|a: int, j: int|
            0 <= a < old(board).bw() && 0 <= j < old(board).bh() - 1 ==> (
            #[trigger] final(board).cell(a, j)) == if j < lines as int {
                old(board).cell(a, 0)
            } else {
                old(board).cell(a, nth_kept_from(old(board).grid(), old(board).bh(), 0, j - lines as int))
            },
        forall|a: int, j: int|
            0 <= a < old(board).bw() && 0 <= j < lines as int && old(board).cell(a, 0)
                == PieceColor::Empty ==> (#[trigger] final(board).cell(a, j))
                == PieceColor::Empty,
{
    let w = board.width as usize;
    let h = board.height as usize;

    // First pass: record which rows the scan clears, and count them.
    let mut flags: Vec<bool> = Vec::new();
    let mut count: usize = 0;
    let mut y: usize = 0;
    while y < h - 1
        invariant
            board.dims_wf(),
            *board == *old(board),
            w == board.bw(),
            h == board.bh(),
            y <= h - 1,
            flags@.len() == y,
            forall|j: int| 0 <= j < y ==> flags@[j] == row_cleared(board.grid(), h as int, j),
            count as int == cleared_between(board.grid(), h as int, 0, y as int),
            count <= y,
        decreases h - 1 - y,
    {
        let mut full: bool = true;
        let mut x: usize = 0;
        while x < w
            invariant
                board.dims_wf(),
                w == board.bw(),
                h == board.bh(),
                y < h - 1,
                x <= w,
                full == (forall|a: int|
                    0 <= a < x ==> (#[trigger] board.cell(a, y as int)) != PieceColor::Empty),
            decreases w - x,
        {
            if board.cells[x][y] == PieceColor::Empty {
                full = false;
                proof {
                    assert(board.cell(x as int, y as int) == PieceColor::Empty);
                }
            }
            x += 1;
        }
        let cleared = y >= 1 && full;
        proof {
            assert(board.grid().len() == w);
            if full {
                assert forall|a: int| 0 <= a < board.grid().len() implies (
                #[trigger] board.grid()[a])[y as int] != PieceColor::Empty by {
                    assert(board.grid()[a] == board.cells@[a]@);
                    assert(board.cell(a, y as int) != PieceColor::Empty);
                }
                assert(row_full(board.grid(), y as int));
            } else {
                let a0 = choose|a: int|
                    0 <= a < w && board.cell(a, y as int) == PieceColor::Empty;
                assert(board.grid()[a0] == board.cells@[a0]@);
                assert(board.grid()[a0][y as int] == PieceColor::Empty);
                assert(!row_full(board.grid(), y as int));
            }
            assert(full == row_full(board.grid(), y as int));
            assert(cleared == row_cleared(board.grid(), h as int, y as int));
            assert(cleared_between(board.grid(), h as int, 0, y as int + 1) == cleared_between(
                board.grid(),
                h as int,
                0,
                y as int,
            ) + if row_cleared(board.grid(), h as int, y as int) {
                1int
            } else {
                0int
            });
        }
        flags.push(cleared);
        if cleared {
            count += 1;
        }
        y += 1;
    }

    // Second pass: walk the playable rows bottom-up, copying each kept row
    // down past the cleared rows beneath it.
    let ghost ob = *board;
    let mut src: usize = h - 1;
    let mut dst: usize = h - 1;
    while src > 0
        invariant
            board.dims_wf(),
            board.width == old(board).width,
            board.height == old(board).height,
            ob == *old(board),
            w == board.bw(),
            h == board.bh(),
            src <= h - 1,
            flags@.len() == h - 1,
            forall|j: int| 0 <= j < h - 1 ==> flags@[j] == row_cleared(ob.grid(), h as int, j),
            dst as int == src as int + cleared_between(ob.grid(), h as int, src as int, h - 1),
            dst <= h - 1,
            // Rows not yet reached, the top row, and the bottom wall row are
            // untouched.
            forall|a: int, j: int|
                0 <= a < w && 0 <= j < src ==> (#[trigger] board.cell(a, j)) == ob.cell(a, j),
            forall|a: int| 0 <= a < w ==> (#[trigger] board.cell(a, 0)) == ob.cell(a, 0),
            forall|a: int| 0 <= a < w ==> (#[trigger] board.cell(a, h - 1)) == ob.cell(a, h - 1),
            // Rows already written hold their final content.
            forall|a: int, j: int|
                0 <= a < w && dst <= j < h - 1 ==> (#[trigger] board.cell(a, j)) == ob.cell(
                    a,
                    nth_kept_from(ob.grid(), h as int, src as int, j - dst),
                ),
        decreases src,
    {
        src -= 1;
        proof {
            lemma_cleared_split(ob.grid(), h as int, src as int, src as int + 1, h - 1);
            lemma_cleared_nonneg(ob.grid(), h as int, src as int + 1, h - 1);
            assert(cleared_between(ob.grid(), h as int, src as int, src as int) == 0);
            assert(cleared_between(ob.grid(), h as int, src as int, src as int + 1)
                == if row_cleared(ob.grid(), h as int, src as int) {
                1int
            } else {
                0int
            });
        }
        if !flags[src] {
            dst -= 1;
            let ghost prev = *board;
            if dst != src {
                copy_row(board, src, dst);
            }
            proof {
                assert forall|a: int, j: int|
                    0 <= a < w && dst <= j < h - 1 implies (#[trigger] board.cell(a, j)) == ob.cell(
                    a,
                    nth_kept_from(ob.grid(), h as int, src as int, j - dst),
                ) by {
                    if j == dst {
                        assert(board.cell(a, j) == ob.cell(a, src as int));
                        assert(nth_kept_from(ob.grid(), h as int, src as int, 0) == src as int);
                    } else {
                        assert(board.cell(a, j) == prev.cell(a, j));
                        assert(prev.cell(a, j) == ob.cell(
                            a,
                            nth_kept_from(ob.grid(), h as int, src as int + 1, j - (dst + 1)),
                        ));
                        assert(nth_kept_from(ob.grid(), h as int, src as int, j - dst)
                            == nth_kept_from(ob.grid(), h as int, src as int + 1, j - dst - 1));
                    }
                }
            }
        } else {
            proof {
                assert forall|a: int, j: int|
                    0 <= a < w && dst <= j < h - 1 implies (#[trigger] board.cell(a, j)) == ob.cell(
                    a,
                    nth_kept_from(ob.grid(), h as int, src as int, j - dst),
                ) by {
                    assert(nth_kept_from(ob.grid(), h as int, src as int, j - dst)
                        == nth_kept_from(ob.grid(), h as int, src as int + 1, j - dst));
                }
            }
        }
    }

    // The rows vacated at the top become copies of the top row.
    proof {
        assert(dst == count);
    }
    let mut j: usize = 1;
    while j < count
        invariant
            board.dims_wf(),
            board.width == old(board).width,
            board.height == old(board).height,
            ob == *old(board),
            w == board.bw(),
            h == board.bh(),
            count as int == cleared_between(ob.grid(), h as int, 0, h - 1),
            count <= h - 1,
            1 <= j,
            j <= count || j == 1,
            forall|a: int| 0 <= a < w ==> (#[trigger] board.cell(a, 0)) == ob.cell(a, 0),
            forall|a: int| 0 <= a < w ==> (#[trigger] board.cell(a, h - 1)) == ob.cell(a, h - 1),
            forall|a: int, c: int|
                0 <= a < w && 1 <= c < j ==> (#[trigger] board.cell(a, c)) == ob.cell(a, 0),
            forall|a: int, c: int|
                0 <= a < w && count <= c < h - 1 ==> (#[trigger] board.cell(a, c)) == ob.cell(
                    a,
                    nth_kept_from(ob.grid(), h as int, 0, c - count),
                ),
        decreases count - j,
    {
        let ghost prev = *board;
        copy_row(board, 0, j);
        j += 1;
    }
    proof {
        lemma_cleared_nonneg(ob.grid(), h as int, 0, h - 1);
    }
    count as i32
}

} // verus!

verus! {

/// The border positions of a board: the leftmost and rightmost columns and
/// the bottom row.
pub open spec fn is_border(b: &Board, x: int, y: int) -> bool {
    x == 0 || x == b.bw() - 1 || y == b.bh() - 1
}

/// Every border cell holds a wall.
pub open spec fn walls_wf(b: &Board) -> bool {
    forall|x: int, y: int|
        b.in_bounds(x, y) && is_border(b, x, y) ==> #[trigger] b.cell(x, y) == PieceColor::Wall
}

/// On a walled board, a non-colliding view whose cells sit at or below the
/// top row lies strictly inside the walls: wall cells are occupied, so the
/// view cannot overlap them.
pub proof fn lemma_noncolliding_interior(b: &Board, v: Seq<Offsets>, x: int, y: int)
    requires
        b.dims_wf(),
        walls_wf(b),
        !collides_spec(b, v, x, y),
        forall|k: int| 0 <= k < 4 ==> #[trigger] fp_y(v, y, k) >= 1,
    ensures
        footprint_interior(b, v, x, y),
{
    assert forall|k: int| 0 <= k < 4 implies #[trigger] cell_interior(b, v, x, y, k) by {
        assert(!offset_hits(b, v[k], x, y));
        let cx = fp_x(v, x, k);
        let cy = fp_y(v, y, k);
        assert(0 <= cx < b.bw() && 1 <= cy < b.bh());
        if cx == 0 || cx == b.bw() - 1 || cy == b.bh() - 1 {
            assert(b.cell(cx, cy) == PieceColor::Wall);
            assert(b.cell(cx, cy) == PieceColor::Empty || b.cell(cx, cy) == PieceColor::Tracer);
            assert(false);
        }
    }
}

/// The row at which the view comes to rest when pushed straight down from
/// `(x, y)`: the first row from which it cannot move one step further down.
pub open spec fn drop_y_spec(b: &Board, v: Seq<Offsets>, x: int, y: int) -> int
    decreases b.bh() + 1 - y,
{
    if y >= b.bh() || collides_spec(b, v, x, y + 1) {
        y
    } else {
        drop_y_spec(b, v, x, y + 1)
    }
}

/// Pushing down from anywhere on the way down rests at the same row.
pub proof fn lemma_drop_y_step(b: &Board, v: Seq<Offsets>, x: int, y: int)
    requires
        y < b.bh(),
        !collides_spec(b, v, x, y + 1),
    ensures
        drop_y_spec(b, v, x, y) == drop_y_spec(b, v, x, y + 1),
{
}

/// The grid with the view's four cells at `(x, y)` stamped with `color`.
pub open spec fn stamped_grid(
    g: Seq<Seq<PieceColor>>,
    v: Seq<Offsets>,
    x: int,
    y: int,
    color: PieceColor,
) -> Seq<Seq<PieceColor>> {
    Seq::new(
        g.len(),
        |cx: int|
            Seq::new(
                g[cx].len(),
                |cy: int|
                    if in_footprint(v, x, y, cx, cy) {
                        color
                    } else {
                        g[cx][cy]
                    },
            ),
    )
}

/// One cell of the grid of height `h` that line clearing leaves behind:
/// the bottom wall row stays, the top `n` rows become copies of the top row,
/// and each remaining row is the next kept row from the top.
pub open spec fn cleared_cell(g: Seq<Seq<PieceColor>>, h: int, cx: int, cy: int) -> PieceColor {
    let n = cleared_between(g, h, 0, h - 1);
    if cy == h - 1 {
        g[cx][cy]
    } else if cy < n {
        g[cx][0]
    } else {
        g[cx][nth_kept_from(g, h, 0, cy - n)]
    }
}

/// The piece one column to the left.
pub open spec fn moved_left_spec(p: CurrentPiece) -> CurrentPiece {
    CurrentPiece { x: (p.x - 1) as i32, ..p }
}

/// The piece one column to the right.
pub open spec fn moved_right_spec(p: CurrentPiece) -> CurrentPiece {
    CurrentPiece { x: (p.x + 1) as i32, ..p }
}

/// The piece one row further down.
pub open spec fn moved_down_spec(p: CurrentPiece) -> CurrentPiece {
    CurrentPiece { y: (p.y + 1) as i32, ..p }
}

/// Movement reversibility: when a piece can move one column left, and can
/// also stand where it started, moving left and then right both succeed and
/// restore the original position exactly.
pub proof fn lemma_move_reversible(b: &Board, p: CurrentPiece)
    requires
        b.dims_wf(),
        p.x > i32::MIN,
        !collides_spec(b, p.piece.view_spec(), p.x - 1, p.y as int),
        !collides_spec(b, p.piece.view_spec(), p.x as int, p.y as int),
    ensures
        moved_right_spec(moved_left_spec(p)) == p,
        !collides_spec(
            b,
            moved_left_spec(p).piece.view_spec(),
            moved_left_spec(p).x + 1,
            moved_left_spec(p).y as int,
        ),
{
}

/// Rotation cycle: four clockwise rotations return a piece to exactly its
/// original state.
pub proof fn lemma_rotate_cycle_piece(p: Piece)
    ensures
        piece_rotated_right(
            piece_rotated_right(piece_rotated_right(piece_rotated_right(p))),
        ) == p,
{
    crate::pieces::lemma_rotation_cycle(p.orientation);
}

/// Collision boundary: on a walled board, a piece with a cell against the
/// left wall cannot move left, one with a cell against the right wall cannot
/// move right, and one with a cell on the floor cannot move down.
pub proof fn lemma_collision_boundary(b: &Board, p: CurrentPiece)
    requires
        b.dims_wf(),
        walls_wf(b),
    ensures
        (exists|k: int|
            0 <= k < 4 && #[trigger] fp_x(p.piece.view_spec(), p.x as int, k) == 1 && 0 <= fp_y(
                p.piece.view_spec(),
                p.y as int,
                k,
            ) < b.bh()) ==> collides_spec(b, p.piece.view_spec(), p.x - 1, p.y as int),
        (exists|k: int|
            0 <= k < 4 && #[trigger] fp_x(p.piece.view_spec(), p.x as int, k) == b.bw() - 2 && 0
                <= fp_y(p.piece.view_spec(), p.y as int, k) < b.bh()) ==> collides_spec(
            b,
            p.piece.view_spec(),
            p.x + 1,
            p.y as int,
        ),
        (exists|k: int|
            0 <= k < 4 && #[trigger] fp_y(p.piece.view_spec(), p.y as int, k) == b.bh() - 2 && 0
                <= fp_x(p.piece.view_spec(), p.x as int, k) < b.bw()) ==> collides_spec(
            b,
            p.piece.view_spec(),
            p.x as int,
            p.y + 1,
        ),
{
    let v = p.piece.view_spec();
    let x = p.x as int;
    let y = p.y as int;
    if exists|k: int|
        0 <= k < 4 && #[trigger] fp_x(v, x, k) == 1 && 0 <= fp_y(v, y, k) < b.bh() {
        let k = choose|k: int| 0 <= k < 4 && fp_x(v, x, k) == 1 && 0 <= fp_y(v, y, k) < b.bh();
        let cy = fp_y(v, y, k);
        if cy == b.bh() - 1 || b.cell(0, cy) == PieceColor::Wall {
        }
        assert(b.cell(0, cy) == PieceColor::Wall);
        assert(offset_hits(b, v[k], x - 1, y));
    }
    if exists|k: int|
        0 <= k < 4 && #[trigger] fp_x(v, x, k) == b.bw() - 2 && 0 <= fp_y(v, y, k) < b.bh() {
        let k = choose|k: int|
            0 <= k < 4 && fp_x(v, x, k) == b.bw() - 2 && 0 <= fp_y(v, y, k) < b.bh();
        let cy = fp_y(v, y, k);
        assert(b.cell(b.bw() - 1, cy) == PieceColor::Wall);
        assert(offset_hits(b, v[k], x + 1, y));
    }
    if exists|k: int|
        0 <= k < 4 && #[trigger] fp_y(v, y, k) == b.bh() - 2 && 0 <= fp_x(v, x, k) < b.bw() {
        let k = choose|k: int|
            0 <= k < 4 && fp_y(v, y, k) == b.bh() - 2 && 0 <= fp_x(v, x, k) < b.bw();
        let cx = fp_x(v, x, k);
        assert(b.cell(cx, b.bh() - 1) == PieceColor::Wall);
        assert(offset_hits(b, v[k], x, y + 1));
    }
}

} // verus!
