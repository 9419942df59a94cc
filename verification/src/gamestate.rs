//! The game engine: a state machine over the board, the falling piece, the
//! piece bag, scoring and status, which notifies registered listeners of
//! every state change.
//!
//! The engine keeps the falling piece and the tracer drawn transiently on the
//! board it exposes to renderers. The ghost `committed` board tracks the
//! permanent state underneath: the walls and the locked pieces. Every command
//! contract is stated against the committed board, against which all
//! collision decisions are provably made. A ghost announcement log records
//! every event handed to `emit`, so each command's contract also pins exactly
//! which events it announces.

use vstd::prelude::*;

use crate::bag::Bag;
use crate::board::{
    cell_interior, clear_lines, collides_spec, draw_piece, draw_tracer, drop_y_spec, fp_x, fp_y,
    footprint_in_bounds, footprint_interior, in_footprint, lemma_collides_modulo_tracer,
    lemma_noncolliding_interior, moved_down_spec, piece_rotated_right, remove_piece,
    remove_tracer, same_modulo_tracer, walls_wf, Board, CurrentPiece,
};
use crate::pieces::{lemma_offset_bounds, Orientation, Piece, PieceColor};
use crate::score::{add_saturating, level_for, score_delta};

verus! {

/// How aggressively the board is pre-seeded and how fast gravity ticks.
#[derive(Clone, Copy, PartialEq, Eq, Structural, Debug)]
pub enum Difficulty {
    Easy,
    Medium,
    Hard,
    Insane,
}

/// The pacing a host may choose for the animated hard drop. The engine
/// resolves a drop in one call; a host that wants animation steps the piece
/// itself at this pace.
#[derive(Clone, Copy, PartialEq, Eq, Structural, Debug, Default)]
pub enum DropSpeed {
    Slow,
    Medium,
    #[default]
    Fast,
    Off,
}

/// The lifecycle state of a game.
#[derive(Clone, Copy, PartialEq, Eq, Structural, Debug)]
pub enum GameStatus {
    Running,
    Paused,
    GameOver,
    NotStarted,
}

/// A state-change notification sent to listeners.
#[derive(Clone, Copy, PartialEq, Eq, Structural, Debug)]
pub enum GameEvent {
    ScoreChanged,
    LevelChanged,
    LinesClearedChanged,
    PieceMoved,
    PieceChanged,
    GameOver,
    GameReset,
    GameStarted,
}

/// A listener notified of game state changes. Dispatch is synchronous, on
/// the calling thread, in registration order, against a clone of the
/// listener list; a listener that must share state across dispatches should
/// hold it behind shared ownership.
pub trait EventHandler: Sized + Clone {
    fn handle_event(&mut self, gs: &GameState<Self>, event: &GameEvent);
}

/// The full state of one game.
pub struct GameState<H: EventHandler> {
    current_piece: CurrentPiece,
    next_piece: Piece,
    board: Board,
    difficulty: Difficulty,
    piece_bag: Bag,
    lines: i32,
    level: i32,
    score: i32,
    show_tracer: bool,
    show_next_piece: bool,
    width: u16,
    height: u16,
    undo_used: bool,
    pieces: u16,
    status: GameStatus,
    event_handlers: Vec<H>,
    committed: Ghost<Board>,
    announced: Ghost<Seq<GameEvent>>,
}

/// The next difficulty in the cycle.
pub open spec fn cycled_difficulty(d: Difficulty) -> Difficulty {
    match d {
        Difficulty::Easy => Difficulty::Medium,
        Difficulty::Medium => Difficulty::Hard,
        Difficulty::Hard => Difficulty::Insane,
        Difficulty::Insane => Difficulty::Easy,
    }
}

/// The gravity tick period in milliseconds: a per-difficulty base shortened
/// by fifty milliseconds per level, but never under the per-difficulty floor.
pub open spec fn interval_spec(d: Difficulty, level: int) -> int {
    let base: int = match d {
        Difficulty::Easy => 1000,
        Difficulty::Medium => 800,
        Difficulty::Hard => 700,
        Difficulty::Insane => 500,
    };
    let floor: int = match d {
        Difficulty::Easy => 200,
        Difficulty::Medium => 150,
        Difficulty::Hard => 100,
        Difficulty::Insane => 50,
    };
    if base - level * 50 < floor {
        floor
    } else {
        base - level * 50
    }
}

/// How many pieces the difficulty seeds onto a fresh board.
pub open spec fn seed_count(d: Difficulty) -> int {
    match d {
        Difficulty::Easy => 0,
        Difficulty::Medium => 0,
        Difficulty::Hard => 5,
        Difficulty::Insane => 10,
    }
}

/// The piece kinds the engine holds ready, oldest draw last: the pending bag
/// colors, then the queued piece's color, then the falling piece's color.
pub open spec fn fresh_supply_colors<H: EventHandler>(gs: &GameState<H>) -> Seq<PieceColor> {
    crate::bag::colors_of(gs.spec_bag()).push(gs.spec_next().color).push(
        gs.spec_piece().piece.color,
    )
}

/// The events one score update announces, given the counters before it and
/// the lines cleared: a change notice for each of the line, level and score
/// totals, in that order, for exactly the totals that change.
pub open spec fn score_announcements(lines: int, level: int, score: int, lc: int) -> Seq<
    GameEvent,
> {
    let new_lines = add_saturating(lines, lc);
    let new_level = level_for(new_lines);
    let new_score = add_saturating(score, score_delta(lc, new_level));
    let e1: Seq<GameEvent> = if new_lines != lines {
        seq![GameEvent::LinesClearedChanged]
    } else {
        Seq::empty()
    };
    let e2: Seq<GameEvent> = if new_level != level {
        seq![GameEvent::LevelChanged]
    } else {
        Seq::empty()
    };
    let e3: Seq<GameEvent> = if new_score != score {
        seq![GameEvent::ScoreChanged]
    } else {
        Seq::empty()
    };
    e1 + e2 + e3
}

/// Clearing no lines changes no total and announces nothing: the score
/// update for zero cleared lines is silent.
pub proof fn lemma_zero_lines_announce_nothing(lines: int, level: int, score: int)
    requires
        level == level_for(lines),
        0 <= lines <= i32::MAX as int,
        0 <= score <= i32::MAX as int,
    ensures
        add_saturating(lines, 0) == lines,
        add_saturating(score, score_delta(0, level)) == score,
        score_announcements(lines, level, score, 0) == Seq::<GameEvent>::empty(),
{
    assert(score_announcements(lines, level, score, 0) =~= Seq::<GameEvent>::empty());
}

/// The lock counter after `k` more locks; it stops at the counter's cap.
pub open spec fn locked_plus(locked: int, k: int) -> int {
    if locked + k <= u16::MAX as int {
        locked + k
    } else {
        u16::MAX as int
    }
}

/// No cell of the board holds the tracer marker.
pub open spec fn no_tracer(b: &Board) -> bool {
    forall|cx: int, cy: int|
        b.in_bounds(cx, cy) ==> #[trigger] b.cell(cx, cy) != PieceColor::Tracer
}

/// `b` shows `c` plus possibly some tracer cells where `c` is empty: the
/// state of the exposed board whenever the falling piece is not drawn.
pub open spec fn shows_committed(b: &Board, c: &Board) -> bool {
    forall|cx: int, cy: int|
        b.in_bounds(cx, cy) ==> #[trigger] b.cell(cx, cy) == c.cell(cx, cy) || (b.cell(cx, cy)
            == PieceColor::Tracer && c.cell(cx, cy) == PieceColor::Empty)
}

/// What one cell of the exposed board shows after a redraw, given the
/// committed board `c`, the falling piece `p`, the tracer toggle and the
/// cell's previous content: the piece itself wins, then a freshly placed
/// tracer at the piece's resting row (only if the piece is not already
/// resting), then previous tracer cells are wiped whenever the tracer was
/// recomputed or switched off.
pub open spec fn update_cell_from(
    c: &Board,
    p: CurrentPiece,
    show: bool,
    prev_cell: PieceColor,
    cx: int,
    cy: int,
) -> PieceColor {
    let v = p.piece.view_spec();
    let px = p.x as int;
    let py = p.y as int;
    let ry = drop_y_spec(c, v, px, py);
    if in_footprint(v, px, py, cx, cy) {
        p.piece.color
    } else if show && ry > py && in_footprint(v, px, ry, cx, cy) {
        PieceColor::Tracer
    } else if prev_cell == PieceColor::Tracer && (!show || ry > py) {
        PieceColor::Empty
    } else {
        prev_cell
    }
}

impl<H: EventHandler> GameState<H> {
    /// The board as shown to renderers, with the transient marks.
    pub closed spec fn spec_board(&self) -> Board {
        self.board
    }

    /// The board without the falling piece or tracer: walls and locked
    /// pieces only.
    pub closed spec fn spec_committed(&self) -> Board {
        self.committed@
    }

    /// The falling piece.
    pub closed spec fn spec_piece(&self) -> CurrentPiece {
        self.current_piece
    }

    /// The piece queued to fall next.
    pub closed spec fn spec_next(&self) -> Piece {
        self.next_piece
    }

    /// The pending pieces of the bag.
    pub closed spec fn spec_bag(&self) -> Seq<Piece> {
        self.piece_bag@
    }

    pub closed spec fn spec_score(&self) -> int {
        self.score as int
    }

    pub closed spec fn spec_lines(&self) -> int {
        self.lines as int
    }

    pub closed spec fn spec_level(&self) -> int {
        self.level as int
    }

    pub closed spec fn spec_status(&self) -> GameStatus {
        self.status
    }

    pub closed spec fn spec_difficulty(&self) -> Difficulty {
        self.difficulty
    }

    pub closed spec fn spec_show_tracer(&self) -> bool {
        self.show_tracer
    }

    pub closed spec fn spec_show_next_piece(&self) -> bool {
        self.show_next_piece
    }

    pub closed spec fn spec_undo_used(&self) -> bool {
        self.undo_used
    }

    pub closed spec fn spec_width(&self) -> int {
        self.width as int
    }

    pub closed spec fn spec_height(&self) -> int {
        self.height as int
    }

    /// How many pieces have locked into the board.
    pub closed spec fn spec_pieces_locked(&self) -> int {
        self.pieces as int
    }

    /// The registered listeners.
    pub closed spec fn spec_handlers(&self) -> Seq<H> {
        self.event_handlers@
    }

    /// Every event this instance has announced to its listeners, in order.
    pub closed spec fn spec_events(&self) -> Seq<GameEvent> {
        self.announced@
    }

    /// The falling piece is drawn over the committed board: its cells show
    /// its color and cover committed emptiness, and every other cell shows
    /// the committed board, except that tracer marks may cover empty cells.
    pub closed spec fn piece_drawn(&self) -> bool {
        let v = self.current_piece.piece.view_spec();
        let px = self.current_piece.x as int;
        let py = self.current_piece.y as int;
        &&& forall|cx: int, cy: int|
            self.board.in_bounds(cx, cy) && in_footprint(v, px, py, cx, cy)
                ==> #[trigger] self.board.cell(cx, cy) == self.current_piece.piece.color
                && self.committed@.cell(cx, cy) == PieceColor::Empty
        &&& forall|cx: int, cy: int|
            self.board.in_bounds(cx, cy) && !in_footprint(v, px, py, cx, cy)
                ==> #[trigger] self.board.cell(cx, cy) == self.committed@.cell(cx, cy) || (
                self.board.cell(cx, cy) == PieceColor::Tracer && self.committed@.cell(cx, cy)
                    == PieceColor::Empty)
    }

    /// Basic well-formedness of one game state. The exposed board and the
    /// committed board share dimensions (the playfield plus two wall columns
    /// and a wall row), both keep their walls, the committed board holds no
    /// transient marks, the falling piece is a catalog piece strictly inside
    /// the walls, the bag is sound, and the level matches the line count.
    /// Outside the terminal `GameOver` state, the falling piece is drawn.
    pub closed spec fn wf(&self) -> bool {
        &&& self.width >= 4
        &&& self.height >= 5
        &&& self.board.dims_wf()
        &&& self.board.width as int == self.width as int + 2
        &&& self.board.height as int == self.height as int + 1
        &&& walls_wf(&self.board)
        &&& self.committed@.width == self.board.width
        &&& self.committed@.height == self.board.height
        &&& self.committed@.dims_wf()
        &&& walls_wf(&self.committed@)
        &&& no_tracer(&self.committed@)
        &&& footprint_interior(
            &self.board,
            self.current_piece.piece.view_spec(),
            self.current_piece.x as int,
            self.current_piece.y as int,
        )
        &&& self.current_piece.y >= 2
        &&& self.current_piece.piece.matches_catalog()
        &&& self.next_piece.matches_catalog()
        &&& self.next_piece.orientation == Orientation::Up
        &&& self.piece_bag.wf()
        &&& self.level as int == level_for(self.lines as int)
        &&& 0 <= self.lines
        &&& 0 <= self.score
        &&& if self.status == GameStatus::GameOver {
            shows_committed(&self.board, &self.committed@)
        } else {
            self.piece_drawn()
        }
    }

    /// The parts of the state no command ever changes.
    pub open spec fn same_config(&self, other: &Self) -> bool {
        &&& other.spec_difficulty() == self.spec_difficulty()
        &&& other.spec_show_tracer() == self.spec_show_tracer()
        &&& other.spec_show_next_piece() == self.spec_show_next_piece()
        &&& other.spec_width() == self.spec_width()
        &&& other.spec_height() == self.spec_height()
        &&& other.spec_undo_used() == self.spec_undo_used()
        &&& other.spec_handlers() == self.spec_handlers()
    }

    /// The score, line, level, lock counters and the status.
    pub open spec fn same_progress(&self, other: &Self) -> bool {
        &&& other.spec_score() == self.spec_score()
        &&& other.spec_lines() == self.spec_lines()
        &&& other.spec_level() == self.spec_level()
        &&& other.spec_pieces_locked() == self.spec_pieces_locked()
        &&& other.spec_status() == self.spec_status()
    }

    /// The piece supply: the queued piece and the bag.
    pub open spec fn same_supply(&self, other: &Self) -> bool {
        &&& other.spec_next() == self.spec_next()
        &&& other.spec_bag() == self.spec_bag()
    }

    /// Everything but the exposed board is unchanged.
    pub open spec fn only_board_differs(&self, other: &Self) -> bool {
        &&& self.same_config(other)
        &&& self.same_progress(other)
        &&& self.same_supply(other)
        &&& other.spec_piece() == self.spec_piece()
        &&& other.spec_committed() == self.spec_committed()
        &&& other.spec_events() == self.spec_events()
    }
}

} // verus!

verus! {

impl<H: EventHandler> GameState<H> {
    /// Blanks the falling piece's four cells on the exposed board.
    fn remove_current_piece(&mut self)
        requires
            old(self).board.dims_wf(),
            footprint_in_bounds(
                &old(self).board,
                old(self).current_piece.piece.view_spec(),
                old(self).current_piece.x as int,
                old(self).current_piece.y as int,
            ),
        ensures
            *final(self) == (GameState { board: final(self).board, ..*old(self) }),
            final(self).board.width == old(self).board.width,
            final(self).board.height == old(self).board.height,
            final(self).board.dims_wf(),
            forall|cx: int, cy: int|
                old(self).board.in_bounds(cx, cy) ==> (#[trigger] final(self).board.cell(cx, cy))
                    == if in_footprint(
                    old(self).current_piece.piece.view_spec(),
                    old(self).current_piece.x as int,
                    old(self).current_piece.y as int,
                    cx,
                    cy,
                ) {
                    PieceColor::Empty
                } else {
                    old(self).board.cell(cx, cy)
                },
            old(self).piece_drawn() ==> shows_committed(&final(self).board, &old(self).committed@),
    {
        let ghost b0 = self.board;
        let ghost v = self.current_piece.piece.view_spec();
        let ghost px = self.current_piece.x as int;
        let ghost py = self.current_piece.y as int;
        let p = self.current_piece;
        remove_piece(&p.piece, &mut self.board, p.x, p.y);
        proof {
            if old(self).piece_drawn() {
                assert forall|cx: int, cy: int| self.board.in_bounds(cx, cy) implies (
                #[trigger] self.board.cell(cx, cy)) == self.committed@.cell(cx, cy) || (
                self.board.cell(cx, cy) == PieceColor::Tracer && self.committed@.cell(cx, cy)
                    == PieceColor::Empty) by {
                    assert(b0.in_bounds(cx, cy));
                    if in_footprint(v, px, py, cx, cy) {
                        assert(b0.cell(cx, cy) == old(self).current_piece.piece.color
                            && self.committed@.cell(cx, cy) == PieceColor::Empty);
                        assert(self.board.cell(cx, cy) == PieceColor::Empty);
                    } else {
                        assert(self.board.cell(cx, cy) == b0.cell(cx, cy));
                    }
                }
            }
        }
    }

    /// Recomputes the transient marks on the exposed board: removes or
    /// re-places the tracer at the piece's resting row, then draws the piece.
    /// Expects the piece to not be drawn (the board shows the committed
    /// state), and that the committed board is empty under the piece.
    fn redraw(&mut self)
        requires
            old(self).board.dims_wf(),
            old(self).committed@.dims_wf(),
            old(self).committed@.width == old(self).board.width,
            old(self).committed@.height == old(self).board.height,
            walls_wf(&old(self).committed@),
            no_tracer(&old(self).committed@),
            shows_committed(&old(self).board, &old(self).committed@),
            old(self).current_piece.piece.matches_catalog(),
            old(self).current_piece.y >= 2,
            footprint_interior(
                &old(self).board,
                old(self).current_piece.piece.view_spec(),
                old(self).current_piece.x as int,
                old(self).current_piece.y as int,
            ),
            forall|cx: int, cy: int|
                old(self).board.in_bounds(cx, cy) && in_footprint(
                    old(self).current_piece.piece.view_spec(),
                    old(self).current_piece.x as int,
                    old(self).current_piece.y as int,
                    cx,
                    cy,
                ) ==> old(self).committed@.cell(cx, cy) == PieceColor::Empty,
        ensures
            *final(self) == (GameState { board: final(self).board, ..*old(self) }),
            final(self).board.width == old(self).board.width,
            final(self).board.height == old(self).board.height,
            final(self).board.dims_wf(),
            walls_wf(&final(self).board),
            final(self).piece_drawn(),
            forall|cx: int, cy: int|
                old(self).board.in_bounds(cx, cy) ==> (#[trigger] final(self).board.cell(cx, cy))
                    == update_cell_from(
                    &old(self).committed@,
                    old(self).current_piece,
                    old(self).spec_show_tracer(),
                    old(self).board.cell(cx, cy),
                    cx,
                    cy,
                ),
    {
        let ghost c = self.committed@;
        let ghost b0 = self.board;
        let ghost p0 = self.current_piece;
        let ghost v = self.current_piece.piece.view_spec();
        let ghost px = self.current_piece.x as int;
        let ghost py = self.current_piece.y as int;
        let ghost ry = drop_y_spec(&c, v, px, py);
        proof {
            assert(same_modulo_tracer(&self.board, &c));
        }
        if self.show_tracer {
            let mut tracer = self.current_piece;
            proof {
                lemma_collides_modulo_tracer(&b0, &c, v, px, py);
                assert(!collides_spec(&c, v, px, py)) by {
                    assert forall|k: int| 0 <= k < 4 implies !crate::board::offset_hits(
                        &c,
                        #[trigger] v[k],
                        px,
                        py,
                    ) by {
                        assert(cell_interior(&b0, v, px, py, k));
                        assert(in_footprint(v, px, py, fp_x(v, px, k), fp_y(v, py, k)));
                        assert(c.cell(fp_x(v, px, k), fp_y(v, py, k)) == PieceColor::Empty);
                    }
                }
                assert(cell_interior(&b0, v, px, py, 0));
                lemma_offset_bounds(v[0]);
                assert(py <= c.bh());
            }
            loop
                invariant
                    self.board.dims_wf(),
                    self.board.width == b0.width,
                    self.board.height == b0.height,
                    *self == (GameState { board: self.board, ..*old(self) }),
                    self.show_tracer,
                    c == old(self).committed@,
                    b0 == old(self).board,
                    p0 == old(self).current_piece,
                    v == p0.piece.view_spec(),
                    px == p0.x as int,
                    py == p0.y as int,
                    py >= 2,
                    ry == drop_y_spec(&c, v, px, py),
                    c.dims_wf(),
                    c.width == b0.width,
                    c.height == b0.height,
                    walls_wf(&c),
                    no_tracer(&c),
                    shows_committed(&b0, &c),
                    tracer.piece == p0.piece,
                    tracer.x == p0.x,
                    tracer.y >= p0.y,
                    tracer.y <= c.bh(),
                    !collides_spec(&c, v, px, tracer.y as int),
                    drop_y_spec(&c, v, px, tracer.y as int) == ry,
                    same_modulo_tracer(&self.board, &c),
                    forall|cx: int, cy: int|
                        b0.in_bounds(cx, cy) ==> (#[trigger] self.board.cell(cx, cy))
                            == if tracer.y > py && in_footprint(v, px, tracer.y as int, cx, cy) {
                            PieceColor::Tracer
                        } else if tracer.y > py && b0.cell(cx, cy) == PieceColor::Tracer {
                            PieceColor::Empty
                        } else {
                            b0.cell(cx, cy)
                        },
                ensures
                    collides_spec(&c, v, px, tracer.y as int + 1),
                decreases c.bh() + 1 - tracer.y,
            {
                let ghost yprev = tracer.y as int;
                let moved = tracer.move_down(&self.board);
                proof {
                    lemma_collides_modulo_tracer(&self.board, &c, v, px, yprev + 1);
                }
                if !moved {
                    break;
                }
                proof {
                    assert(!collides_spec(&c, v, px, yprev + 1));
                    assert(yprev < c.bh()) by {
                        assert(!crate::board::offset_hits(&c, v[0], px, yprev + 1));
                        lemma_offset_bounds(v[0]);
                    }
                    crate::board::lemma_drop_y_step(&c, v, px, yprev);
                    assert forall|k: int| 0 <= k < 4 implies #[trigger] fp_y(
                        v,
                        tracer.y as int,
                        k,
                    ) >= 1 by {
                        lemma_offset_bounds(v[k]);
                    }
                    lemma_noncolliding_interior(&c, v, px, tracer.y as int);
                    assert(footprint_in_bounds(&self.board, tracer.piece.view_spec(), tracer.x as int, tracer.y as int)) by {
                        assert forall|k: int| 0 <= k < 4 implies self.board.in_bounds(
                            #[trigger] fp_x(v, px, k),
                            fp_y(v, tracer.y as int, k),
                        ) by {
                            assert(cell_interior(&c, v, px, tracer.y as int, k));
                        }
                    }
                }
                let ghost before = self.board;
                draw_tracer(&tracer.piece, &mut self.board, tracer.x, tracer.y);
                proof {
                    let ty = tracer.y as int;
                    assert forall|cx: int, cy: int| b0.in_bounds(cx, cy) implies (
                    #[trigger] self.board.cell(cx, cy)) == if ty > py && in_footprint(
                        v,
                        px,
                        ty,
                        cx,
                        cy,
                    ) {
                        PieceColor::Tracer
                    } else if ty > py && b0.cell(cx, cy) == PieceColor::Tracer {
                        PieceColor::Empty
                    } else {
                        b0.cell(cx, cy)
                    } by {
                        if in_footprint(v, px, ty, cx, cy) {
                        } else {
                            if before.cell(cx, cy) == PieceColor::Tracer {
                                assert(self.board.cell(cx, cy) == PieceColor::Empty);
                                if yprev > py && in_footprint(v, px, yprev, cx, cy) {
                                    assert(c.cell(cx, cy) == PieceColor::Empty);
                                    assert(b0.cell(cx, cy) == PieceColor::Empty
                                        || b0.cell(cx, cy) == PieceColor::Tracer);
                                } else {
                                    assert(b0.cell(cx, cy) == PieceColor::Tracer);
                                }
                            } else {
                                assert(self.board.cell(cx, cy) == before.cell(cx, cy));
                            }
                        }
                    }
                    assert(same_modulo_tracer(&self.board, &c)) by {
                        assert forall|cx: int, cy: int| self.board.in_bounds(cx, cy) implies (
                        #[trigger] self.board.cell(cx, cy)) == c.cell(cx, cy) || ((self.board.cell(
                            cx,
                            cy,
                        ) == PieceColor::Empty || self.board.cell(cx, cy) == PieceColor::Tracer)
                            && (c.cell(cx, cy) == PieceColor::Empty || c.cell(cx, cy)
                            == PieceColor::Tracer)) by {
                            if tracer.y as int > py && in_footprint(v, px, tracer.y as int, cx, cy) {
                                assert(cell_interior(&c, v, px, tracer.y as int, (choose|k: int|
                                    0 <= k < 4 && cx == fp_x(v, px, k) && cy == fp_y(
                                        v,
                                        tracer.y as int,
                                        k,
                                    ))));
                                assert(!collides_spec(&c, v, px, tracer.y as int));
                                let k = choose|k: int|
                                    0 <= k < 4 && cx == fp_x(v, px, k) && cy == fp_y(
                                        v,
                                        tracer.y as int,
                                        k,
                                    );
                                assert(!crate::board::offset_hits(&c, v[k], px, tracer.y as int));
                                assert(c.cell(cx, cy) == PieceColor::Empty || c.cell(cx, cy)
                                    == PieceColor::Tracer);
                            }
                        }
                    }
                }
            }
            proof {
                assert(drop_y_spec(&c, v, px, tracer.y as int) == tracer.y as int);
                assert(ry == tracer.y as int);
            }
        } else {
            remove_tracer(&mut self.board);
        }
        let p = self.current_piece;
        proof {
            assert(footprint_in_bounds(&self.board, p.piece.view_spec(), p.x as int, p.y as int))
                by {
                assert forall|k: int| 0 <= k < 4 implies self.board.in_bounds(
                    #[trigger] fp_x(v, px, k),
                    fp_y(v, py, k),
                ) by {
                    assert(cell_interior(&b0, v, px, py, k));
                }
            }
        }
        let ghost mid = self.board;
        draw_piece(&p.piece, &mut self.board, p.x, p.y, p.piece.color);
        proof {
            assert forall|cx: int, cy: int| b0.in_bounds(cx, cy) implies (
            #[trigger] self.board.cell(cx, cy)) == update_cell_from(
                &c,
                p0,
                old(self).spec_show_tracer(),
                b0.cell(cx, cy),
                cx,
                cy,
            ) by {
                if in_footprint(v, px, py, cx, cy) {
                } else {
                    assert(self.board.cell(cx, cy) == mid.cell(cx, cy));
                }
            }
            assert(walls_wf(&self.board)) by {
                assert forall|cx: int, cy: int|
                    self.board.in_bounds(cx, cy) && crate::board::is_border(
                        &self.board,
                        cx,
                        cy,
                    ) implies #[trigger] self.board.cell(cx, cy) == PieceColor::Wall by {
                    assert(c.cell(cx, cy) == PieceColor::Wall);
                    assert(b0.cell(cx, cy) == PieceColor::Wall);
                    if in_footprint(v, px, py, cx, cy) {
                        let k = choose|k: int|
                            0 <= k < 4 && cx == fp_x(v, px, k) && cy == fp_y(v, py, k);
                        assert(cell_interior(&b0, v, px, py, k));
                        assert(false);
                    }
                    if old(self).spec_show_tracer() && ry > py && in_footprint(v, px, ry, cx, cy) {
                        assert forall|k: int| 0 <= k < 4 implies #[trigger] fp_y(v, ry, k)
                            >= 1 by {
                            lemma_offset_bounds(v[k]);
                        }
                        lemma_noncolliding_interior(&c, v, px, ry);
                        let k = choose|k: int|
                            0 <= k < 4 && cx == fp_x(v, px, k) && cy == fp_y(v, ry, k);
                        assert(cell_interior(&c, v, px, ry, k));
                        assert(false);
                    }
                }
            }
            assert(final(self).piece_drawn()) by {
                assert forall|cx: int, cy: int|
                    self.board.in_bounds(cx, cy) && !in_footprint(v, px, py, cx, cy) implies (
                #[trigger] self.board.cell(cx, cy)) == c.cell(cx, cy) || (self.board.cell(cx, cy)
                    == PieceColor::Tracer && c.cell(cx, cy) == PieceColor::Empty) by {
                    if old(self).spec_show_tracer() && ry > py && in_footprint(v, px, ry, cx, cy) {
                        assert(!collides_spec(&c, v, px, ry));
                        let k = choose|k: int|
                            0 <= k < 4 && cx == fp_x(v, px, k) && cy == fp_y(v, ry, k);
                        assert(!crate::board::offset_hits(&c, v[k], px, ry));
                        assert(c.cell(cx, cy) == PieceColor::Empty || c.cell(cx, cy)
                            == PieceColor::Tracer);
                        assert(c.cell(cx, cy) == PieceColor::Empty);
                    } else if b0.cell(cx, cy) == PieceColor::Tracer {
                        assert(c.cell(cx, cy) == PieceColor::Empty);
                    }
                }
            }
        }
    }

    /// Re-place the transient marks: the tracer (when enabled) at the
    /// piece's resting row, and the falling piece itself.
    pub fn update_board(&mut self)
        requires
            old(self).wf(),
            old(self).spec_status() != GameStatus::GameOver,
        ensures
            final(self).wf(),
            old(self).only_board_differs(final(self)),
            forall|cx: int, cy: int|
                old(self).spec_board().in_bounds(cx, cy)
                    ==> (#[trigger] final(self).spec_board().cell(cx, cy)) == update_cell_from(
                    &old(self).spec_committed(),
                    old(self).spec_piece(),
                    old(self).spec_show_tracer(),
                    old(self).spec_board().cell(cx, cy),
                    cx,
                    cy,
                ),
    {
        let ghost b0 = self.board;
        let ghost v = self.current_piece.piece.view_spec();
        let ghost px = self.current_piece.x as int;
        let ghost py = self.current_piece.y as int;
        proof {
            assert forall|k: int| 0 <= k < 4 implies old(self).board.in_bounds(
                #[trigger] fp_x(v, px, k),
                fp_y(v, py, k),
            ) by {
                assert(cell_interior(&old(self).board, v, px, py, k));
            }
        }
        self.remove_current_piece();
        proof {
            assert(shows_committed(&self.board, &self.committed@)) by {
                assert forall|cx: int, cy: int| self.board.in_bounds(cx, cy) implies (
                #[trigger] self.board.cell(cx, cy)) == self.committed@.cell(cx, cy) || (
                self.board.cell(cx, cy) == PieceColor::Tracer && self.committed@.cell(cx, cy)
                    == PieceColor::Empty) by {
                    if in_footprint(v, px, py, cx, cy) {
                        assert(self.board.cell(cx, cy) == PieceColor::Empty);
                        assert(self.committed@.cell(cx, cy) == PieceColor::Empty);
                    } else {
                        assert(self.board.cell(cx, cy) == b0.cell(cx, cy));
                    }
                }
            }
            assert(footprint_interior(&self.board, v, px, py)) by {
                assert forall|k: int| 0 <= k < 4 implies #[trigger] cell_interior(
                    &self.board,
                    v,
                    px,
                    py,
                    k,
                ) by {
                    assert(cell_interior(&b0, v, px, py, k));
                }
            }
            assert forall|cx: int, cy: int|
                self.board.in_bounds(cx, cy) && in_footprint(v, px, py, cx, cy) implies (
            #[trigger] self.committed@.cell(cx, cy)) == PieceColor::Empty by {
                assert(old(self).piece_drawn());
                assert(old(self).board.in_bounds(cx, cy));
                assert(old(self).board.cell(cx, cy) == old(self).current_piece.piece.color
                    && old(self).committed@.cell(cx, cy) == PieceColor::Empty);
            }
        }
        self.redraw();
        proof {
            assert forall|cx: int, cy: int| b0.in_bounds(cx, cy) implies (
            #[trigger] self.board.cell(cx, cy)) == update_cell_from(
                &old(self).committed@,
                old(self).current_piece,
                old(self).spec_show_tracer(),
                b0.cell(cx, cy),
                cx,
                cy,
            ) by {
                if in_footprint(v, px, py, cx, cy) {
                } else {
                }
            }
            assert(footprint_interior(&self.board, v, px, py)) by {
                assert forall|k: int| 0 <= k < 4 implies #[trigger] cell_interior(
                    &self.board,
                    v,
                    px,
                    py,
                    k,
                ) by {
                    assert(cell_interior(&b0, v, px, py, k));
                }
            }
        }
    }
}

} // verus!

verus! {

impl<H: EventHandler> GameState<H> {
    /// Everything but the falling piece and the exposed board is unchanged.
    pub open spec fn same_core(&self, other: &Self) -> bool {
        &&& self.same_config(other)
        &&& self.same_progress(other)
        &&& self.same_supply(other)
        &&& other.spec_committed() == self.spec_committed()
    }

    /// A well-formed, not-yet-over game can hold its falling piece where it
    /// stands: the piece never overlaps walls or locked cells.
    proof fn lemma_piece_placeable(&self)
        requires
            self.wf(),
            self.spec_status() != GameStatus::GameOver,
        ensures
            !collides_spec(
                &self.spec_committed(),
                self.spec_piece().piece.view_spec(),
                self.spec_piece().x as int,
                self.spec_piece().y as int,
            ),
    {
        let v = self.current_piece.piece.view_spec();
        let px = self.current_piece.x as int;
        let py = self.current_piece.y as int;
        assert(self.piece_drawn());
        assert forall|k: int| 0 <= k < 4 implies !crate::board::offset_hits(
            &self.committed@,
            #[trigger] v[k],
            px,
            py,
        ) by {
            assert(cell_interior(&self.board, v, px, py, k));
            assert(self.board.in_bounds(fp_x(v, px, k), fp_y(v, py, k)));
            assert(in_footprint(v, px, py, fp_x(v, px, k), fp_y(v, py, k)));
            assert(self.board.cell(fp_x(v, px, k), fp_y(v, py, k))
                == self.current_piece.piece.color);
            assert(self.committed@.cell(fp_x(v, px, k), fp_y(v, py, k)) == PieceColor::Empty);
        }
    }

    /// The falling piece's coordinates sit close to the board, away from the
    /// extremes of `i32`.
    proof fn lemma_piece_coords(&self)
        requires
            self.wf(),
        ensures
            -2 <= self.spec_piece().x <= self.spec_board().bw(),
            0 <= self.spec_piece().y <= self.spec_board().bh(),
    {
        let v = self.current_piece.piece.view_spec();
        let px = self.current_piece.x as int;
        let py = self.current_piece.y as int;
        assert(cell_interior(&self.board, v, px, py, 0));
        lemma_offset_bounds(v[0]);
    }

    /// Redraws the transient marks for a piece that provably fits where it
    /// stands, against a board that currently shows the committed state.
    fn redraw_at_piece(&mut self)
        requires
            old(self).board.dims_wf(),
            old(self).committed@.dims_wf(),
            old(self).committed@.width == old(self).board.width,
            old(self).committed@.height == old(self).board.height,
            walls_wf(&old(self).committed@),
            no_tracer(&old(self).committed@),
            shows_committed(&old(self).board, &old(self).committed@),
            old(self).current_piece.piece.matches_catalog(),
            old(self).current_piece.y >= 2,
            !collides_spec(
                &old(self).committed@,
                old(self).current_piece.piece.view_spec(),
                old(self).current_piece.x as int,
                old(self).current_piece.y as int,
            ),
        ensures
            *final(self) == (GameState { board: final(self).board, ..*old(self) }),
            final(self).board.width == old(self).board.width,
            final(self).board.height == old(self).board.height,
            final(self).board.dims_wf(),
            walls_wf(&final(self).board),
            final(self).piece_drawn(),
            footprint_interior(
                &final(self).board,
                old(self).current_piece.piece.view_spec(),
                old(self).current_piece.x as int,
                old(self).current_piece.y as int,
            ),
            forall|cx: int, cy: int|
                old(self).board.in_bounds(cx, cy) ==> (#[trigger] final(self).board.cell(cx, cy))
                    == update_cell_from(
                    &old(self).committed@,
                    old(self).current_piece,
                    old(self).spec_show_tracer(),
                    old(self).board.cell(cx, cy),
                    cx,
                    cy,
                ),
    {
        let ghost c = self.committed@;
        let ghost v = self.current_piece.piece.view_spec();
        let ghost px = self.current_piece.x as int;
        let ghost py = self.current_piece.y as int;
        proof {
            assert forall|k: int| 0 <= k < 4 implies #[trigger] fp_y(v, py, k) >= 1 by {
                lemma_offset_bounds(v[k]);
            }
            lemma_noncolliding_interior(&c, v, px, py);
            assert(footprint_interior(&self.board, v, px, py)) by {
                assert forall|k: int| 0 <= k < 4 implies #[trigger] cell_interior(
                    &self.board,
                    v,
                    px,
                    py,
                    k,
                ) by {
                    assert(cell_interior(&c, v, px, py, k));
                }
            }
            assert forall|cx: int, cy: int|
                self.board.in_bounds(cx, cy) && in_footprint(v, px, py, cx, cy) implies (
            #[trigger] self.committed@.cell(cx, cy)) == PieceColor::Empty by {
                let k = choose|k: int| 0 <= k < 4 && cx == fp_x(v, px, k) && cy == fp_y(v, py, k);
                assert(!crate::board::offset_hits(&c, v[k], px, py));
                assert(c.cell(cx, cy) == PieceColor::Empty || c.cell(cx, cy)
                    == PieceColor::Tracer);
                assert(c.in_bounds(cx, cy));
            }
        }
        self.redraw();
        proof {
            assert forall|k: int| 0 <= k < 4 implies #[trigger] cell_interior(
                &self.board,
                v,
                px,
                py,
                k,
            ) by {
                assert(cell_interior(&c, v, px, py, k));
            }
        }
    }

    /// The column and row where new pieces spawn: the middle of the
    /// playfield, two rows down.
    pub fn get_initial_position(&self) -> (r: (u16, u16))
        ensures
            r.0 as int == self.spec_width() / 2,
            r.1 == 2,
    {
        (self.width / 2, 2)
    }

    /// The difficulty level.
    pub fn get_difficulty(&self) -> (r: &Difficulty)
        ensures
            *r == self.spec_difficulty(),
    {
        &self.difficulty
    }

    /// The piece queued to fall next.
    pub fn get_next_piece(&self) -> (r: &Piece)
        ensures
            *r == self.spec_next(),
    {
        &self.next_piece
    }

    /// The score, total lines cleared, and level.
    pub fn get_score(&self) -> (r: (i32, i32, i32))
        ensures
            r.0 as int == self.spec_score(),
            r.1 as int == self.spec_lines(),
            r.2 as int == self.spec_level(),
    {
        (self.score, self.lines, self.level)
    }

    /// The current status of the game.
    pub fn get_status(&self) -> (r: &GameStatus)
        ensures
            *r == self.spec_status(),
    {
        &self.status
    }

    /// The falling piece.
    pub fn get_current_piece(&self) -> (r: &CurrentPiece)
        ensures
            *r == self.spec_piece(),
    {
        &self.current_piece
    }

    /// The board as shown to renderers, transient marks included.
    pub fn get_board(&self) -> (r: &Board)
        ensures
            *r == self.spec_board(),
    {
        &self.board
    }

    /// Whether the next piece should be shown.
    pub fn get_show_next_piece(&self) -> (r: bool)
        ensures
            r == self.spec_show_next_piece(),
    {
        self.show_next_piece
    }

    /// Whether the tracer should be shown.
    pub fn get_show_tracer(&self) -> (r: bool)
        ensures
            r == self.spec_show_tracer(),
    {
        self.show_tracer
    }

    /// Whether a snapshot has been restored in this game.
    pub fn get_undo_used(&self) -> (r: bool)
        ensures
            r == self.spec_undo_used(),
    {
        self.undo_used
    }

    /// Sends the event to every registered listener, in registration order,
    /// and records it in the announcement log. Listeners receive a read-only
    /// view of the state, so everything but the log is exactly as before.
    pub fn emit(&mut self, event: &GameEvent)
        ensures
            final(self).spec_events() == old(self).spec_events().push(*event),
            final(self).spec_board() == old(self).spec_board(),
            final(self).spec_committed() == old(self).spec_committed(),
            final(self).spec_piece() == old(self).spec_piece(),
            old(self).same_config(final(self)),
            old(self).same_progress(final(self)),
            old(self).same_supply(final(self)),
            old(self).wf() ==> final(self).wf(),
    {
        let ghost log = self.announced@;
        self.announced = Ghost(log.push(*event));
        let mut handlers = self.event_handlers.clone();
        let ghost n = handlers@.len();
        let mut i: usize = 0;
        while i < handlers.len()
            invariant
                *self == (GameState { announced: Ghost(log.push(*event)), ..*old(self) }),
                handlers@.len() == n,
                i <= n,
            decreases n - i,
        {
            let h = &mut handlers[i];
            h.handle_event(self, event);
            i += 1;
        }
    }

    /// Registers a listener for game events.
    pub fn add_event_handler(&mut self, handler: H)
        requires
            old(self).wf(),
        ensures
            final(self).wf(),
            final(self).spec_handlers() == old(self).spec_handlers().push(handler),
            final(self).spec_board() == old(self).spec_board(),
            final(self).spec_committed() == old(self).spec_committed(),
            final(self).spec_piece() == old(self).spec_piece(),
            old(self).same_progress(final(self)),
            old(self).same_supply(final(self)),
            final(self).spec_difficulty() == old(self).spec_difficulty(),
            final(self).spec_show_tracer() == old(self).spec_show_tracer(),
            final(self).spec_show_next_piece() == old(self).spec_show_next_piece(),
            final(self).spec_width() == old(self).spec_width(),
            final(self).spec_height() == old(self).spec_height(),
            final(self).spec_undo_used() == old(self).spec_undo_used(),
            final(self).spec_events() == old(self).spec_events(),
    {
        self.event_handlers.push(handler);
    }

    /// Start, or resume, the game. A finished game stays finished: a fresh
    /// `GameState` is the only way back from `GameOver`.
    pub fn start(&mut self)
        requires
            old(self).wf(),
        ensures
            final(self).wf(),
            old(self).spec_status() == GameStatus::GameOver ==> *final(self) == *old(self),
            old(self).spec_status() != GameStatus::GameOver ==> {
                &&& final(self).spec_status() == GameStatus::Running
                &&& old(self).same_config(final(self))
                &&& old(self).same_supply(final(self))
                &&& final(self).spec_piece() == old(self).spec_piece()
                &&& final(self).spec_board() == old(self).spec_board()
                &&& final(self).spec_committed() == old(self).spec_committed()
                &&& final(self).spec_score() == old(self).spec_score()
                &&& final(self).spec_lines() == old(self).spec_lines()
                &&& final(self).spec_level() == old(self).spec_level()
                &&& final(self).spec_pieces_locked() == old(self).spec_pieces_locked()
                &&& final(self).spec_events() == old(self).spec_events().push(
                    GameEvent::GameStarted,
                )
            },
    {
        if self.status == GameStatus::GameOver {
            return ;
        }
        self.status = GameStatus::Running;
        self.emit(&GameEvent::GameStarted);
    }

    /// Toggle the tracer that shows where the piece would land, and re-place
    /// the transient marks accordingly.
    pub fn toggle_tracer(&mut self)
        requires
            old(self).wf(),
        ensures
            final(self).wf(),
            final(self).spec_show_tracer() == !old(self).spec_show_tracer(),
            old(self).same_progress(final(self)),
            old(self).same_supply(final(self)),
            final(self).spec_piece() == old(self).spec_piece(),
            final(self).spec_committed() == old(self).spec_committed(),
            final(self).spec_difficulty() == old(self).spec_difficulty(),
            final(self).spec_show_next_piece() == old(self).spec_show_next_piece(),
            final(self).spec_width() == old(self).spec_width(),
            final(self).spec_height() == old(self).spec_height(),
            final(self).spec_undo_used() == old(self).spec_undo_used(),
            final(self).spec_handlers() == old(self).spec_handlers(),
            final(self).spec_events() == old(self).spec_events().push(GameEvent::PieceMoved),
            old(self).spec_status() == GameStatus::GameOver ==> final(self).spec_board()
                == old(self).spec_board(),
    {
        self.show_tracer = !self.show_tracer;
        if self.status != GameStatus::GameOver {
            self.update_board();
        }
        self.emit(&GameEvent::PieceMoved);
    }

    /// Toggle the display of the next piece.
    pub fn toggle_show_next_piece(&mut self)
        requires
            old(self).wf(),
        ensures
            final(self).wf(),
            final(self).spec_show_next_piece() == !old(self).spec_show_next_piece(),
            old(self).same_progress(final(self)),
            old(self).same_supply(final(self)),
            final(self).spec_piece() == old(self).spec_piece(),
            final(self).spec_board() == old(self).spec_board(),
            final(self).spec_committed() == old(self).spec_committed(),
            final(self).spec_difficulty() == old(self).spec_difficulty(),
            final(self).spec_show_tracer() == old(self).spec_show_tracer(),
            final(self).spec_width() == old(self).spec_width(),
            final(self).spec_height() == old(self).spec_height(),
            final(self).spec_undo_used() == old(self).spec_undo_used(),
            final(self).spec_handlers() == old(self).spec_handlers(),
            final(self).spec_events() == old(self).spec_events().push(GameEvent::PieceChanged),
    {
        self.show_next_piece = !self.show_next_piece;
        self.emit(&GameEvent::PieceChanged);
    }

    /// The gravity tick period in milliseconds for the current difficulty
    /// and level. Advisory: the host drives the tick.
    pub fn get_piece_interval(&self) -> (r: u16)
        requires
            self.wf(),
        ensures
            r as int == interval_spec(self.spec_difficulty(), self.spec_level()),
    {
        let bounds: (i64, i64) = match self.difficulty {
            Difficulty::Easy => (1000, 200),
            Difficulty::Medium => (800, 150),
            Difficulty::Hard => (700, 100),
            Difficulty::Insane => (500, 50),
        };
        let interval = bounds.0 - (self.level as i64) * 50;
        if interval < bounds.1 {
            bounds.1 as u16
        } else {
            interval as u16
        }
    }

    /// Step the difficulty through its fixed cycle. Takes effect on speed at
    /// once; seeding only applies to a newly built game.
    pub fn cycle_difficulty(&mut self)
        requires
            old(self).wf(),
        ensures
            final(self).wf(),
            final(self).spec_difficulty() == cycled_difficulty(old(self).spec_difficulty()),
            old(self).same_progress(final(self)),
            old(self).same_supply(final(self)),
            final(self).spec_piece() == old(self).spec_piece(),
            final(self).spec_board() == old(self).spec_board(),
            final(self).spec_committed() == old(self).spec_committed(),
            final(self).spec_show_tracer() == old(self).spec_show_tracer(),
            final(self).spec_show_next_piece() == old(self).spec_show_next_piece(),
            final(self).spec_width() == old(self).spec_width(),
            final(self).spec_height() == old(self).spec_height(),
            final(self).spec_undo_used() == old(self).spec_undo_used(),
            final(self).spec_handlers() == old(self).spec_handlers(),
            final(self).spec_events() == old(self).spec_events(),
    {
        self.difficulty = match self.difficulty {
            Difficulty::Easy => Difficulty::Medium,
            Difficulty::Medium => Difficulty::Hard,
            Difficulty::Hard => Difficulty::Insane,
            Difficulty::Insane => Difficulty::Easy,
        };
    }

    /// Fold a lock's cleared-line count into the lines, level and score, and
    /// announce each change. The totals stop at the largest `i32` rather
    /// than overflow.
    #[verifier::rlimit(50)]
    pub fn update_score(&mut self, lines_cleared: i32)
        requires
            old(self).spec_level() == level_for(old(self).spec_lines()),
            0 <= old(self).spec_lines(),
            0 <= old(self).spec_score(),
            0 <= lines_cleared,
        ensures
            old(self).wf() ==> final(self).wf(),
            final(self).spec_level() == level_for(final(self).spec_lines()),
            0 <= final(self).spec_lines(),
            0 <= final(self).spec_score(),
            final(self).spec_lines() == add_saturating(
                old(self).spec_lines(),
                lines_cleared as int,
            ),
            final(self).spec_score() == add_saturating(
                old(self).spec_score(),
                score_delta(lines_cleared as int, final(self).spec_level()),
            ),
            final(self).spec_status() == old(self).spec_status(),
            final(self).spec_pieces_locked() == old(self).spec_pieces_locked(),
            old(self).same_config(final(self)),
            old(self).same_supply(final(self)),
            final(self).spec_piece() == old(self).spec_piece(),
            final(self).spec_board() == old(self).spec_board(),
            final(self).spec_committed() == old(self).spec_committed(),
            final(self).spec_events() == old(self).spec_events() + score_announcements(
                old(self).spec_lines(),
                old(self).spec_level(),
                old(self).spec_score(),
                lines_cleared as int,
            ),
    {
        let ghost ann = score_announcements(
            self.spec_lines(),
            self.spec_level(),
            self.spec_score(),
            lines_cleared as int,
        );
        let ghost log0 = self.spec_events();
        let lines = if self.lines > i32::MAX - lines_cleared {
            i32::MAX
        } else {
            self.lines + lines_cleared
        };
        let level = lines / 10 + 1;
        let mult: i64 = if lines_cleared == 1 {
            100
        } else if lines_cleared == 2 {
            300
        } else if lines_cleared == 3 {
            500
        } else if lines_cleared == 4 {
            800
        } else {
            0
        };
        let total: i64 = (self.score as i64) + mult * (level as i64);
        let score = if total > i32::MAX as i64 {
            i32::MAX
        } else {
            total as i32
        };
        if self.lines != lines {
            self.lines = lines;
            self.emit(&GameEvent::LinesClearedChanged);
        }
        if self.level != level {
            self.level = level;
            self.emit(&GameEvent::LevelChanged);
        }
        if self.score != score {
            self.score = score;
            self.emit(&GameEvent::ScoreChanged);
        }
        proof {
            assert(self.spec_events() =~= log0 + ann);
        }
    }
}

} // verus!

verus! {

impl<H: EventHandler> GameState<H> {
    /// Move the falling piece one column left. Only a running game moves;
    /// the move is taken exactly when the piece fits one column to the left
    /// of the committed board, and a rejected move changes nothing about the
    /// piece.
    pub fn move_left(&mut self) -> (r: bool)
        requires
            old(self).wf(),
        ensures
            final(self).wf(),
            old(self).spec_status() != GameStatus::Running ==> !r && *final(self) == *old(self),
            old(self).spec_status() == GameStatus::Running ==> {
                &&& old(self).same_core(final(self))
                &&& final(self).spec_events() == if r {
                    old(self).spec_events().push(GameEvent::PieceMoved)
                } else {
                    old(self).spec_events()
                }
                &&& r == !collides_spec(
                    &old(self).spec_committed(),
                    old(self).spec_piece().piece.view_spec(),
                    old(self).spec_piece().x - 1,
                    old(self).spec_piece().y as int,
                )
                &&& final(self).spec_piece() == if r {
                    crate::board::moved_left_spec(old(self).spec_piece())
                } else {
                    old(self).spec_piece()
                }
            },
    {
        if self.status != GameStatus::Running {
            return false;
        }
        self.nudge_left()
    }

    /// Move the falling piece one column right; as `move_left`, mirrored.
    pub fn move_right(&mut self) -> (r: bool)
        requires
            old(self).wf(),
        ensures
            final(self).wf(),
            old(self).spec_status() != GameStatus::Running ==> !r && *final(self) == *old(self),
            old(self).spec_status() == GameStatus::Running ==> {
                &&& old(self).same_core(final(self))
                &&& final(self).spec_events() == if r {
                    old(self).spec_events().push(GameEvent::PieceMoved)
                } else {
                    old(self).spec_events()
                }
                &&& r == !collides_spec(
                    &old(self).spec_committed(),
                    old(self).spec_piece().piece.view_spec(),
                    old(self).spec_piece().x + 1,
                    old(self).spec_piece().y as int,
                )
                &&& final(self).spec_piece() == if r {
                    crate::board::moved_right_spec(old(self).spec_piece())
                } else {
                    old(self).spec_piece()
                }
            },
    {
        if self.status != GameStatus::Running {
            return false;
        }
        self.nudge_right()
    }

    /// Move the falling piece one row down; as `move_left`, downward.
    pub fn move_down(&mut self) -> (r: bool)
        requires
            old(self).wf(),
        ensures
            final(self).wf(),
            old(self).spec_status() != GameStatus::Running ==> !r && *final(self) == *old(self),
            old(self).spec_status() == GameStatus::Running ==> {
                &&& old(self).same_core(final(self))
                &&& final(self).spec_events() == if r {
                    old(self).spec_events().push(GameEvent::PieceMoved)
                } else {
                    old(self).spec_events()
                }
                &&& r == !collides_spec(
                    &old(self).spec_committed(),
                    old(self).spec_piece().piece.view_spec(),
                    old(self).spec_piece().x as int,
                    old(self).spec_piece().y + 1,
                )
                &&& final(self).spec_piece() == if r {
                    moved_down_spec(old(self).spec_piece())
                } else {
                    old(self).spec_piece()
                }
            },
    {
        if self.status != GameStatus::Running {
            return false;
        }
        self.nudge_down()
    }

    /// Turn the falling piece one step clockwise. The turn is taken exactly
    /// when the turned piece fits at the unchanged position on the committed
    /// board; a rejected turn leaves the piece bit-for-bit as it was.
    pub fn rotate_right(&mut self) -> (r: bool)
        requires
            old(self).wf(),
        ensures
            final(self).wf(),
            old(self).spec_status() != GameStatus::Running ==> !r && *final(self) == *old(self),
            old(self).spec_status() == GameStatus::Running ==> {
                &&& old(self).same_core(final(self))
                &&& final(self).spec_events() == if r {
                    old(self).spec_events().push(GameEvent::PieceMoved)
                } else {
                    old(self).spec_events()
                }
                &&& r == !collides_spec(
                    &old(self).spec_committed(),
                    piece_rotated_right(old(self).spec_piece().piece).view_spec(),
                    old(self).spec_piece().x as int,
                    old(self).spec_piece().y as int,
                )
                &&& final(self).spec_piece() == if r {
                    (CurrentPiece {
                        piece: piece_rotated_right(old(self).spec_piece().piece),
                        ..old(self).spec_piece()
                    })
                } else {
                    old(self).spec_piece()
                }
            },
    {
        if self.status != GameStatus::Running {
            return false;
        }
        self.nudge_rotate_right()
    }
}

} // verus!

verus! {

impl<H: EventHandler> GameState<H> {
    /// The events one lock announces: the change notices of the score update
    /// for the rows the stamped piece cleared, then `GameOver` when the
    /// spawned piece does not fit, else `PieceChanged`.
    pub open spec fn lock_announcements(pre: &Self, p: CurrentPiece, post: &Self) -> Seq<
        GameEvent,
    > {
        let c = pre.spec_committed();
        let locked = crate::board::stamped_grid(
            c.grid(),
            p.piece.view_spec(),
            p.x as int,
            p.y as int,
            p.piece.color,
        );
        let n = crate::board::cleared_between(locked, c.bh(), 0, c.bh() - 1);
        let spawned = post.spec_piece();
        let over = collides_spec(
            &post.spec_committed(),
            spawned.piece.view_spec(),
            spawned.x as int,
            spawned.y as int,
        );
        score_announcements(pre.spec_lines(), pre.spec_level(), pre.spec_score(), n) + if over {
            seq![GameEvent::GameOver]
        } else {
            seq![GameEvent::PieceChanged]
        }
    }

    /// One lock of the piece `p` into `pre`'s committed board, leading to
    /// `post`: the piece's cells are stamped, full rows are cleared and
    /// folded into the score, the queued piece spawns at the top-center, a
    /// fresh piece is drawn from the bag, and the game ends exactly when the
    /// spawned piece collides on the new committed board.
    pub open spec fn lock_step_at(pre: &Self, p: CurrentPiece, post: &Self) -> bool {
        let c = pre.spec_committed();
        let locked = crate::board::stamped_grid(
            c.grid(),
            p.piece.view_spec(),
            p.x as int,
            p.y as int,
            p.piece.color,
        );
        let h = c.bh();
        let n = crate::board::cleared_between(locked, h, 0, h - 1);
        let spawned = post.spec_piece();
        let over = collides_spec(
            &post.spec_committed(),
            spawned.piece.view_spec(),
            spawned.x as int,
            spawned.y as int,
        );
        &&& pre.same_config(post)
        &&& post.spec_pieces_locked() == if pre.spec_pieces_locked() < u16::MAX as int {
            pre.spec_pieces_locked() + 1
        } else {
            pre.spec_pieces_locked()
        }
        &&& post.spec_lines() == add_saturating(pre.spec_lines(), n)
        &&& post.spec_level() == level_for(post.spec_lines())
        &&& post.spec_score() == add_saturating(
            pre.spec_score(),
            score_delta(n, post.spec_level()),
        )
        &&& post.spec_committed().width == c.width
        &&& post.spec_committed().height == c.height
        &&& forall|cx: int, cy: int|
            c.in_bounds(cx, cy) ==> (#[trigger] post.spec_committed().cell(cx, cy))
                == crate::board::cleared_cell(locked, h, cx, cy)
        &&& spawned.piece == pre.spec_next()
        &&& spawned.x as int == pre.spec_width() / 2
        &&& spawned.y == 2
        &&& post.spec_status() == if over {
            GameStatus::GameOver
        } else {
            pre.spec_status()
        }
        &&& pre.spec_bag().len() > 0 ==> post.spec_bag() == pre.spec_bag().drop_last()
            && post.spec_next() == pre.spec_bag().last()
        &&& pre.spec_bag().len() == 0 ==> post.spec_bag().len() == 6
        &&& post.spec_next().matches_catalog()
    }

    /// Lock the falling piece where it stands: commit its cells, clear full
    /// rows, update the score, spawn the queued piece and draw a new one
    /// from the bag. Returns whether the spawned piece fits; `false` means
    /// the game just ended.
    pub fn piece_hit_bottom(&mut self) -> (r: bool)
        requires
            old(self).wf(),
            old(self).spec_status() != GameStatus::GameOver,
        ensures
            final(self).wf(),
            Self::lock_step_at(old(self), old(self).spec_piece(), final(self)),
            r == (final(self).spec_status() != GameStatus::GameOver),
            final(self).spec_events() == old(self).spec_events() + Self::lock_announcements(
                old(self),
                old(self).spec_piece(),
                final(self),
            ),
    {
        let ghost c0 = self.committed@;
        let ghost p0 = self.current_piece;
        let ghost v = p0.piece.view_spec();
        let ghost px = p0.x as int;
        let ghost py = p0.y as int;
        let ghost locked = crate::board::stamped_grid(c0.grid(), v, px, py, p0.piece.color);
        let ghost h = c0.bh();
        let ghost b0 = self.board;

        if self.pieces < u16::MAX {
            self.pieces = self.pieces + 1;
        }
        remove_tracer(&mut self.board);
        let p = self.current_piece;
        proof {
            assert(footprint_in_bounds(&self.board, v, px, py)) by {
                assert forall|k: int| 0 <= k < 4 implies self.board.in_bounds(
                    #[trigger] fp_x(v, px, k),
                    fp_y(v, py, k),
                ) by {
                    assert(cell_interior(&b0, v, px, py, k));
                }
            }
        }
        let ghost mid = self.board;
        draw_piece(&p.piece, &mut self.board, p.x, p.y, p.piece.color);
        proof {
            assert(old(self).piece_drawn());
            assert(self.board.grid() =~~= locked) by {
                assert(self.board.grid().len() == locked.len());
                assert forall|cx: int| 0 <= cx < locked.len() implies (
                #[trigger] self.board.grid()[cx]).len() == locked[cx].len() by {
                    assert(self.board.grid()[cx] == self.board.cells@[cx]@);
                    assert(c0.grid()[cx] == c0.cells@[cx]@);
                }
                assert forall|cx: int, cy: int|
                    0 <= cx < locked.len() && 0 <= cy < locked[cx].len() implies (
                #[trigger] self.board.grid()[cx][cy]) == locked[cx][cy] by {
                    assert(self.board.grid()[cx] == self.board.cells@[cx]@);
                    assert(c0.grid()[cx] == c0.cells@[cx]@);
                    assert(c0.grid()[cx][cy] == c0.cell(cx, cy));
                    assert(self.board.grid()[cx][cy] == self.board.cell(cx, cy));
                    assert(b0.in_bounds(cx, cy));
                    if in_footprint(v, px, py, cx, cy) {
                        assert(self.board.cell(cx, cy) == p0.piece.color);
                    } else {
                        assert(self.board.cell(cx, cy) == mid.cell(cx, cy));
                        if b0.cell(cx, cy) == PieceColor::Tracer {
                            assert(c0.cell(cx, cy) == PieceColor::Empty);
                            assert(mid.cell(cx, cy) == PieceColor::Empty);
                        } else {
                            assert(mid.cell(cx, cy) == b0.cell(cx, cy));
                            assert(b0.cell(cx, cy) == c0.cell(cx, cy));
                        }
                    }
                }
            }
        }
        let lines_cleared = clear_lines(&mut self.board);
        let ghost cleared_snapshot = self.board;
        proof {
            assert(lines_cleared as int == crate::board::cleared_between(locked, h, 0, h - 1));
        }
        self.committed = Ghost(cleared_snapshot);
        proof {
            // The cleared board keeps its walls, holds no tracer, and
            // matches the clearing formula cell for cell.
            assert forall|cx: int, cy: int| c0.in_bounds(cx, cy) implies (
            #[trigger] self.committed@.cell(cx, cy)) == crate::board::cleared_cell(
                locked,
                h,
                cx,
                cy,
            ) by {
                if cy == h - 1 {
                } else if cy < lines_cleared as int {
                } else {
                    crate::board::lemma_nth_kept_range(locked, h, 0, cy - lines_cleared as int);
                }
            }
            assert(walls_wf(&self.committed@) && no_tracer(&self.committed@)) by {
                assert forall|cx: int, cy: int| self.committed@.in_bounds(cx, cy) implies (
                crate::board::is_border(&self.committed@, cx, cy) ==> (
                #[trigger] self.committed@.cell(cx, cy)) == PieceColor::Wall) && self.committed@.cell(
                    cx,
                    cy,
                ) != PieceColor::Tracer by {
                    let n = lines_cleared as int;
                    let src: int = if cy == h - 1 {
                        cy
                    } else if cy < n {
                        0
                    } else {
                        crate::board::nth_kept_from(locked, h, 0, cy - n)
                    };
                    if cy != h - 1 && cy >= n {
                        crate::board::lemma_nth_kept_range(locked, h, 0, cy - n);
                    }
                    assert(0 <= src < h);
                    assert(self.committed@.cell(cx, cy) == locked[cx][src]);
                    assert(locked[cx][src] == if in_footprint(v, px, py, cx, src) {
                        p0.piece.color
                    } else {
                        c0.grid()[cx][src]
                    });
                    assert(c0.grid()[cx] == c0.cells@[cx]@);
                    assert(c0.grid()[cx][src] == c0.cell(cx, src));
                    if in_footprint(v, px, py, cx, src) {
                        let k = choose|k: int|
                            0 <= k < 4 && cx == fp_x(v, px, k) && src == fp_y(v, py, k);
                        assert(cell_interior(&b0, v, px, py, k));
                        assert(!crate::board::is_border(&self.committed@, cx, cy) || cy == h - 1);
                        assert(crate::pieces::is_piece_kind(p0.piece.color));
                    }
                }
            }
        }
        self.update_score(lines_cleared);
        let pos = self.get_initial_position();
        self.current_piece = CurrentPiece {
            piece: self.next_piece,
            x: pos.0 as i32,
            y: pos.1 as i32,
        };
        self.next_piece = self.piece_bag.next();
        proof {
            // The spawn footprint sits strictly inside the walls.
            let sv = self.current_piece.piece.view_spec();
            let sx = self.current_piece.x as int;
            assert forall|k: int| 0 <= k < 4 implies #[trigger] cell_interior(
                &self.board,
                sv,
                sx,
                2,
                k,
            ) by {
                lemma_offset_bounds(sv[k]);
            }
        }
        let over = self.current_piece.collides(&self.board, self.current_piece.x, self.current_piece.y);
        if over {
            self.status = GameStatus::GameOver;
            self.emit(&GameEvent::GameOver);
            proof {
                assert(self.spec_events() =~= old(self).spec_events()
                    + Self::lock_announcements(old(self), p0, self));
            }
            false
        } else {
            self.redraw_at_piece();
            self.emit(&GameEvent::PieceChanged);
            proof {
                assert(self.spec_events() =~= old(self).spec_events()
                    + Self::lock_announcements(old(self), p0, self));
            }
            true
        }
    }
}

} // verus!

verus! {

impl<H: EventHandler> GameState<H> {
    /// One gravity tick: move the piece down one row if it can (announcing
    /// the move), otherwise lock it. Returns `false` exactly when the piece
    /// locked this tick, whatever came of the spawn.
    pub fn advance_game(&mut self) -> (r: bool)
        requires
            old(self).wf(),
        ensures
            final(self).wf(),
            old(self).spec_status() != GameStatus::Running ==> !r && *final(self) == *old(self),
            old(self).spec_status() == GameStatus::Running ==> {
                let can = !collides_spec(
                    &old(self).spec_committed(),
                    old(self).spec_piece().piece.view_spec(),
                    old(self).spec_piece().x as int,
                    old(self).spec_piece().y + 1,
                );
                &&& r == can
                &&& can ==> old(self).same_core(final(self)) && final(self).spec_piece()
                    == moved_down_spec(old(self).spec_piece()) && final(self).spec_events()
                    == old(self).spec_events().push(GameEvent::PieceMoved)
                &&& !can ==> Self::lock_step_at(old(self), old(self).spec_piece(), final(self))
                    && final(self).spec_events() == old(self).spec_events()
                    + Self::lock_announcements(old(self), old(self).spec_piece(), final(self))
            },
    {
        if self.status != GameStatus::Running {
            return false;
        }
        let moved = self.move_down();
        if moved {
            true
        } else {
            let _spawn_ok = self.piece_hit_bottom();
            false
        }
    }

    /// Drop the piece straight down to its resting row (announcing each
    /// step), then lock it there as one gravity tick would. The pacing
    /// argument is advisory; the drop resolves in one call. Returns `false`
    /// when the game is not running or the spawn after the lock failed.
    pub fn drop(&mut self, _drop_speed: DropSpeed) -> (r: bool)
        requires
            old(self).wf(),
        ensures
            final(self).wf(),
            old(self).spec_status() != GameStatus::Running ==> !r && *final(self) == *old(self),
            old(self).spec_status() == GameStatus::Running ==> {
                let ry = drop_y_spec(
                    &old(self).spec_committed(),
                    old(self).spec_piece().piece.view_spec(),
                    old(self).spec_piece().x as int,
                    old(self).spec_piece().y as int,
                );
                &&& Self::lock_step_at(
                    old(self),
                    (CurrentPiece { y: ry as i32, ..old(self).spec_piece() }),
                    final(self),
                )
                &&& r == (final(self).spec_status() != GameStatus::GameOver)
                &&& final(self).spec_events() == old(self).spec_events() + Seq::new(
                    (ry - old(self).spec_piece().y) as nat,
                    |i: int| GameEvent::PieceMoved,
                ) + Self::lock_announcements(
                    old(self),
                    (CurrentPiece { y: ry as i32, ..old(self).spec_piece() }),
                    final(self),
                )
            },
    {
        if self.status != GameStatus::Running {
            return false;
        }
        let ghost c = self.committed@;
        let ghost v = self.current_piece.piece.view_spec();
        let ghost px = self.current_piece.x as int;
        let ghost py = self.current_piece.y as int;
        let ghost ry = drop_y_spec(&c, v, px, py);
        proof {
            self.lemma_piece_coords();
            assert(self.spec_events() =~= old(self).spec_events() + Seq::new(
                0,
                |i: int| GameEvent::PieceMoved,
            ));
        }
        loop
            invariant
                self.wf(),
                self.spec_status() == GameStatus::Running,
                old(self).same_core(self),
                self.spec_events() == old(self).spec_events() + Seq::new(
                    (self.current_piece.y - old(self).spec_piece().y) as nat,
                    |i: int| GameEvent::PieceMoved,
                ),
                self.committed@ == c,
                c == old(self).spec_committed(),
                v == old(self).spec_piece().piece.view_spec(),
                px == old(self).spec_piece().x as int,
                py == old(self).spec_piece().y as int,
                ry == drop_y_spec(&c, v, px, py),
                self.current_piece.piece == old(self).spec_piece().piece,
                self.current_piece.x == old(self).spec_piece().x,
                self.current_piece.y >= old(self).spec_piece().y,
                self.current_piece.y <= self.board.bh(),
                drop_y_spec(&c, v, px, self.current_piece.y as int) == ry,
            ensures
                self.current_piece.y as int == ry,
            decreases self.board.bh() + 1 - self.current_piece.y,
        {
            let ghost yprev = self.current_piece.y as int;
            let moved = self.move_down();
            if !moved {
                proof {
                    assert(drop_y_spec(&c, v, px, yprev) == yprev);
                }
                break;
            }
            proof {
                crate::board::lemma_drop_y_step(&c, v, px, yprev);
                self.lemma_piece_coords();
                assert(self.spec_events() =~= old(self).spec_events() + Seq::new(
                    (self.current_piece.y - old(self).spec_piece().y) as nat,
                    |i: int| GameEvent::PieceMoved,
                ));
            }
        }
        let ghost fallen = *self;
        let result = self.piece_hit_bottom();
        proof {
            assert(self.spec_events() =~= old(self).spec_events() + Seq::new(
                (ry - py) as nat,
                |i: int| GameEvent::PieceMoved,
            ) + Self::lock_announcements(
                old(self),
                (CurrentPiece { y: ry as i32, ..old(self).spec_piece() }),
                self,
            )) by {
                assert(Self::lock_announcements(&fallen, fallen.spec_piece(), self)
                    == Self::lock_announcements(
                    old(self),
                    (CurrentPiece { y: ry as i32, ..old(self).spec_piece() }),
                    self,
                ));
            }
        }
        result
    }
}

} // verus!

verus! {

impl<H: EventHandler> GameState<H> {
    /// One leftward step of the falling piece, without the status gate:
    /// taken exactly when the piece fits one column to the left.
    fn nudge_left(&mut self) -> (r: bool)
        requires
            old(self).wf(),
            old(self).spec_status() != GameStatus::GameOver,
        ensures
            final(self).wf(),
            old(self).same_core(final(self)),
            final(self).spec_events() == if r {
                old(self).spec_events().push(GameEvent::PieceMoved)
            } else {
                old(self).spec_events()
            },
            r == !collides_spec(
                &old(self).spec_committed(),
                old(self).spec_piece().piece.view_spec(),
                old(self).spec_piece().x - 1,
                old(self).spec_piece().y as int,
            ),
            final(self).spec_piece() == if r {
                crate::board::moved_left_spec(old(self).spec_piece())
            } else {
                old(self).spec_piece()
            },
    {
        let ghost c = self.committed@;
        proof {
            old(self).lemma_piece_coords();
            old(self).lemma_piece_placeable();
            assert(old(self).piece_drawn());
        }
        self.remove_current_piece();
        let ghost v = self.current_piece.piece.view_spec();
        let ghost px = self.current_piece.x as int;
        let ghost py = self.current_piece.y as int;
        proof {
            assert(same_modulo_tracer(&self.board, &c));
            lemma_collides_modulo_tracer(&self.board, &c, v, px - 1, py);
        }
        let res = self.current_piece.move_left(&self.board);
        self.redraw_at_piece();
        if res {
            self.emit(&GameEvent::PieceMoved);
        }
        res
    }

    /// One rightward step of the falling piece, without the status gate.
    fn nudge_right(&mut self) -> (r: bool)
        requires
            old(self).wf(),
            old(self).spec_status() != GameStatus::GameOver,
        ensures
            final(self).wf(),
            old(self).same_core(final(self)),
            final(self).spec_events() == if r {
                old(self).spec_events().push(GameEvent::PieceMoved)
            } else {
                old(self).spec_events()
            },
            r == !collides_spec(
                &old(self).spec_committed(),
                old(self).spec_piece().piece.view_spec(),
                old(self).spec_piece().x + 1,
                old(self).spec_piece().y as int,
            ),
            final(self).spec_piece() == if r {
                crate::board::moved_right_spec(old(self).spec_piece())
            } else {
                old(self).spec_piece()
            },
    {
        let ghost c = self.committed@;
        proof {
            old(self).lemma_piece_coords();
            old(self).lemma_piece_placeable();
            assert(old(self).piece_drawn());
        }
        self.remove_current_piece();
        let ghost v = self.current_piece.piece.view_spec();
        let ghost px = self.current_piece.x as int;
        let ghost py = self.current_piece.y as int;
        proof {
            assert(same_modulo_tracer(&self.board, &c));
            lemma_collides_modulo_tracer(&self.board, &c, v, px + 1, py);
        }
        let res = self.current_piece.move_right(&self.board);
        self.redraw_at_piece();
        if res {
            self.emit(&GameEvent::PieceMoved);
        }
        res
    }

    /// One downward step of the falling piece, without the status gate.
    fn nudge_down(&mut self) -> (r: bool)
        requires
            old(self).wf(),
            old(self).spec_status() != GameStatus::GameOver,
        ensures
            final(self).wf(),
            old(self).same_core(final(self)),
            final(self).spec_events() == if r {
                old(self).spec_events().push(GameEvent::PieceMoved)
            } else {
                old(self).spec_events()
            },
            r == !collides_spec(
                &old(self).spec_committed(),
                old(self).spec_piece().piece.view_spec(),
                old(self).spec_piece().x as int,
                old(self).spec_piece().y + 1,
            ),
            final(self).spec_piece() == if r {
                moved_down_spec(old(self).spec_piece())
            } else {
                old(self).spec_piece()
            },
    {
        let ghost c = self.committed@;
        proof {
            old(self).lemma_piece_coords();
            old(self).lemma_piece_placeable();
            assert(old(self).piece_drawn());
        }
        self.remove_current_piece();
        let ghost v = self.current_piece.piece.view_spec();
        let ghost px = self.current_piece.x as int;
        let ghost py = self.current_piece.y as int;
        proof {
            assert(same_modulo_tracer(&self.board, &c));
            lemma_collides_modulo_tracer(&self.board, &c, v, px, py + 1);
        }
        let res = self.current_piece.move_down(&self.board);
        self.redraw_at_piece();
        if res {
            self.emit(&GameEvent::PieceMoved);
        }
        res
    }

    /// One clockwise turn of the falling piece, without the status gate.
    fn nudge_rotate_right(&mut self) -> (r: bool)
        requires
            old(self).wf(),
            old(self).spec_status() != GameStatus::GameOver,
        ensures
            final(self).wf(),
            old(self).same_core(final(self)),
            final(self).spec_events() == if r {
                old(self).spec_events().push(GameEvent::PieceMoved)
            } else {
                old(self).spec_events()
            },
            r == !collides_spec(
                &old(self).spec_committed(),
                piece_rotated_right(old(self).spec_piece().piece).view_spec(),
                old(self).spec_piece().x as int,
                old(self).spec_piece().y as int,
            ),
            final(self).spec_piece() == if r {
                (CurrentPiece {
                    piece: piece_rotated_right(old(self).spec_piece().piece),
                    ..old(self).spec_piece()
                })
            } else {
                old(self).spec_piece()
            },
    {
        let ghost c = self.committed@;
        proof {
            old(self).lemma_piece_coords();
            old(self).lemma_piece_placeable();
            assert(old(self).piece_drawn());
        }
        self.remove_current_piece();
        let ghost rv = piece_rotated_right(self.current_piece.piece).view_spec();
        let ghost px = self.current_piece.x as int;
        let ghost py = self.current_piece.y as int;
        proof {
            assert(same_modulo_tracer(&self.board, &c));
            lemma_collides_modulo_tracer(&self.board, &c, rv, px, py);
        }
        let res = self.current_piece.rotate_right(&self.board);
        self.redraw_at_piece();
        if res {
            self.emit(&GameEvent::PieceMoved);
        }
        res
    }
}

} // verus!

verus! {

/// Relies on `rand::random`: one `i32` drawn from the thread-local
/// generator. Nothing is promised of the value.
#[verifier::external_body]
fn random_i32() -> i32 {
    rand::random::<i32>()
}

/// A fresh board of the given playfield size: walls along the left and right
/// columns and the bottom row, everything else empty.
fn make_walled_board(width: u16, height: u16) -> (b: Board)
    requires
        4 <= width,
        5 <= height,
        width as int + 2 <= u16::MAX as int,
        height as int + 1 <= u16::MAX as int,
    ensures
        b.dims_wf(),
        b.width as int == width as int + 2,
        b.height as int == height as int + 1,
        walls_wf(&b),
        no_tracer(&b),
        forall|cx: int, cy: int|
            b.in_bounds(cx, cy) && !crate::board::is_border(&b, cx, cy) ==> #[trigger] b.cell(
                cx,
                cy,
            ) == PieceColor::Empty,
{
    let bw = width + 2;
    let bh = height + 1;
    let mut cells: Vec<Vec<PieceColor>> = Vec::new();
    let mut x: usize = 0;
    while x < bw as usize
        invariant
            x <= bw as int,
            cells@.len() == x,
            bw as int == width as int + 2,
            bh as int == height as int + 1,
            forall|i: int|
                0 <= i < x ==> (#[trigger] cells@[i])@.len() == bh as int && forall|j: int|
                    0 <= j < bh as int ==> cells@[i]@[j] == (if i == 0 || i == bw as int - 1 || j
                        == bh as int - 1 {
                        PieceColor::Wall
                    } else {
                        PieceColor::Empty
                    }),
        decreases bw as int - x,
    {
        let mut col: Vec<PieceColor> = Vec::new();
        let mut y: usize = 0;
        while y < bh as usize
            invariant
                y <= bh as int,
                col@.len() == y,
                x < bw as int,
                bw as int == width as int + 2,
                bh as int == height as int + 1,
                forall|j: int|
                    0 <= j < y ==> col@[j] == (if x as int == 0 || x as int == bw as int - 1 || j
                        == bh as int - 1 {
                        PieceColor::Wall
                    } else {
                        PieceColor::Empty
                    }),
            decreases bh as int - y,
        {
            if x == 0 || x == bw as usize - 1 || y == bh as usize - 1 {
                col.push(PieceColor::Wall);
            } else {
                col.push(PieceColor::Empty);
            }
            y += 1;
        }
        cells.push(col);
        x += 1;
    }
    Board { width: bw, height: bh, cells }
}

impl<H: EventHandler> GameState<H> {
    /// A fresh game on a `width` x `height` playfield (walls are added
    /// around it): a shuffled bag supplies the falling and queued pieces,
    /// counters start at zero, the game is not started, and on the harder
    /// difficulties some random pieces are locked into the board first.
    pub fn new(width: u16, height: u16, show_next_piece: bool, difficulty: Difficulty) -> (gs:
        GameState<H>)
        requires
            4 <= width,
            5 <= height,
            width as int + 2 <= u16::MAX as int,
            height as int + 1 <= u16::MAX as int,
        ensures
            gs.wf(),
            gs.spec_width() == width as int,
            gs.spec_height() == height as int,
            gs.spec_difficulty() == difficulty,
            gs.spec_show_next_piece() == show_next_piece,
            !gs.spec_show_tracer(),
            !gs.spec_undo_used(),
            gs.spec_handlers().len() == 0,
            gs.spec_board().width as int == width as int + 2,
            gs.spec_board().height as int == height as int + 1,
            gs.spec_status() == GameStatus::NotStarted || gs.spec_status()
                == GameStatus::GameOver,
            gs.spec_piece().piece.orientation == Orientation::Up,
            gs.spec_piece().x as int == width as int / 2,
            gs.spec_piece().y == 2,
            gs.spec_pieces_locked() <= seed_count(difficulty),
            gs.spec_status() != GameStatus::GameOver ==> gs.spec_pieces_locked() == seed_count(
                difficulty,
            ),
            seed_count(difficulty) == 0 ==> {
                &&& gs.spec_status() == GameStatus::NotStarted
                &&& gs.spec_score() == 0
                &&& gs.spec_lines() == 0
                &&& gs.spec_level() == 1
                &&& forall|cx: int, cy: int|
                    gs.spec_committed().in_bounds(cx, cy) && !crate::board::is_border(
                        &gs.spec_committed(),
                        cx,
                        cy,
                    ) ==> #[trigger] gs.spec_committed().cell(cx, cy) == PieceColor::Empty
                &&& gs.spec_bag().len() == 5
                &&& fresh_supply_colors(&gs).no_duplicates()
                &&& forall|c: PieceColor|
                    crate::pieces::is_piece_kind(c) ==> fresh_supply_colors(&gs).contains(c)
                &&& gs.spec_events() == seq![GameEvent::GameReset]
            },
    {
        let mut piece_bag = Bag::new();
        let ghost bag0 = piece_bag@;
        let first = piece_bag.next();
        let next = piece_bag.next();
        proof {
            // The falling piece, the queued piece and the five left pending
            // are the fresh bag's seven pieces: one of each kind.
            assert(crate::bag::colors_of(piece_bag@).push(next.color).push(first.color)
                =~= crate::bag::colors_of(bag0));
        }
        let board = make_walled_board(width, height);
        let ghost committed_board = board;
        let mut gs = GameState {
            current_piece: CurrentPiece { piece: first, x: (width / 2) as i32, y: 2 },
            next_piece: next,
            board,
            difficulty,
            piece_bag,
            lines: 0,
            level: 1,
            score: 0,
            show_tracer: false,
            show_next_piece,
            width,
            height,
            undo_used: false,
            pieces: 0,
            status: GameStatus::NotStarted,
            event_handlers: Vec::new(),
            committed: Ghost(committed_board),
            announced: Ghost(Seq::empty()),
        };
        proof {
            let v = gs.current_piece.piece.view_spec();
            let px = gs.current_piece.x as int;
            assert forall|k: int| 0 <= k < 4 implies #[trigger] cell_interior(
                &gs.board,
                v,
                px,
                2,
                k,
            ) by {
                lemma_offset_bounds(v[k]);
            }
            assert(!collides_spec(&gs.committed@, v, px, 2)) by {
                assert forall|k: int| 0 <= k < 4 implies !crate::board::offset_hits(
                    &gs.committed@,
                    #[trigger] v[k],
                    px,
                    2,
                ) by {
                    assert(cell_interior(&gs.board, v, px, 2, k));
                    assert(!crate::board::is_border(
                        &gs.committed@,
                        fp_x(v, px, k),
                        fp_y(v, 2, k),
                    ));
                    assert(gs.committed@.cell(fp_x(v, px, k), fp_y(v, 2, k))
                        == PieceColor::Empty);
                }
            }
        }
        gs.redraw_at_piece();
        gs.emit(&GameEvent::GameReset);
        proof {
            assert(gs.spec_events() =~= seq![GameEvent::GameReset]);
        }
        gs.initialize_board_pieces();
        gs
    }

    /// Difficulty-driven board seeding: on the harder difficulties, draw a
    /// few pieces, push each a random distance sideways, drive it down with
    /// rotations, and lock it, so play starts over pre-existing rubble. The
    /// walls are invariant under every step, so they need no re-stamping.
    /// Unless the rubble reaches the spawn cells and ends the game, exactly
    /// `seed_count` pieces lock, each by one `lock_step_at` transition; when
    /// a seeded lock does end the game, seeding stops there.
    pub fn initialize_board_pieces(&mut self)
        requires
            old(self).wf(),
        ensures
            final(self).wf(),
            final(self).spec_difficulty() == old(self).spec_difficulty(),
            final(self).spec_show_tracer() == old(self).spec_show_tracer(),
            final(self).spec_show_next_piece() == old(self).spec_show_next_piece(),
            final(self).spec_width() == old(self).spec_width(),
            final(self).spec_height() == old(self).spec_height(),
            final(self).spec_undo_used() == old(self).spec_undo_used(),
            final(self).spec_handlers() == old(self).spec_handlers(),
            final(self).spec_status() == old(self).spec_status() || final(self).spec_status()
                == GameStatus::GameOver,
            seed_count(old(self).spec_difficulty()) == 0 ==> *final(self) == *old(self),
            old(self).spec_pieces_locked() <= final(self).spec_pieces_locked(),
            final(self).spec_pieces_locked() <= locked_plus(
                old(self).spec_pieces_locked(),
                seed_count(old(self).spec_difficulty()),
            ),
            final(self).spec_status() != GameStatus::GameOver ==> final(self).spec_pieces_locked()
                == locked_plus(
                old(self).spec_pieces_locked(),
                seed_count(old(self).spec_difficulty()),
            ),
            seed_count(old(self).spec_difficulty()) != 0 && old(self).spec_status()
                != GameStatus::GameOver ==> {
                &&& final(self).spec_piece().piece.orientation == Orientation::Up
                &&& final(self).spec_piece().x as int == old(self).spec_width() / 2
                &&& final(self).spec_piece().y == 2
            },
    {
        let extra: u16 = match self.difficulty {
            Difficulty::Easy => 0,
            Difficulty::Medium => 0,
            Difficulty::Hard => 5,
            Difficulty::Insane => 10,
        };
        let mut i: u16 = 0;
        while i < extra
            invariant
                self.wf(),
                i <= extra,
                extra as int == seed_count(old(self).spec_difficulty()),
                extra == 0 ==> *self == *old(self),
                self.spec_difficulty() == old(self).spec_difficulty(),
                self.spec_show_tracer() == old(self).spec_show_tracer(),
                self.spec_show_next_piece() == old(self).spec_show_next_piece(),
                self.spec_width() == old(self).spec_width(),
                self.spec_height() == old(self).spec_height(),
                self.spec_undo_used() == old(self).spec_undo_used(),
                self.spec_handlers() == old(self).spec_handlers(),
                self.spec_status() == old(self).spec_status() || self.spec_status()
                    == GameStatus::GameOver,
                self.spec_status() != old(self).spec_status() ==> i > 0,
                old(self).spec_pieces_locked() <= self.spec_pieces_locked(),
                self.spec_pieces_locked() <= locked_plus(
                    old(self).spec_pieces_locked(),
                    i as int,
                ),
                self.spec_status() != GameStatus::GameOver ==> self.spec_pieces_locked()
                    == locked_plus(old(self).spec_pieces_locked(), i as int),
                i > 0 ==> self.spec_piece().piece.orientation == Orientation::Up
                    && self.spec_piece().x as int == old(self).spec_width() / 2
                    && self.spec_piece().y == 2,
            ensures
                i == extra || self.spec_status() == GameStatus::GameOver,
            decreases extra - i,
        {
            if self.status == GameStatus::GameOver {
                break;
            }
            let ghost locked0 = self.spec_pieces_locked();
            // Push the piece a uniformly drawn number of columns sideways.
            let m: i32 = (self.width - self.width / 2) as i32;
            let drawn = random_i32();
            let steps = drawn % m;
            if steps > 0 {
                let mut s: i32 = steps;
                while s > 0
                    invariant
                        self.wf(),
                        self.spec_status() != GameStatus::GameOver,
                        self.spec_difficulty() == old(self).spec_difficulty(),
                        self.spec_show_tracer() == old(self).spec_show_tracer(),
                        self.spec_show_next_piece() == old(self).spec_show_next_piece(),
                        self.spec_width() == old(self).spec_width(),
                        self.spec_height() == old(self).spec_height(),
                        self.spec_undo_used() == old(self).spec_undo_used(),
                        self.spec_handlers() == old(self).spec_handlers(),
                        self.spec_status() == old(self).spec_status(),
                        self.spec_pieces_locked() == locked0,
                    decreases s,
                {
                    let _ = self.nudge_left();
                    s = s - 1;
                }
            } else {
                let mut s: i32 = steps;
                while s < 0
                    invariant
                        self.wf(),
                        self.spec_status() != GameStatus::GameOver,
                        self.spec_difficulty() == old(self).spec_difficulty(),
                        self.spec_show_tracer() == old(self).spec_show_tracer(),
                        self.spec_show_next_piece() == old(self).spec_show_next_piece(),
                        self.spec_width() == old(self).spec_width(),
                        self.spec_height() == old(self).spec_height(),
                        self.spec_undo_used() == old(self).spec_undo_used(),
                        self.spec_handlers() == old(self).spec_handlers(),
                        self.spec_status() == old(self).spec_status(),
                        self.spec_pieces_locked() == locked0,
                    decreases 0 - s,
                {
                    let _ = self.nudge_right();
                    s = s + 1;
                }
            }
            proof {
                self.lemma_piece_coords();
            }
            // Drive the piece down, turning it as it falls, until either
            // motion is refused.
            loop
                invariant
                    self.wf(),
                    self.spec_status() != GameStatus::GameOver,
                    self.spec_difficulty() == old(self).spec_difficulty(),
                    self.spec_show_tracer() == old(self).spec_show_tracer(),
                    self.spec_show_next_piece() == old(self).spec_show_next_piece(),
                    self.spec_width() == old(self).spec_width(),
                    self.spec_height() == old(self).spec_height(),
                    self.spec_undo_used() == old(self).spec_undo_used(),
                    self.spec_handlers() == old(self).spec_handlers(),
                    self.spec_status() == old(self).spec_status(),
                    self.spec_pieces_locked() == locked0,
                    self.spec_piece().y <= self.spec_board().bh(),
                decreases self.spec_board().bh() + 1 - self.spec_piece().y,
            {
                let down = self.nudge_down();
                proof {
                    self.lemma_piece_coords();
                }
                if !down {
                    break;
                }
                let turned = self.nudge_rotate_right();
                if !turned {
                    break;
                }
            }
            let _spawn_ok = self.piece_hit_bottom();
            i = i + 1;
        }
    }

    /// Move the falling piece back to the spawn cell, clearing whatever the
    /// spawn footprint covered, and re-place the transient marks.
    pub fn reset_current_piece(&mut self)
        requires
            old(self).wf(),
            old(self).spec_status() != GameStatus::GameOver,
        ensures
            final(self).wf(),
            old(self).same_progress(final(self)),
            old(self).same_supply(final(self)),
            final(self).spec_difficulty() == old(self).spec_difficulty(),
            final(self).spec_show_tracer() == old(self).spec_show_tracer(),
            final(self).spec_show_next_piece() == old(self).spec_show_next_piece(),
            final(self).spec_width() == old(self).spec_width(),
            final(self).spec_height() == old(self).spec_height(),
            final(self).spec_undo_used() == old(self).spec_undo_used(),
            final(self).spec_handlers() == old(self).spec_handlers(),
            final(self).spec_piece().piece == old(self).spec_piece().piece,
            final(self).spec_piece().x as int == old(self).spec_width() / 2,
            final(self).spec_piece().y == 2,
            final(self).spec_events() == old(self).spec_events().push(GameEvent::PieceChanged),
            forall|cx: int, cy: int|
                old(self).spec_committed().in_bounds(cx, cy)
                    ==> (#[trigger] final(self).spec_committed().cell(cx, cy)) == if in_footprint(
                    old(self).spec_piece().piece.view_spec(),
                    old(self).spec_width() / 2,
                    2,
                    cx,
                    cy,
                ) {
                    PieceColor::Empty
                } else {
                    old(self).spec_committed().cell(cx, cy)
                },
    {
        let ghost c0 = self.committed@;
        let ghost b0 = self.board;
        let ghost v = self.current_piece.piece.view_spec();
        let ghost px0 = self.current_piece.x as int;
        let ghost py0 = self.current_piece.y as int;
        proof {
            assert(old(self).piece_drawn());
            assert forall|k: int| 0 <= k < 4 implies self.board.in_bounds(
                #[trigger] fp_x(v, px0, k),
                fp_y(v, py0, k),
            ) by {
                assert(cell_interior(&self.board, v, px0, py0, k));
            }
        }
        self.remove_current_piece();
        remove_tracer(&mut self.board);
        let pos = self.get_initial_position();
        self.current_piece.x = pos.0 as i32;
        self.current_piece.y = pos.1 as i32;
        let p = self.current_piece;
        proof {
            assert forall|k: int| 0 <= k < 4 implies #[trigger] cell_interior(
                &self.board,
                v,
                pos.0 as int,
                2,
                k,
            ) by {
                lemma_offset_bounds(v[k]);
            }
        }
        remove_piece(&p.piece, &mut self.board, p.x, p.y);
        proof {
            // The board now shows the committed state with the spawn
            // footprint blanked; that becomes the new committed board.
            assert forall|cx: int, cy: int| c0.in_bounds(cx, cy) implies (
            #[trigger] self.board.cell(cx, cy)) == if in_footprint(v, pos.0 as int, 2, cx, cy) {
                PieceColor::Empty
            } else {
                c0.cell(cx, cy)
            } by {
                if in_footprint(v, pos.0 as int, 2, cx, cy) {
                } else {
                    if in_footprint(v, px0, py0, cx, cy) {
                        assert(c0.cell(cx, cy) == PieceColor::Empty);
                    } else if b0.cell(cx, cy) == PieceColor::Tracer {
                        assert(c0.cell(cx, cy) == PieceColor::Empty);
                    } else {
                        assert(b0.cell(cx, cy) == c0.cell(cx, cy));
                    }
                }
            }
        }
        let ghost snapshot_board = self.board;
        self.committed = Ghost(snapshot_board);
        proof {
            assert(walls_wf(&self.committed@)) by {
                assert forall|cx: int, cy: int|
                    self.committed@.in_bounds(cx, cy) && crate::board::is_border(
                        &self.committed@,
                        cx,
                        cy,
                    ) implies #[trigger] self.committed@.cell(cx, cy) == PieceColor::Wall by {
                    if in_footprint(v, pos.0 as int, 2, cx, cy) {
                        let k = choose|k: int|
                            0 <= k < 4 && cx == fp_x(v, pos.0 as int, k) && cy == fp_y(v, 2, k);
                        assert(cell_interior(&self.board, v, pos.0 as int, 2, k));
                        assert(false);
                    }
                }
            }
            assert(!collides_spec(&self.committed@, v, pos.0 as int, 2)) by {
                assert forall|k: int| 0 <= k < 4 implies !crate::board::offset_hits(
                    &self.committed@,
                    #[trigger] v[k],
                    pos.0 as int,
                    2,
                ) by {
                    assert(cell_interior(&self.board, v, pos.0 as int, 2, k));
                    assert(in_footprint(
                        v,
                        pos.0 as int,
                        2,
                        fp_x(v, pos.0 as int, k),
                        fp_y(v, 2, k),
                    ));
                    assert(self.committed@.cell(fp_x(v, pos.0 as int, k), fp_y(v, 2, k))
                        == PieceColor::Empty);
                }
            }
        }
        self.redraw_at_piece();
        self.emit(&GameEvent::PieceChanged);
    }

    /// A deep copy of the game state, with an empty listener list and a
    /// fresh announcement log: listeners attach to one engine instance, not
    /// to its data.
    pub fn snapshot(&self) -> (gs: GameState<H>)
        requires
            self.wf(),
        ensures
            gs.wf(),
            gs.spec_handlers().len() == 0,
            gs.spec_events() == Seq::<GameEvent>::empty(),
            gs.spec_committed() == self.spec_committed(),
            gs.spec_piece() == self.spec_piece(),
            self.same_progress(&gs),
            self.same_supply(&gs),
            gs.spec_difficulty() == self.spec_difficulty(),
            gs.spec_show_tracer() == self.spec_show_tracer(),
            gs.spec_show_next_piece() == self.spec_show_next_piece(),
            gs.spec_width() == self.spec_width(),
            gs.spec_height() == self.spec_height(),
            gs.spec_undo_used() == self.spec_undo_used(),
            gs.spec_board().width == self.spec_board().width,
            gs.spec_board().height == self.spec_board().height,
            forall|cx: int, cy: int|
                self.spec_board().in_bounds(cx, cy) ==> (#[trigger] gs.spec_board().cell(cx, cy))
                    == self.spec_board().cell(cx, cy),
    {
        let gs = GameState {
            current_piece: self.current_piece,
            next_piece: self.next_piece,
            board: self.board.clone_board(),
            difficulty: self.difficulty,
            piece_bag: self.piece_bag.clone(),
            lines: self.lines,
            level: self.level,
            score: self.score,
            show_tracer: self.show_tracer,
            show_next_piece: self.show_next_piece,
            width: self.width,
            height: self.height,
            undo_used: self.undo_used,
            pieces: self.pieces,
            status: self.status,
            event_handlers: Vec::new(),
            committed: Ghost(self.committed@),
            announced: Ghost(Seq::empty()),
        };
        proof {
            assert forall|cx: int, cy: int| gs.board.in_bounds(cx, cy) implies (
            #[trigger] gs.board.cell(cx, cy)) == self.board.cell(cx, cy) by {
                assert(gs.board.cells@[cx]@ == self.board.cells@[cx]@);
            }
            let v = gs.current_piece.piece.view_spec();
            let px = gs.current_piece.x as int;
            let py = gs.current_piece.y as int;
            assert(walls_wf(&gs.board)) by {
                assert forall|cx: int, cy: int|
                    gs.board.in_bounds(cx, cy) && crate::board::is_border(
                        &gs.board,
                        cx,
                        cy,
                    ) implies #[trigger] gs.board.cell(cx, cy) == PieceColor::Wall by {
                    assert(self.board.cell(cx, cy) == PieceColor::Wall);
                }
            }
            assert(footprint_interior(&gs.board, v, px, py)) by {
                assert forall|k: int| 0 <= k < 4 implies #[trigger] cell_interior(
                    &gs.board,
                    v,
                    px,
                    py,
                    k,
                ) by {
                    assert(cell_interior(&self.board, v, px, py, k));
                }
            }
            if gs.status == GameStatus::GameOver {
                assert(shows_committed(&gs.board, &gs.committed@)) by {
                    assert forall|cx: int, cy: int| gs.board.in_bounds(cx, cy) implies (
                    #[trigger] gs.board.cell(cx, cy)) == gs.committed@.cell(cx, cy) || (
                    gs.board.cell(cx, cy) == PieceColor::Tracer && gs.committed@.cell(cx, cy)
                        == PieceColor::Empty) by {
                        assert(self.board.cell(cx, cy) == self.committed@.cell(cx, cy) || (
                        self.board.cell(cx, cy) == PieceColor::Tracer && self.committed@.cell(
                            cx,
                            cy,
                        ) == PieceColor::Empty));
                    }
                }
            } else {
                assert(self.piece_drawn());
                assert(gs.piece_drawn()) by {
                    assert forall|cx: int, cy: int|
                        gs.board.in_bounds(cx, cy) && in_footprint(v, px, py, cx, cy) implies (
                    #[trigger] gs.board.cell(cx, cy)) == gs.current_piece.piece.color
                        && gs.committed@.cell(cx, cy) == PieceColor::Empty by {
                        assert(self.board.cell(cx, cy) == self.current_piece.piece.color
                            && self.committed@.cell(cx, cy) == PieceColor::Empty);
                    }
                    assert forall|cx: int, cy: int|
                        gs.board.in_bounds(cx, cy) && !in_footprint(v, px, py, cx, cy) implies (
                    #[trigger] gs.board.cell(cx, cy)) == gs.committed@.cell(cx, cy) || (
                    gs.board.cell(cx, cy) == PieceColor::Tracer && gs.committed@.cell(cx, cy)
                        == PieceColor::Empty) by {
                        assert(self.board.cell(cx, cy) == self.committed@.cell(cx, cy) || (
                        self.board.cell(cx, cy) == PieceColor::Tracer && self.committed@.cell(
                            cx,
                            cy,
                        ) == PieceColor::Empty));
                    }
                }
            }
        }
        gs
    }

    /// A restored game built from a previously captured snapshot: the same
    /// board, score and supply, with the falling piece reset to the spawn
    /// cell, no listeners, and the undo flag set. Snapshots are taken before
    /// a piece locks and restored before the game is over.
    pub fn restore(&self, old_state: &GameState<H>) -> (gs: GameState<H>)
        requires
            old_state.wf(),
            old_state.spec_status() != GameStatus::GameOver,
        ensures
            gs.wf(),
            gs.spec_undo_used(),
            gs.spec_handlers().len() == 0,
            gs.spec_events() == seq![GameEvent::PieceChanged],
            old_state.same_progress(&gs),
            old_state.same_supply(&gs),
            gs.spec_difficulty() == old_state.spec_difficulty(),
            gs.spec_show_tracer() == old_state.spec_show_tracer(),
            gs.spec_show_next_piece() == old_state.spec_show_next_piece(),
            gs.spec_width() == old_state.spec_width(),
            gs.spec_height() == old_state.spec_height(),
            gs.spec_piece().piece == old_state.spec_piece().piece,
            gs.spec_piece().x as int == old_state.spec_width() / 2,
            gs.spec_piece().y == 2,
            forall|cx: int, cy: int|
                old_state.spec_committed().in_bounds(cx, cy)
                    ==> (#[trigger] gs.spec_committed().cell(cx, cy)) == if in_footprint(
                    old_state.spec_piece().piece.view_spec(),
                    old_state.spec_width() / 2,
                    2,
                    cx,
                    cy,
                ) {
                    PieceColor::Empty
                } else {
                    old_state.spec_committed().cell(cx, cy)
                },
    {
        let mut gs = old_state.snapshot();
        gs.undo_used = true;
        gs.reset_current_piece();
        proof {
            assert(gs.spec_events() =~= seq![GameEvent::PieceChanged]);
        }
        gs
    }
}

} // verus!
