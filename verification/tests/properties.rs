use std::cell::RefCell;
use std::rc::Rc;

use blocks_lib::bag::Bag;
use blocks_lib::board::{clear_lines, Board};
use blocks_lib::gamestate::{
    Difficulty, DropSpeed, EventHandler, GameEvent, GameState, GameStatus,
};
use blocks_lib::pieces::{Orientation, PieceColor};
use blocks_lib::score::score_for;

#[derive(Clone)]
struct EventLog {
    events: Rc<RefCell<Vec<GameEvent>>>,
}

impl EventLog {
    fn new() -> EventLog {
        EventLog { events: Rc::new(RefCell::new(Vec::new())) }
    }
}

impl EventHandler for EventLog {
    fn handle_event(&mut self, _gs: &GameState<Self>, event: &GameEvent) {
        self.events.borrow_mut().push(*event);
    }
}

const KINDS: [PieceColor; 7] = [
    PieceColor::Red,
    PieceColor::Green,
    PieceColor::Blue,
    PieceColor::Yellow,
    PieceColor::Cyan,
    PieceColor::Magenta,
    PieceColor::Orange,
];

#[test]
fn bag_dispenses_each_kind_once_per_refill() {
    let mut bag = Bag::new();
    for _round in 0..3 {
        let mut colors: Vec<PieceColor> = Vec::new();
        for _ in 0..7 {
            colors.push(bag.next().color);
        }
        for kind in KINDS {
            assert_eq!(
                colors.iter().filter(|c| **c == kind).count(),
                1,
                "each kind appears exactly once in a group of seven draws"
            );
        }
    }
}

fn board_with_rows_three_and_five_full() -> Board {
    let width: u16 = 12;
    let height: u16 = 23;
    let mut cells: Vec<Vec<PieceColor>> = Vec::new();
    for x in 0..width {
        let mut col: Vec<PieceColor> = Vec::new();
        for y in 0..height {
            let border = x == 0 || x == width - 1 || y == height - 1;
            let cell = if border {
                PieceColor::Wall
            } else if y == 3 || y == 5 {
                PieceColor::Red
            } else if y == 4 && x == 1 {
                PieceColor::Green
            } else if y == 2 && x == 2 {
                PieceColor::Blue
            } else {
                PieceColor::Empty
            };
            col.push(cell);
        }
        cells.push(col);
    }
    Board { width, height, cells }
}

#[test]
fn clear_lines_removes_exactly_the_full_rows() {
    let mut board = board_with_rows_three_and_five_full();
    let lines = clear_lines(&mut board);
    assert_eq!(lines, 2, "rows 3 and 5 were the only full rows");
    // The two vacated top rows are empty.
    for x in 1..11usize {
        assert_eq!(board.cells[x][0], PieceColor::Empty);
        assert_eq!(board.cells[x][1], PieceColor::Empty);
    }
    // Everything above the cleared rows shifted down two rows net.
    assert_eq!(board.cells[2][4], PieceColor::Blue, "old row 2 landed on row 4");
    assert_eq!(board.cells[1][5], PieceColor::Green, "old row 4 landed on row 5");
    // No full interior row remains, and the walls are untouched.
    for y in 0..22usize {
        let full = (1..11).all(|x| board.cells[x][y] != PieceColor::Empty);
        assert!(!full, "no full row remains after clearing");
    }
    for y in 0..23usize {
        assert_eq!(board.cells[0][y], PieceColor::Wall);
        assert_eq!(board.cells[11][y], PieceColor::Wall);
    }
    for x in 0..12usize {
        assert_eq!(board.cells[x][22], PieceColor::Wall);
    }
}

#[test]
fn scoring_table_matches_the_policy() {
    assert_eq!(score_for(4, 3), 2400);
    assert_eq!(score_for(1, 1), 100);
    assert_eq!(score_for(2, 5), 1500);
    assert_eq!(score_for(3, 2), 1000);
    assert_eq!(score_for(0, 3), 0);
}

#[test]
fn zero_lines_cleared_changes_nothing_and_emits_nothing() {
    let log = EventLog::new();
    let mut gs: GameState<EventLog> = GameState::new(10, 22, false, Difficulty::Easy);
    gs.add_event_handler(log.clone());
    let before = gs.get_score();
    gs.update_score(0);
    assert_eq!(gs.get_score(), before, "score, lines and level are unchanged");
    assert!(log.events.borrow().is_empty(), "no events are emitted");
}

#[test]
fn four_lines_at_level_one_award_eight_hundred() {
    let log = EventLog::new();
    let mut gs: GameState<EventLog> = GameState::new(10, 22, false, Difficulty::Easy);
    gs.add_event_handler(log.clone());
    gs.update_score(4);
    assert_eq!(gs.get_score(), (800, 4, 1));
    let events = log.events.borrow();
    assert!(events.contains(&GameEvent::LinesClearedChanged));
    assert!(events.contains(&GameEvent::ScoreChanged));
    assert!(!events.contains(&GameEvent::LevelChanged), "level stays 1 below ten lines");
}

#[test]
fn walls_block_sideways_movement() {
    let mut gs: GameState<EventLog> = GameState::new(10, 22, false, Difficulty::Easy);
    gs.start();
    let mut guard: u32 = 0;
    while gs.move_left() {
        guard += 1;
        assert!(guard < 20, "the left wall stops the piece");
    }
    let x: i32 = gs.get_current_piece().x;
    assert!(!gs.move_left(), "a piece at the leftmost legal column cannot move left");
    assert_eq!(gs.get_current_piece().x, x, "a rejected move leaves the piece in place");
    let mut guard: u32 = 0;
    while gs.move_right() {
        guard += 1;
        assert!(guard < 20, "the right wall stops the piece");
    }
    assert!(!gs.move_right(), "a piece at the rightmost legal column cannot move right");
}

#[test]
fn floor_blocks_downward_movement() {
    let mut gs: GameState<EventLog> = GameState::new(10, 22, false, Difficulty::Easy);
    gs.start();
    let mut guard: u32 = 0;
    while gs.move_down() {
        guard += 1;
        assert!(guard < 30, "the floor stops the piece");
    }
    let y: i32 = gs.get_current_piece().y;
    assert!(!gs.move_down(), "a piece at the floor cannot move down");
    assert_eq!(gs.get_current_piece().y, y, "a rejected move leaves the piece in place");
}

#[test]
fn left_then_right_restores_the_position() {
    let mut gs: GameState<EventLog> = GameState::new(10, 22, false, Difficulty::Easy);
    gs.start();
    let x: i32 = gs.get_current_piece().x;
    let y: i32 = gs.get_current_piece().y;
    assert!(gs.move_left());
    assert!(gs.move_right());
    assert_eq!(gs.get_current_piece().x, x);
    assert_eq!(gs.get_current_piece().y, y);
}

#[test]
fn rejected_rotation_changes_nothing_and_emits_nothing() {
    // Find a game whose first falling piece is the bar, whose rotation at
    // the floor is always blocked.
    let mut attempts: u32 = 0;
    let gs = loop {
        let candidate: GameState<EventLog> = GameState::new(10, 22, false, Difficulty::Easy);
        if candidate.get_current_piece().piece.color == PieceColor::Cyan {
            break candidate;
        }
        attempts += 1;
        assert!(attempts < 1000, "the bag must dispense a bar piece eventually");
    };
    let mut gs = gs;
    let log = EventLog::new();
    gs.add_event_handler(log.clone());
    gs.start();
    while gs.move_down() {}
    assert_eq!(gs.get_current_piece().piece.orientation, Orientation::Up);
    log.events.borrow_mut().clear();
    let before = gs.get_current_piece().clone();
    assert!(!gs.rotate_right(), "the bar cannot rotate on the floor");
    let after = gs.get_current_piece();
    assert_eq!(after.x, before.x);
    assert_eq!(after.y, before.y);
    assert_eq!(after.piece.orientation, before.piece.orientation);
    assert!(
        !log.events.borrow().contains(&GameEvent::PieceMoved),
        "a rejected rotation announces nothing"
    );
}

#[test]
fn piece_interval_follows_the_difficulty_table() {
    let mut gs: GameState<EventLog> = GameState::new(10, 22, false, Difficulty::Easy);
    assert_eq!(gs.get_piece_interval(), 950, "easy starts at 1000 minus 50 per level");
    gs.cycle_difficulty();
    assert_eq!(*gs.get_difficulty(), Difficulty::Medium);
    assert_eq!(gs.get_piece_interval(), 750);
    gs.cycle_difficulty();
    assert_eq!(*gs.get_difficulty(), Difficulty::Hard);
    gs.cycle_difficulty();
    assert_eq!(*gs.get_difficulty(), Difficulty::Insane);
    assert_eq!(gs.get_piece_interval(), 450);
    gs.cycle_difficulty();
    assert_eq!(*gs.get_difficulty(), Difficulty::Easy);
}

#[test]
fn toggles_flip_their_flags() {
    let mut gs: GameState<EventLog> = GameState::new(10, 22, true, Difficulty::Easy);
    assert!(gs.get_show_next_piece());
    gs.toggle_show_next_piece();
    assert!(!gs.get_show_next_piece());
    assert!(!gs.get_show_tracer());
    gs.toggle_tracer();
    assert!(gs.get_show_tracer());
    gs.toggle_tracer();
    assert!(!gs.get_show_tracer());
}

#[test]
fn restore_rewinds_to_the_snapshot() {
    let mut gs: GameState<EventLog> = GameState::new(10, 22, false, Difficulty::Easy);
    gs.start();
    let piece_before = gs.get_current_piece().piece.clone();
    let snap = gs.snapshot();
    assert!(!gs.get_undo_used());
    gs.drop(DropSpeed::Off);
    let restored = gs.restore(&snap);
    assert!(restored.get_undo_used(), "a restored game remembers the undo");
    assert_eq!(restored.get_score(), snap.get_score());
    assert_eq!(*restored.get_status(), GameStatus::Running);
    assert_eq!(
        restored.get_current_piece().piece.color,
        piece_before.color,
        "the snapshot's falling piece is back"
    );
    let spawn = restored.get_initial_position();
    assert_eq!(restored.get_current_piece().x, spawn.0 as i32);
    assert_eq!(restored.get_current_piece().y, spawn.1 as i32);
}

#[test]
fn seeded_difficulties_lock_pieces_before_the_start() {
    let gs: GameState<EventLog> = GameState::new(10, 22, false, Difficulty::Hard);
    let board = gs.get_board();
    let mut occupied: u32 = 0;
    for x in 1..11usize {
        for y in 0..22usize {
            if board.cells[x][y] != PieceColor::Empty && board.cells[x][y] != PieceColor::Tracer {
                occupied += 1;
            }
        }
    }
    // Five seeded pieces and the falling piece put 24 cells on the board,
    // less ten for every row the seeding happened to complete and clear.
    let (_, lines, _) = gs.get_score();
    assert_eq!(occupied as i32 + 10 * lines, 24);
}
