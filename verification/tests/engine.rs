use std::cell::RefCell;
use std::rc::Rc;

use blocks_lib::gamestate::{Difficulty, DropSpeed, EventHandler, GameEvent, GameState, GameStatus};
use blocks_lib::pieces::Orientation;

#[derive(Clone)]
struct TestEvents {
    events: Rc<RefCell<Vec<GameEvent>>>,
}

impl TestEvents {
    fn new() -> TestEvents {
        TestEvents { events: Rc::new(RefCell::new(Vec::new())) }
    }
}

impl EventHandler for TestEvents {
    fn handle_event(&mut self, _gs: &GameState<Self>, event: &GameEvent) {
        self.events.borrow_mut().push(*event);
    }
}

#[test]
fn test_create() {
    let test_events = TestEvents::new();
    let mut gs: GameState<TestEvents> = GameState::new(10, 22, false, Difficulty::Easy);

    gs.add_event_handler(test_events.clone());
    gs.initialize_board_pieces();

    assert_eq!(gs.get_board().width, 12, "Board width should be 12 for Game width 10");
    assert_eq!(gs.get_board().height, 23, "Board height should be 23 for Game height 22");
}

#[test]
fn test_move() {
    let test_events = TestEvents::new();
    let mut gs: GameState<TestEvents> = GameState::new(10, 22, false, Difficulty::Easy);
    gs.add_event_handler(test_events.clone());

    gs.start();
    let current_piece = gs.get_current_piece().clone();

    let x: i32 = current_piece.x;
    let y: i32 = current_piece.y;

    assert_eq!(gs.move_left(), true, "Piece should move left");
    assert_eq!(gs.move_right(), true, "Piece should move right");
    assert_eq!(gs.move_down(), true, "Piece should move down");
    let current_piece = gs.get_current_piece().clone();
    assert_eq!(current_piece.x, x, "Piece x is same after right and left");
    assert_eq!(current_piece.y, y + 1, "Piece y is incremented after down");
    let events = test_events.events.borrow();

    assert_eq!(
        events.as_slice(),
        vec![
            GameEvent::GameStarted,
            GameEvent::PieceMoved,
            GameEvent::PieceMoved,
            GameEvent::PieceMoved
        ],
        "Events should be generated"
    );
}

#[test]
fn test_rotate() {
    let test_events = TestEvents::new();
    let mut gs: GameState<TestEvents> = GameState::new(10, 22, false, Difficulty::Easy);
    gs.add_event_handler(test_events.clone());
    gs.initialize_board_pieces();

    let current_piece = gs.get_current_piece().clone();

    let orientation = current_piece.piece.orientation;

    gs.start();
    assert_eq!(gs.rotate_right(), true, "Piece should rotate right");
    assert_eq!(
        gs.get_current_piece().piece.orientation,
        Orientation::Right,
        "Piece is Right after single rotate"
    );
    assert_eq!(gs.rotate_right(), true, "Piece should rotate right");
    assert_eq!(gs.rotate_right(), true, "Piece should rotate right");
    assert_eq!(gs.rotate_right(), true, "Piece should rotate right");

    assert_eq!(
        gs.get_current_piece().piece.orientation,
        orientation,
        "Piece is up after 4 rotations"
    );
}

#[test]
fn drop() {
    let test_events = TestEvents::new();
    let mut gs: GameState<TestEvents> = GameState::new(10, 22, false, Difficulty::Easy);
    gs.add_event_handler(test_events.clone());
    assert_eq!(
        gs.drop(DropSpeed::Off),
        false,
        "Piece should not drop before game started"
    );
    gs.start();
    assert_eq!(
        gs.drop(DropSpeed::Off),
        true,
        "Piece should not drop before game started"
    );
    let events = test_events.events.borrow();

    assert!(
        events.contains(&GameEvent::PieceChanged),
        "Piece changed event should be generated"
    );
    assert!(
        events.as_slice().iter().filter(|e| **e == GameEvent::PieceMoved).count() > 10,
        "Piece moved more than ten times"
    );
}

#[test]
fn test_game_over() {
    let mut gs: GameState<TestEvents> = GameState::new(10, 22, false, Difficulty::Easy);
    gs.initialize_board_pieces();
    let test_events = TestEvents::new();
    gs.start();
    gs.add_event_handler(test_events.clone());

    // Drop til you stop
    while gs.drop(DropSpeed::Off) {}
    let events = test_events.events.borrow();
    assert!(
        events.contains(&GameEvent::GameOver),
        "Game Over event should be generated"
    );
    assert_eq!(*gs.get_status(), GameStatus::GameOver, "Game should be over");
}
