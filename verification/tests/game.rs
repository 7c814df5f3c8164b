use tetrust::board::Board;
use tetrust::display::Display;
use tetrust::game::{
    can_draw_frame, decimal_text, draw_frame, draw_next_tetromino, draw_score, score_for_lines,
    tick, GameState, Key, State,
};
use tetrust::tetromino::{PieceKind, TetrominoGenertor};

fn numbered_sheet() -> Vec<u32> {
    (1..=64 * 80u32).collect()
}

fn game(state: State) -> GameState {
    let display =
        Display::new(1024, 768, 16, vec![0; 1024 * 768], vec![0x00FF_FFFF; 256], numbered_sheet());
    GameState { display, state, next_tetromino: None }
}

#[test]
fn lines_earn_40_100_300_and_1200_points() {
    assert_eq!(score_for_lines(1), 40);
    assert_eq!(score_for_lines(2), 100);
    assert_eq!(score_for_lines(3), 300);
    assert_eq!(score_for_lines(4), 1200);
}

#[test]
fn any_other_number_of_lines_earns_1200_points() {
    assert_eq!(score_for_lines(5), 1200);
    assert_eq!(score_for_lines(20), 1200);
    assert_eq!(score_for_lines(i32::MAX), 1200);
    assert_eq!(score_for_lines(0), 1200);
    assert_eq!(score_for_lines(-1), 1200);
}

#[test]
fn numbers_are_written_in_decimal() {
    assert_eq!(decimal_text(0), "0");
    assert_eq!(decimal_text(7), "7");
    assert_eq!(decimal_text(10), "10");
    assert_eq!(decimal_text(1200), "1200");
    assert_eq!(decimal_text(9_876_543), "9876543");
    assert_eq!(decimal_text(u32::MAX), "4294967295");
}

#[test]
fn a_new_game_asks_for_its_first_piece() {
    let mut board = Board::new(1, 5);
    let mut gs = game(State::NewGame);
    let mut score = 0;
    assert!(tick(&mut board, &mut gs, &mut score, &vec![Key::Left]));
    assert_eq!(gs.state, State::NewTetrominoNeeded);
    assert!(board.tetromino_position().is_none());
    assert!(gs.next_tetromino.is_none());
    assert_eq!(score, 0);
}

#[test]
fn a_board_that_waits_gets_its_piece_and_play_begins() {
    let mut board = Board::new(1, 5);
    let mut gs = game(State::NewTetrominoNeeded);
    gs.next_tetromino = Some(TetrominoGenertor::new().get_tetromino(PieceKind::S));
    let mut score = 3;
    assert!(tick(&mut board, &mut gs, &mut score, &vec![Key::Down]));
    assert_eq!(gs.state, State::Playing);
    assert_eq!(board.tetromino_position(), Some((5, 6)));
    let placed = board.current_tetromino().unwrap().current_representation().unwrap();
    assert_eq!(placed.color, 0xFF00F000);
    assert!(gs.next_tetromino.is_some());
    assert_eq!(score, 3);
}

#[test]
fn cleared_lines_are_scored_and_the_next_piece_is_asked_for() {
    let mut board = Board::new(1, 5);
    let mut gs = game(State::UpdateScore(3));
    let mut score = 140;
    assert!(tick(&mut board, &mut gs, &mut score, &vec![]));
    assert_eq!(score, 440);
    assert_eq!(gs.state, State::NewTetrominoNeeded);
}

#[test]
fn a_score_that_would_pass_the_largest_number_is_not_added() {
    let mut board = Board::new(1, 5);
    let mut gs = game(State::UpdateScore(4));
    let mut score = i32::MAX - 1199;
    assert!(!tick(&mut board, &mut gs, &mut score, &vec![]));
    assert_eq!(score, i32::MAX - 1199);
    assert_eq!(gs.state, State::UpdateScore(4));
    score -= 1;
    assert!(tick(&mut board, &mut gs, &mut score, &vec![]));
    assert_eq!(score, i32::MAX);
}

#[test]
fn in_play_the_keys_move_the_piece() {
    let mut board = Board::new(1, 5);
    let mut gs = game(State::NewTetrominoNeeded);
    gs.next_tetromino = Some(TetrominoGenertor::new().get_tetromino(PieceKind::O));
    let mut score = 0;
    assert!(tick(&mut board, &mut gs, &mut score, &vec![]));
    assert!(tick(&mut board, &mut gs, &mut score, &vec![Key::Right, Key::Down]));
    assert_eq!(gs.state, State::Playing);
    assert_eq!(board.tetromino_position(), Some((7, 24)));
}

#[test]
fn a_drop_that_is_under_way_is_left_alone() {
    let mut board = Board::new(1, 5);
    let mut gs = game(State::DropBlock);
    let mut score = 0;
    assert!(tick(&mut board, &mut gs, &mut score, &vec![Key::Left]));
    assert_eq!(gs.state, State::DropBlock);
}

fn glyph_origin(c: char) -> u32 {
    let i = "1234567890TISCORENX!".chars().position(|k| k == c).unwrap() as u32;
    1 + 64 * 16 * (i / 4) + 16 * (i % 4)
}

fn cell_shows(display: &Display, x: usize, y: usize, c: char) -> bool {
    let origin = glyph_origin(c);
    (0..16).all(|h| {
        (0..16).all(|w| {
            let pixel = display.buffer[1024 * (16 * y + h) + 16 * x + w];
            pixel == origin + 64 * h as u32 + w as u32
        })
    })
}

fn cell_is(display: &Display, x: usize, y: usize, color: u32) -> bool {
    (0..16).all(|h| (0..16).all(|w| display.buffer[1024 * (16 * y + h) + 16 * x + w] == color))
}

#[test]
fn the_score_is_drawn_below_its_label() {
    let mut gs = game(State::Playing);
    draw_score(1340, &mut gs);
    for (i, c) in "SCORE".chars().enumerate() {
        assert!(cell_shows(&gs.display, 30 + i, 14, c));
    }
    for (i, c) in "1340".chars().enumerate() {
        assert!(cell_shows(&gs.display, 30 + i, 15, c));
    }
    assert!(cell_is(&gs.display, 34, 15, 0));
    assert!(cell_is(&gs.display, 35, 14, 0));
    assert!(cell_is(&gs.display, 29, 14, 0));
}

#[test]
fn the_pending_piece_is_drawn_below_its_label() {
    let mut gs = game(State::Playing);
    gs.next_tetromino = Some(TetrominoGenertor::new().get_tetromino(PieceKind::O));
    draw_next_tetromino(&mut gs);
    for (i, c) in "NEXT".chars().enumerate() {
        assert!(cell_shows(&gs.display, 30 + i, 8, c));
    }
    for (x, y) in [(30, 9), (31, 9), (30, 10), (31, 10)] {
        assert!(cell_is(&gs.display, x, y, 0x00F0_F000));
    }
    assert!(cell_is(&gs.display, 32, 9, 0));
}

#[test]
fn without_a_pending_piece_only_the_label_is_drawn() {
    let mut gs = game(State::Playing);
    draw_next_tetromino(&mut gs);
    assert!(cell_shows(&gs.display, 30, 8, 'N'));
    assert!(cell_is(&gs.display, 30, 9, 0));
}

#[test]
fn a_frame_shows_the_title_the_board_the_pending_piece_and_the_score() {
    let mut board = Board::new(1, 5);
    let mut gs = game(State::NewTetrominoNeeded);
    gs.next_tetromino = Some(TetrominoGenertor::new().get_tetromino(PieceKind::O));
    let mut score = 0;
    assert!(tick(&mut board, &mut gs, &mut score, &vec![]));
    gs.next_tetromino = Some(TetrominoGenertor::new().get_tetromino(PieceKind::I));
    assert!(can_draw_frame(&board, &gs, 340));
    draw_frame(&board, &mut gs, 340);
    let d = &gs.display;
    for (i, c) in "TETRIS!".chars().enumerate() {
        assert!(cell_shows(d, 28 + i, 1, c));
    }
    // The background, the border, the playfield, the piece and its shadow.
    assert!(cell_is(d, 0, 0, 0x001D_1D1D));
    assert!(cell_is(d, 1, 5, 0x0099_9999));
    assert!(cell_is(d, 12, 26, 0x0099_9999));
    assert!(cell_is(d, 2, 6, 0));
    assert!(cell_is(d, 6, 6, 0x00F0_F000));
    assert!(cell_is(d, 7, 25, 0x0016_1616));
    // The pending piece, standing, below its label.
    for (i, c) in "NEXT".chars().enumerate() {
        assert!(cell_shows(d, 30 + i, 8, c));
    }
    for y in 9..13 {
        assert!(cell_is(d, 30, y, 0x0000_F0F0));
    }
    assert!(cell_is(d, 31, 9, 0x001D_1D1D));
    for (i, c) in "SCORE".chars().enumerate() {
        assert!(cell_shows(d, 30 + i, 14, c));
    }
    for (i, c) in "340".chars().enumerate() {
        assert!(cell_shows(d, 30 + i, 15, c));
    }
    assert!(cell_is(d, 33, 15, 0x001D_1D1D));
}

#[test]
fn a_frame_is_drawn_anew_each_time() {
    let board = Board::new(1, 5);
    let mut gs = game(State::NewGame);
    draw_frame(&board, &mut gs, 12345);
    draw_frame(&board, &mut gs, 7);
    assert!(cell_shows(&gs.display, 30, 15, '7'));
    assert!(cell_is(&gs.display, 31, 15, 0x001D_1D1D));
}

#[test]
fn a_frame_cannot_be_drawn_with_a_negative_score_or_on_too_small_a_grid() {
    let board = Board::new(1, 5);
    let mut gs = game(State::NewGame);
    assert!(can_draw_frame(&board, &gs, 0));
    assert!(can_draw_frame(&board, &gs, i32::MAX));
    assert!(!can_draw_frame(&board, &gs, -1));
    // Thirty-six cells across: the title ends in column 34.
    gs.display = Display::new(576, 768, 16, vec![0; 576 * 768], vec![0; 256], numbered_sheet());
    assert!(can_draw_frame(&board, &gs, 0));
    assert!(can_draw_frame(&board, &gs, 99999));
    assert!(!can_draw_frame(&board, &gs, 100000));
    gs.display = Display::new(560, 768, 16, vec![0; 560 * 768], vec![0; 256], numbered_sheet());
    assert!(!can_draw_frame(&board, &gs, 0));
    // Twenty-seven rows: the border ends in row 26.
    gs.display = Display::new(1024, 432, 16, vec![0; 1024 * 432], vec![0; 256], numbered_sheet());
    assert!(!can_draw_frame(&board, &gs, 0));
    gs.display = Display::new(1024, 448, 16, vec![0; 1024 * 448], vec![0; 256], numbered_sheet());
    assert!(can_draw_frame(&board, &gs, 0));
}
