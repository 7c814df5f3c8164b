use tetrust::board::{Board, BOARD_HEIGHT, BOARD_WIDTH};
use tetrust::display::Display;
use tetrust::game::{GameState, Key, State};
use tetrust::grid::BlockState;
use tetrust::tetromino::{PieceKind, TetrominoGenertor};

const X: u32 = 1;
const Y: u32 = 5;

fn game(state: State) -> GameState {
    let template = vec![0x00FF_FFFF; 256];
    let display = Display::new(1024, 768, 16, vec![0; 1024 * 768], template, vec![0; 64 * 80]);
    GameState { display, state, next_tetromino: None }
}

fn board_with(kind: PieceKind) -> (Board, GameState) {
    let mut board = Board::new(X, Y);
    let mut gs = game(State::NewTetrominoNeeded);
    gs.next_tetromino = Some(TetrominoGenertor::new().get_tetromino(kind));
    board.place_new_tetromino(&mut gs);
    gs.state = State::Playing;
    (board, gs)
}

fn occupied(board: &Board) -> Vec<(usize, usize)> {
    let mut cells = Vec::new();
    for row in 0..20 {
        for col in 0..10 {
            if board.is_occupied(row, col) {
                cells.push((row, col));
            }
        }
    }
    cells
}

fn fill_row(board: &mut Board, row: usize, color: u32) {
    for col in 0..10 {
        board.occupy(row, col, color);
    }
}

#[test]
fn a_new_board_is_empty_and_has_no_piece() {
    let board = Board::new(X, Y);
    assert_eq!(BOARD_WIDTH, 12);
    assert_eq!(BOARD_HEIGHT, 22);
    assert!(occupied(&board).is_empty());
    assert_eq!(board.block(0, 0), BlockState { set: false, color: 0 });
    assert_eq!(board.block(19, 9), BlockState { set: false, color: 0 });
    assert!(board.tetromino_position().is_none());
    assert!(board.current_tetromino().is_none());
    for row in 0..20 {
        assert!(board.is_line_empty(row));
        assert!(!board.is_line_full(row));
    }
}

#[test]
fn clearing_an_empty_board_clears_nothing() {
    let mut board = Board::new(X, Y);
    assert_eq!(board.remove_full_line(), 0);
    assert!(occupied(&board).is_empty());
    for row in 0..20 {
        for col in 0..10 {
            assert_eq!(board.block(row, col), BlockState { set: false, color: 0 });
        }
    }
}

#[test]
fn a_full_row_goes_and_the_row_above_comes_down() {
    let mut board = Board::new(X, Y);
    fill_row(&mut board, 19, 0xAA);
    board.occupy(18, 3, 0xBB);
    assert!(board.is_line_full(19));
    assert!(!board.is_line_full(18));
    assert!(!board.is_line_empty(18));
    assert_eq!(board.remove_full_line(), 1);
    assert_eq!(occupied(&board), vec![(19, 3)]);
    assert_eq!(board.block(19, 3), BlockState { set: true, color: 0xBB });
    assert_eq!(board.block(19, 4), BlockState { set: false, color: 0 });
    assert!(board.is_line_empty(18));
}

#[test]
fn two_full_rows_go_together_and_the_rows_above_come_down_by_two() {
    let mut board = Board::new(X, Y);
    fill_row(&mut board, 19, 1);
    fill_row(&mut board, 18, 2);
    board.occupy(17, 0, 3);
    board.occupy(17, 9, 4);
    board.occupy(16, 5, 5);
    board.occupy(15, 2, 6);
    assert_eq!(board.remove_full_line(), 2);
    assert_eq!(occupied(&board), vec![(17, 2), (18, 5), (19, 0), (19, 9)]);
    assert_eq!(board.block(19, 0).color, 3);
    assert_eq!(board.block(19, 9).color, 4);
    assert_eq!(board.block(18, 5).color, 5);
    assert_eq!(board.block(17, 2).color, 6);
}

#[test]
fn full_rows_apart_go_together_and_rows_fall_past_each_gap() {
    let mut board = Board::new(X, Y);
    fill_row(&mut board, 19, 1);
    board.occupy(18, 1, 7);
    fill_row(&mut board, 17, 2);
    board.occupy(16, 2, 8);
    fill_row(&mut board, 15, 3);
    fill_row(&mut board, 14, 4);
    board.occupy(13, 3, 9);
    assert_eq!(board.remove_full_line(), 4);
    assert_eq!(occupied(&board), vec![(17, 3), (18, 2), (19, 1)]);
    assert_eq!(board.block(19, 1).color, 7);
    assert_eq!(board.block(18, 2).color, 8);
    assert_eq!(board.block(17, 3).color, 9);
}

#[test]
fn without_a_full_row_nothing_moves() {
    let mut board = Board::new(X, Y);
    board.occupy(10, 4, 1);
    board.occupy(19, 0, 2);
    assert_eq!(board.remove_full_line(), 0);
    assert_eq!(occupied(&board), vec![(10, 4), (19, 0)]);
}

#[test]
fn drop_lines_lets_rows_fall_past_empty_rows_in_their_order() {
    let mut board = Board::new(X, Y);
    board.occupy(0, 0, 1);
    board.occupy(5, 5, 2);
    board.occupy(6, 6, 3);
    board.occupy(12, 9, 4);
    board.drop_lines();
    assert_eq!(occupied(&board), vec![(16, 0), (17, 5), (18, 6), (19, 9)]);
    assert_eq!(board.block(16, 0).color, 1);
    assert_eq!(board.block(19, 9).color, 4);
}

#[test]
fn rows_are_emptied_and_copied_one_at_a_time() {
    let mut board = Board::new(X, Y);
    board.occupy(3, 1, 5);
    board.occupy(3, 8, 6);
    board.copy_line(3, 7);
    assert_eq!(occupied(&board), vec![(3, 1), (3, 8), (7, 1), (7, 8)]);
    assert_eq!(board.block(7, 8).color, 6);
    board.reset_line(3);
    assert_eq!(occupied(&board), vec![(7, 1), (7, 8)]);
    assert_eq!(board.block(3, 1), BlockState { set: false, color: 0 });
}

#[test]
fn a_piece_is_placed_centered_in_the_top_row() {
    let (board, gs) = board_with(PieceKind::O);
    assert_eq!(board.tetromino_position(), Some((6, 6)));
    assert!(gs.next_tetromino.is_some());
    assert_eq!(board_with(PieceKind::I).0.tetromino_position(), Some((6, 6)));
    assert_eq!(board_with(PieceKind::T).0.tetromino_position(), Some((5, 6)));
    assert_eq!(board_with(PieceKind::J).0.tetromino_position(), Some((6, 6)));
    let placed = board.current_tetromino().unwrap().current_representation().unwrap();
    assert_eq!(placed.color, 0xF0F000);
}

#[test]
fn without_a_pending_piece_a_random_one_is_placed() {
    let mut board = Board::new(X, Y);
    let mut gs = game(State::NewTetrominoNeeded);
    board.place_new_tetromino(&mut gs);
    let placed = board.current_tetromino().unwrap().current_representation().unwrap();
    assert_eq!(placed.vertices.len(), 4);
    assert_eq!(board.tetromino_position(), Some((X + 6 - (placed.width + 1) / 2, Y + 1)));
    assert!(gs.next_tetromino.is_some());
}

#[test]
fn a_place_past_the_floor_or_on_a_set_cell_collides() {
    let (mut board, _) = board_with(PieceKind::O);
    // Free air.
    assert!(!board.detect_collision(6, 6));
    assert!(!board.detect_collision(6, 24));
    // The bottom border.
    assert!(board.detect_collision(6, 25));
    assert!(board.detect_collision(6, 26));
    // A set cell under the lower right cell of the piece at (6, 10).
    board.occupy(5, 5, 1);
    assert!(board.detect_collision(6, 10));
    assert!(board.detect_collision(6, 11));
    assert!(board.detect_collision(7, 10));
    assert!(!board.detect_collision(8, 10));
    assert!(!board.detect_collision(4, 10));
    assert!(!board.detect_collision(6, 9));
    assert!(!board.detect_collision(6, 12));
}

#[test]
fn without_a_piece_nothing_collides() {
    let mut board = Board::new(X, Y);
    fill_row(&mut board, 19, 1);
    assert!(!board.detect_collision(6, 25));
    assert!(!board.detect_collision(0, 0));
}

#[test]
fn left_and_right_stop_at_the_walls() {
    let (mut board, mut gs) = board_with(PieceKind::O);
    board.process_input(&mut gs, &vec![Key::Left; 3]);
    assert_eq!(board.tetromino_position(), Some((3, 6)));
    board.process_input(&mut gs, &vec![Key::Left; 5]);
    assert_eq!(board.tetromino_position(), Some((2, 6)));
    board.process_input(&mut gs, &vec![Key::Right; 20]);
    assert_eq!(board.tetromino_position(), Some((10, 6)));
    assert_eq!(gs.state, State::Playing);
}

#[test]
fn left_and_right_stop_at_set_cells() {
    let (mut board, mut gs) = board_with(PieceKind::O);
    board.occupy(1, 2, 9);
    board.occupy(0, 8, 9);
    board.process_input(&mut gs, &vec![Key::Left; 9]);
    assert_eq!(board.tetromino_position(), Some((5, 6)));
    board.process_input(&mut gs, &vec![Key::Right; 9]);
    assert_eq!(board.tetromino_position(), Some((8, 6)));
}

#[test]
fn keys_are_applied_in_their_order() {
    let (mut board, mut gs) = board_with(PieceKind::O);
    board.process_input(&mut gs, &vec![Key::Left, Key::Other, Key::Right, Key::Right, Key::Up]);
    assert_eq!(board.tetromino_position(), Some((7, 6)));
    assert_eq!(gs.state, State::Playing);
}

#[test]
fn up_rotates_and_pulls_the_piece_back_from_the_right_wall() {
    let (mut board, mut gs) = board_with(PieceKind::I);
    board.process_input(&mut gs, &vec![Key::Right; 9]);
    assert_eq!(board.tetromino_position(), Some((11, 6)));
    board.process_input(&mut gs, &vec![Key::Up]);
    // Four cells wide now: columns 8 to 11, against the wall.
    assert_eq!(board.tetromino_position(), Some((8, 6)));
    assert_eq!(board.current_tetromino().unwrap().current_representation().unwrap().width, 4);
    board.process_input(&mut gs, &vec![Key::Up]);
    assert_eq!(board.tetromino_position(), Some((8, 6)));
    assert_eq!(board.current_tetromino().unwrap().current_representation().unwrap().width, 1);
}

#[test]
fn a_piece_that_fits_after_turning_is_not_pulled_back() {
    let (mut board, mut gs) = board_with(PieceKind::I);
    board.process_input(&mut gs, &vec![Key::Right, Key::Right, Key::Up]);
    // Columns 8 to 11: the last one lies against the wall.
    assert_eq!(board.tetromino_position(), Some((8, 6)));
    let (mut other, mut other_gs) = board_with(PieceKind::I);
    other.process_input(&mut other_gs, &vec![Key::Right, Key::Right, Key::Right, Key::Up]);
    assert_eq!(other.tetromino_position(), Some((8, 6)));
}

#[test]
fn up_rotates_in_place_away_from_the_wall() {
    let (mut board, mut gs) = board_with(PieceKind::T);
    board.process_input(&mut gs, &vec![Key::Up]);
    assert_eq!(board.tetromino_position(), Some((5, 6)));
    let now = board.current_tetromino().unwrap().current_representation().unwrap();
    assert_eq!(now.vertices, vec![(1, 0), (1, 1), (1, 2), (0, 1)]);
}

#[test]
fn down_asks_for_the_drop() {
    let (mut board, mut gs) = board_with(PieceKind::O);
    board.process_input(&mut gs, &vec![Key::Left, Key::Down, Key::Left]);
    assert_eq!(gs.state, State::DropBlock);
    assert_eq!(board.tetromino_position(), Some((4, 6)));
}

#[test]
fn before_its_time_the_piece_stays() {
    let (mut board, mut gs) = board_with(PieceKind::O);
    assert!(!board.drop_tetromino_after(&mut gs, 0));
    assert!(!board.drop_tetromino_after(&mut gs, 299));
    assert_eq!(board.tetromino_position(), Some((6, 6)));
    assert_eq!(gs.state, State::Playing);
}

#[test]
fn in_its_time_the_piece_moves_down_a_row() {
    let (mut board, mut gs) = board_with(PieceKind::O);
    assert!(board.drop_tetromino_after(&mut gs, 300));
    assert_eq!(board.tetromino_position(), Some((6, 7)));
    assert!(board.drop_tetromino_after(&mut gs, 5000));
    assert_eq!(board.tetromino_position(), Some((6, 8)));
    assert_eq!(gs.state, State::Playing);
}

#[test]
fn without_a_piece_nothing_drops() {
    let mut board = Board::new(X, Y);
    let mut gs = game(State::Playing);
    assert!(!board.drop_tetromino_after(&mut gs, 1000));
    assert_eq!(gs.state, State::Playing);
    gs.state = State::DropBlock;
    assert!(!board.drop_tetromino_after(&mut gs, 0));
    assert_eq!(gs.state, State::DropBlock);
}

#[test]
fn an_o_piece_dropped_on_an_empty_board_locks_at_the_bottom() {
    let (mut board, mut gs) = board_with(PieceKind::O);
    board.process_input(&mut gs, &vec![Key::Down]);
    assert_eq!(gs.state, State::DropBlock);
    assert!(board.drop_tetromino_after(&mut gs, 0));
    assert_eq!(gs.state, State::Playing);
    assert_eq!(board.tetromino_position(), Some((6, 24)));
    assert!(occupied(&board).is_empty());
    assert!(board.drop_tetromino_after(&mut gs, 300));
    assert_eq!(gs.state, State::NewTetrominoNeeded);
    assert!(board.tetromino_position().is_none());
    assert_eq!(occupied(&board), vec![(18, 4), (18, 5), (19, 4), (19, 5)]);
    assert_eq!(board.block(19, 4), BlockState { set: true, color: 0xF0F000 });
}

#[test]
fn update_drops_at_once_when_down_is_pressed() {
    let (mut board, mut gs) = board_with(PieceKind::O);
    board.update(&mut gs, &vec![Key::Down]);
    assert_eq!(gs.state, State::Playing);
    assert_eq!(board.tetromino_position(), Some((6, 24)));
    let (mut other, mut other_gs) = board_with(PieceKind::O);
    assert!(other.try_update(&mut other_gs, &vec![Key::Left, Key::Down]));
    assert_eq!(other.tetromino_position(), Some((5, 24)));
}

#[test]
fn a_dropped_piece_comes_to_rest_on_what_lies_below() {
    let (mut board, mut gs) = board_with(PieceKind::O);
    board.occupy(10, 5, 1);
    gs.state = State::DropBlock;
    assert!(board.drop_tetromino_after(&mut gs, 0));
    // The right column of the piece stands on row 10: its cells are in rows 8 and 9.
    assert_eq!(board.tetromino_position(), Some((6, 14)));
    assert!(board.drop_tetromino_after(&mut gs, 300));
    assert_eq!(occupied(&board), vec![(8, 4), (8, 5), (9, 4), (9, 5), (10, 5)]);
    assert_eq!(gs.state, State::NewTetrominoNeeded);
}

#[test]
fn a_lock_that_fills_rows_asks_for_the_score() {
    let (mut board, mut gs) = board_with(PieceKind::O);
    for col in 0..10 {
        if col != 4 && col != 5 {
            board.occupy(19, col, 1);
            board.occupy(18, col, 2);
        }
    }
    board.occupy(17, 0, 3);
    gs.state = State::DropBlock;
    assert!(board.drop_tetromino_after(&mut gs, 0));
    assert_eq!(board.tetromino_position(), Some((6, 24)));
    assert!(board.drop_tetromino_after(&mut gs, 300));
    assert_eq!(gs.state, State::UpdateScore(2));
    assert_eq!(occupied(&board), vec![(19, 0)]);
    assert_eq!(board.block(19, 0).color, 3);
    assert!(board.tetromino_position().is_none());
}

#[test]
fn settling_commits_the_cells_in_the_color_of_the_piece() {
    let (mut board, _) = board_with(PieceKind::T);
    board.settle_tetromino();
    // The T at (5, 6): columns 3 to 5 of row 0, and column 4 of row 1.
    assert_eq!(occupied(&board), vec![(0, 3), (0, 4), (0, 5), (1, 4)]);
    assert_eq!(board.block(1, 4), BlockState { set: true, color: 0xFFA000F0 });
}

#[test]
fn a_piece_turned_past_the_floor_is_not_locked() {
    let (mut board, mut gs) = board_with(PieceKind::I);
    board.process_input(&mut gs, &vec![Key::Up]);
    gs.state = State::DropBlock;
    assert!(board.drop_tetromino_after(&mut gs, 0));
    // Lying on the floor.
    assert_eq!(board.tetromino_position(), Some((6, 25)));
    assert!(board.can_drop(&gs));
    board.process_input(&mut gs, &vec![Key::Up]);
    // Standing, and through the floor.
    assert!(!board.can_drop(&gs));
    assert!(!board.try_update(&mut gs, &vec![]));
    assert_eq!(board.tetromino_position(), Some((6, 25)));
    assert!(occupied(&board).is_empty());
    // A drop does not lock, so it is safe.
    assert!(board.try_update(&mut gs, &vec![Key::Down]));
    assert_eq!(gs.state, State::Playing);
}

fn block_is(display: &Display, x: usize, y: usize, color: u32) -> bool {
    (0..16).all(|h| (0..16).all(|w| display.buffer[1024 * (16 * y + h) + 16 * x + w] == color))
}

#[test]
fn render_draws_the_border_the_cells_the_piece_and_its_shadow() {
    let (mut board, mut gs) = board_with(PieceKind::O);
    board.occupy(19, 0, 0x0000_00FF);
    for pixel in gs.display.buffer.iter_mut() {
        *pixel = 0x0012_3456;
    }
    board.render(&mut gs);
    let d = &gs.display;
    // The border: columns 1 and 12, rows 5 and 26.
    for x in 1..=12 {
        assert!(block_is(d, x, 5, 0x0099_9999));
        assert!(block_is(d, x, 26, 0x0099_9999));
    }
    for y in 5..=26 {
        assert!(block_is(d, 1, y, 0x0099_9999));
        assert!(block_is(d, 12, y, 0x0099_9999));
    }
    // The playfield: black where nothing is set.
    assert!(block_is(d, 2, 6, 0));
    assert!(block_is(d, 11, 25, 0));
    assert!(block_is(d, 2, 25, 0x0000_00FF));
    // The piece at (6, 6) and its shadow at (6, 24).
    for (x, y) in [(6, 6), (7, 6), (6, 7), (7, 7)] {
        assert!(block_is(d, x, y, 0x00F0_F000));
    }
    for (x, y) in [(6, 24), (7, 24), (6, 25), (7, 25)] {
        assert!(block_is(d, x, y, 0x0016_1616));
    }
    // Nothing outside the border.
    assert!(block_is(d, 0, 5, 0x0012_3456));
    assert!(block_is(d, 13, 5, 0x0012_3456));
    assert!(block_is(d, 1, 4, 0x0012_3456));
    assert!(block_is(d, 1, 27, 0x0012_3456));
    assert_eq!(gs.state, State::Playing);
}

#[test]
fn a_piece_that_has_landed_has_no_shadow() {
    let (mut board, mut gs) = board_with(PieceKind::O);
    gs.state = State::DropBlock;
    assert!(board.drop_tetromino_after(&mut gs, 0));
    board.render(&mut gs);
    for (x, y) in [(6, 24), (7, 24), (6, 25), (7, 25)] {
        assert!(block_is(&gs.display, x, y, 0x00F0_F000));
    }
    assert!(block_is(&gs.display, 6, 23, 0));
}

#[test]
fn a_board_without_a_piece_draws_border_and_cells_only() {
    let board = Board::new(X, Y);
    let mut gs = game(State::NewGame);
    board.render(&mut gs);
    let colored = gs.display.buffer.iter().filter(|p| **p != 0).count();
    assert_eq!(colored, (2 * 12 + 2 * 20) * 256);
}

#[test]
fn right_after_a_descent_the_clock_holds_the_piece() {
    let (mut board, mut gs) = board_with(PieceKind::O);
    board.update(&mut gs, &vec![Key::Down]);
    assert_eq!(board.tetromino_position(), Some((6, 24)));
    board.drop_tetromino(&mut gs);
    assert_eq!(board.tetromino_position(), Some((6, 24)));
    assert_eq!(gs.state, State::Playing);
    assert!(occupied(&board).is_empty());
}

#[test]
fn keys_do_nothing_without_a_piece() {
    let mut board = Board::new(X, Y);
    let mut gs = game(State::Playing);
    board.process_input(&mut gs, &vec![Key::Left, Key::Right, Key::Up, Key::Other]);
    assert!(board.tetromino_position().is_none());
    assert_eq!(gs.state, State::Playing);
    board.process_input(&mut gs, &vec![Key::Down]);
    assert_eq!(gs.state, State::DropBlock);
}

#[test]
fn a_board_can_be_drawn_where_its_border_and_its_piece_fit() {
    let (board, gs) = board_with(PieceKind::I);
    assert!(board.can_render(&gs));
    let mut small = game(State::Playing);
    // Fourteen cells by twenty-eight: the border ends in column 12 and row 26.
    small.display = Display::new(224, 448, 16, vec![0; 224 * 448], vec![0; 256], vec![0; 64 * 80]);
    assert!(board.can_render(&small));
    small.display = Display::new(223, 448, 16, vec![0; 223 * 448], vec![0; 256], vec![0; 64 * 80]);
    assert!(!board.can_render(&small));
    small.display = Display::new(224, 447, 16, vec![0; 224 * 447], vec![0; 256], vec![0; 64 * 80]);
    assert!(!board.can_render(&small));
}

#[test]
fn a_board_cannot_be_drawn_where_its_piece_reaches_past_the_grid() {
    let (mut board, mut gs) = board_with(PieceKind::I);
    board.process_input(&mut gs, &vec![Key::Up]);
    gs.state = State::DropBlock;
    assert!(board.drop_tetromino_after(&mut gs, 0));
    board.process_input(&mut gs, &vec![Key::Up]);
    // Standing in row 25, the piece reaches row 28.
    assert_eq!(board.tetromino_position(), Some((6, 25)));
    let mut small = game(State::Playing);
    small.display = Display::new(224, 480, 16, vec![0; 224 * 480], vec![0; 256], vec![0; 64 * 80]);
    assert!(board.can_render(&small));
    small.display = Display::new(224, 464, 16, vec![0; 224 * 464], vec![0; 256], vec![0; 64 * 80]);
    assert!(!board.can_render(&small));
}
