//! What the host loop and the board pass between them: the phase of the
//! game, the keys that are down and the score that cleared lines earn; and
//! what the host loop does with them: one tick of the game, and the frame
//! drawn after it.

use crate::board::{lemma_kind_is_well_formed, state_after_keys, Board, BoardView};
use crate::display::{
    glyph_keys, lemma_with_cells_keeps_canvas, lemma_with_text_keeps_canvas, Display, DisplayView,
};
use crate::tetromino::{PieceKind, Shape, Tetromino};
use vstd::prelude::*;

verus! {

/// The phase of the game.
#[derive(Debug, Clone, Copy, PartialEq, Eq, Structural)]
pub enum State {
    /// Nothing has happened yet.
    NewGame,
    /// The piece in play is to fall as far as it can.
    DropBlock,
    /// A piece is in play.
    Playing,
    /// The board waits for its next piece.
    NewTetrominoNeeded,
    /// Lines were cleared, this many, and are to be scored.
    UpdateScore(i32),
}

/// A key that the board reacts to, or any other.
#[derive(Debug, Clone, Copy, PartialEq, Eq, Structural)]
pub enum Key {
    Left,
    Right,
    Up,
    Down,
    Other,
}

/// What the host loop holds between ticks, besides the board.
pub struct GameState {
    pub display: Display,
    pub state: State,
    pub next_tetromino: Option<Tetromino>,
}

/// The points that a number of lines cleared at once earn.
pub open spec fn points_for(lines: int) -> int {
    if lines == 1 {
        40
    } else if lines == 2 {
        100
    } else if lines == 3 {
        300
    } else {
        1200
    }
}

/// The points that a number of lines cleared at once earn: 40, 100 and 300
/// for one, two and three lines, and 1200 for any other number.
pub fn score_for_lines(lines: i32) -> (points: i32)
    ensures
        points == points_for(lines as int),
{
    match lines {
        1 => 40,
        2 => 100,
        3 => 300,
        _ => 1200,
    }
}

/// The character of a decimal digit.
pub open spec fn digit(d: int) -> char {
    if d == 0 {
        '0'
    } else if d == 1 {
        '1'
    } else if d == 2 {
        '2'
    } else if d == 3 {
        '3'
    } else if d == 4 {
        '4'
    } else if d == 5 {
        '5'
    } else if d == 6 {
        '6'
    } else if d == 7 {
        '7'
    } else if d == 8 {
        '8'
    } else {
        '9'
    }
}

/// A number written in decimal digits, without leading zeros.
pub open spec fn decimal(n: nat) -> Seq<char>
    decreases n,
{
    if n < 10 {
        seq![digit(n as int)]
    } else {
        decimal(n / 10).push(digit((n % 10) as int))
    }
}

/// Every decimal digit has a glyph.
pub proof fn lemma_digits_have_glyphs(n: nat)
    ensures
        decimal(n).len() >= 1,
        forall|i: int|
            0 <= i < decimal(n).len() ==> glyph_keys().contains(#[trigger] decimal(n)[i]),
    decreases n,
{
    let keys = glyph_keys();
    assert(keys[9] == '0' && keys[0] == '1' && keys[1] == '2' && keys[2] == '3' && keys[3] == '4');
    assert(keys[4] == '5' && keys[5] == '6' && keys[6] == '7' && keys[7] == '8' && keys[8] == '9');
    assert forall|d: int| glyph_keys().contains(#[trigger] digit(d)) by {}
    if n >= 10 {
        lemma_digits_have_glyphs(n / 10);
    }
}

fn digit_text(d: u32) -> (text: &'static str)
    requires
        d < 10,
    ensures
        text@ == seq![digit(d as int)],
{
    proof {
        reveal_strlit("0");
        reveal_strlit("1");
        reveal_strlit("2");
        reveal_strlit("3");
        reveal_strlit("4");
        reveal_strlit("5");
        reveal_strlit("6");
        reveal_strlit("7");
        reveal_strlit("8");
        reveal_strlit("9");
    }
    let text: &'static str = match d {
        0 => "0",
        1 => "1",
        2 => "2",
        3 => "3",
        4 => "4",
        5 => "5",
        6 => "6",
        7 => "7",
        8 => "8",
        _ => "9",
    };
    assert(text@ =~= seq![digit(d as int)]);
    text
}

/// A number written in decimal digits, without leading zeros.
pub fn decimal_text(n: u32) -> (text: String)
    ensures
        text@ == decimal(n as nat),
    decreases n,
{
    if n < 10 {
        String::from_str(digit_text(n))
    } else {
        let text: String = decimal_text(n / 10).concat(digit_text(n % 10));
        assert(text@ =~= decimal(n as nat));
        text
    }
}

/// Where the label of the pending piece is drawn, and the piece below it.
pub const NEXT_X: u32 = 30;

pub const NEXT_Y: u32 = 8;

/// Where the label of the score is drawn, and the score below it.
pub const SCORE_X: u32 = 30;

pub const SCORE_Y: u32 = 14;

/// Draws the label of the pending piece and, below it, the piece, if one is
/// pending.
pub fn draw_next_tetromino(gs: &mut GameState)
    requires
        old(gs).display.wf(),
        old(gs).display@.block_fits(NEXT_X + 3, NEXT_Y as int),
        old(gs).next_tetromino matches Some(pending) ==> {
            &&& pending@.len() > 0
            &&& old(gs).display@.cells_fit(
                pending@[0].cells_at(pending@[0].color, NEXT_X as int, NEXT_Y + 1),
            )
        },
    ensures
        final(gs).display.wf(),
        final(gs).display@ == match old(gs).next_tetromino {
            Some(pending) => old(gs).display@.with_text(
                NEXT_X as int,
                NEXT_Y as int,
                "NEXT"@,
            ).with_cells(pending@[0].cells_at(pending@[0].color, NEXT_X as int, NEXT_Y + 1)),
            None => old(gs).display@.with_text(NEXT_X as int, NEXT_Y as int, "NEXT"@),
        },
        final(gs).state == old(gs).state,
        final(gs).next_tetromino == old(gs).next_tetromino,
{
    proof {
        reveal_strlit("NEXT");
        let keys = glyph_keys();
        assert(keys[17] == 'N' && keys[16] == 'E' && keys[18] == 'X' && keys[10] == 'T');
        lemma_with_text_keeps_canvas(
            gs.display@,
            NEXT_X as int,
            NEXT_Y as int,
            "NEXT"@,
        );
    }
    gs.display.draw_glyphs(NEXT_X, NEXT_Y, "NEXT");
    if let Some(tetromino) = &gs.next_tetromino {
        tetromino.render(NEXT_X, NEXT_Y + 1, &mut gs.display);
    }
}

/// Draws the label of the score and, below it, the score in decimal digits.
pub fn draw_score(score: i32, gs: &mut GameState)
    requires
        score >= 0,
        old(gs).display.wf(),
        old(gs).display@.block_fits(SCORE_X + 4, SCORE_Y as int),
        old(gs).display@.block_fits(
            SCORE_X + decimal(score as nat).len() - 1,
            SCORE_Y + 1,
        ),
    ensures
        final(gs).display.wf(),
        final(gs).display@ == old(gs).display@.with_text(
            SCORE_X as int,
            SCORE_Y as int,
            "SCORE"@,
        ).with_text(SCORE_X as int, SCORE_Y + 1, decimal(score as nat)),
        final(gs).state == old(gs).state,
        final(gs).next_tetromino == old(gs).next_tetromino,
{
    proof {
        reveal_strlit("SCORE");
        let keys = glyph_keys();
        assert(keys[12] == 'S' && keys[13] == 'C' && keys[14] == 'O' && keys[15] == 'R' && keys[16]
            == 'E');
        lemma_digits_have_glyphs(score as nat);
        lemma_with_text_keeps_canvas(
            gs.display@,
            SCORE_X as int,
            SCORE_Y as int,
            "SCORE"@,
        );
    }
    gs.display.draw_glyphs(SCORE_X, SCORE_Y, "SCORE");
    let digits: String = decimal_text(score as u32);
    gs.display.draw_glyphs(SCORE_X, SCORE_Y + 1, digits.as_str());
}

/// One tick of the game. A new game asks for its first piece; a board that
/// waits for a piece gets one and play begins; cleared lines are scored and
/// the next piece is asked for; in play the keys and the clock move the
/// piece. Returns false, with nothing scored or dropped, where the score
/// would pass the largest number or the piece would be locked outside the
/// playfield.
pub fn tick(board: &mut Board, gs: &mut GameState, score: &mut i32, down_keys: &Vec<Key>) -> (done:
    bool)
    requires
        old(board).wf(),
        old(gs).next_tetromino matches Some(pending) ==> pending.well_formed(),
    ensures
        final(board).wf(),
        final(gs).next_tetromino matches Some(pending) ==> pending.well_formed(),
        final(gs).display == old(gs).display,
        match old(gs).state {
            State::NewGame => {
                &&& done
                &&& final(gs).state == State::NewTetrominoNeeded
                &&& final(board)@ == old(board)@
                &&& *final(score) == *old(score)
                &&& final(gs).next_tetromino == old(gs).next_tetromino
            },
            State::NewTetrominoNeeded => {
                &&& done
                &&& final(gs).state == State::Playing
                &&& *final(score) == *old(score)
                &&& match old(gs).next_tetromino {
                    Some(pending) => final(board)@ == old(board)@.with_new_piece(pending@),
                    None => exists|kind: PieceKind|
                        final(board)@ == old(board)@.with_new_piece(#[trigger] kind.shapes()),
                }
                &&& final(gs).next_tetromino matches Some(following) && exists|kind: PieceKind|
                    following@ == #[trigger] kind.shapes()
            },
            State::UpdateScore(lines) => {
                &&& done == (*old(score) + points_for(lines as int) <= i32::MAX)
                &&& final(board)@ == old(board)@
                &&& final(gs).next_tetromino == old(gs).next_tetromino
                &&& if done {
                    final(gs).state == State::NewTetrominoNeeded && *final(score) == *old(score)
                        + points_for(lines as int)
                } else {
                    final(gs).state == old(gs).state && *final(score) == *old(score)
                }
            },
            State::Playing => {
                let moved = old(board)@.after_keys(down_keys@);
                let asked = state_after_keys(State::Playing, down_keys@);
                &&& done == (moved.locks(asked, true) ==> moved.piece_in_grid())
                &&& *final(score) == *old(score)
                &&& final(gs).next_tetromino == old(gs).next_tetromino
                &&& if done {
                    exists|due: bool|
                        {
                            &&& final(board)@ == #[trigger] moved.after_descent(asked, due)
                            &&& final(gs).state == moved.state_after_descent(asked, due)
                        }
                } else {
                    final(board)@ == moved && final(gs).state == asked
                }
            },
            State::DropBlock => {
                &&& done
                &&& final(gs).state == State::DropBlock
                &&& final(board)@ == old(board)@
                &&& *final(score) == *old(score)
                &&& final(gs).next_tetromino == old(gs).next_tetromino
            },
        },
{
    match gs.state {
        State::NewGame => {
            gs.state = State::NewTetrominoNeeded;
            true
        },
        State::NewTetrominoNeeded => {
            board.place_new_tetromino(gs);
            gs.state = State::Playing;
            proof {
                let following = gs.next_tetromino->0;
                let kind = choose|kind: PieceKind| following@ == #[trigger] kind.shapes();
                lemma_kind_is_well_formed(kind);
            }
            true
        },
        State::UpdateScore(line_erased) => {
            match score.checked_add(score_for_lines(line_erased)) {
                Some(total) => {
                    gs.state = State::NewTetrominoNeeded;
                    *score = total;
                    true
                },
                None => false,
            }
        },
        State::Playing => board.try_update(gs, down_keys),
        _ => true,
    }
}

/// Where the title is drawn.
pub const TITLE_X: u32 = 28;

pub const TITLE_Y: u32 = 1;

/// The display after the label of the pending piece was drawn and, below it,
/// the piece, if one is pending.
pub open spec fn with_next(display: DisplayView, next: Option<Seq<Shape>>) -> DisplayView {
    let labelled = display.with_text(NEXT_X as int, NEXT_Y as int, "NEXT"@);
    match next {
        Some(shapes) => labelled.with_cells(
            shapes[0].cells_at(shapes[0].color, NEXT_X as int, NEXT_Y + 1),
        ),
        None => labelled,
    }
}

/// The display after the label of the score was drawn and, below it, the
/// score.
pub open spec fn with_score(display: DisplayView, score: int) -> DisplayView {
    display.with_text(SCORE_X as int, SCORE_Y as int, "SCORE"@).with_text(
        SCORE_X as int,
        SCORE_Y + 1,
        decimal(score as nat),
    )
}

/// The display after a frame was drawn: on a cleared buffer the title, the
/// board, the pending piece and the score.
pub open spec fn frame(
    display: DisplayView,
    board: BoardView,
    next: Option<Seq<Shape>>,
    score: int,
) -> DisplayView {
    with_score(
        with_next(
            display.cleared().with_text(TITLE_X as int, TITLE_Y as int, "TETRIS!"@).with_cells(
                board.render_cells(),
            ),
            next,
        ),
        score,
    )
}

/// All that a frame draws lies inside the grid of the display: the title,
/// the board, the label of the pending piece and the piece, the label of the
/// score and the score, which is not negative.
pub open spec fn frame_fits(
    display: DisplayView,
    board: BoardView,
    next: Option<Seq<Shape>>,
    score: int,
) -> bool {
    &&& display.block_fits(TITLE_X + 6, TITLE_Y as int)
    &&& display.cells_fit(board.render_cells())
    &&& display.block_fits(NEXT_X + 3, NEXT_Y as int)
    &&& next matches Some(shapes) ==> shapes.len() > 0 && display.cells_fit(
        shapes[0].cells_at(shapes[0].color, NEXT_X as int, NEXT_Y + 1),
    )
    &&& score >= 0
    &&& display.block_fits(SCORE_X + 4, SCORE_Y as int)
    &&& display.block_fits(SCORE_X + decimal(score as nat).len() - 1, SCORE_Y + 1)
}

/// The rotation cycle of the pending piece, if there is one.
pub open spec fn pending_shapes(gs: GameState) -> Option<Seq<Shape>> {
    match gs.next_tetromino {
        Some(pending) => Some(pending@),
        None => None,
    }
}

/// Whether a frame can be drawn.
pub fn can_draw_frame(board: &Board, gs: &GameState, score: i32) -> (fits: bool)
    requires
        board.wf(),
        gs.display.wf(),
    ensures
        fits == frame_fits(gs.display@, board@, pending_shapes(*gs), score as int),
{
    if score < 0 {
        return false;
    }
    if !gs.display.can_draw_block(TITLE_X + 6, TITLE_Y) {
        return false;
    }
    if !board.can_render(gs) {
        return false;
    }
    if !gs.display.can_draw_block(NEXT_X + 3, NEXT_Y) {
        return false;
    }
    if let Some(pending) = &gs.next_tetromino {
        if !pending.can_render(NEXT_X, NEXT_Y + 1, &gs.display) {
            return false;
        }
    }
    if !gs.display.can_draw_block(SCORE_X + 4, SCORE_Y) {
        return false;
    }
    let digits: String = decimal_text(score as u32);
    proof {
        lemma_digits_have_glyphs(score as nat);
    }
    gs.display.can_draw_glyphs(SCORE_X, SCORE_Y + 1, digits.as_str())
}

/// Draws a frame: on a cleared buffer the title, the board, the pending
/// piece and the score.
pub fn draw_frame(board: &Board, gs: &mut GameState, score: i32)
    requires
        board.wf(),
        old(gs).display.wf(),
        frame_fits(old(gs).display@, board@, pending_shapes(*old(gs)), score as int),
    ensures
        final(gs).display.wf(),
        final(gs).display@ == frame(
            old(gs).display@,
            board@,
            pending_shapes(*old(gs)),
            score as int,
        ),
        final(gs).state == old(gs).state,
        final(gs).next_tetromino == old(gs).next_tetromino,
{
    let ghost canvas = gs.display@;
    gs.display.clear_buffer();
    proof {
        reveal_strlit("TETRIS!");
        let keys = glyph_keys();
        assert(keys[10] == 'T' && keys[16] == 'E' && keys[15] == 'R' && keys[11] == 'I' && keys[12]
            == 'S' && keys[19] == '!');
        lemma_with_text_keeps_canvas(
            canvas.cleared(),
            TITLE_X as int,
            TITLE_Y as int,
            "TETRIS!"@,
        );
    }
    gs.display.draw_glyphs(TITLE_X, TITLE_Y, "TETRIS!");
    proof {
        lemma_with_cells_keeps_canvas(gs.display@, board@.render_cells());
    }
    board.render(gs);
    draw_next_tetromino(gs);
    proof {
        lemma_with_text_keeps_canvas(
            canvas.cleared().with_text(TITLE_X as int, TITLE_Y as int, "TETRIS!"@).with_cells(
                board@.render_cells(),
            ),
            NEXT_X as int,
            NEXT_Y as int,
            "NEXT"@,
        );
        if gs.next_tetromino is Some {
            let pending = gs.next_tetromino->0;
            lemma_with_cells_keeps_canvas(
                canvas.cleared().with_text(TITLE_X as int, TITLE_Y as int, "TETRIS!"@).with_cells(
                    board@.render_cells(),
                ).with_text(NEXT_X as int, NEXT_Y as int, "NEXT"@),
                pending@[0].cells_at(pending@[0].color, NEXT_X as int, NEXT_Y + 1),
            );
        }
    }
    draw_score(score, gs);
}

} // verus!
